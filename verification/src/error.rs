//! The error type of the tool, its process exit codes and its messages.

use vstd::prelude::*;

use crate::text::{concat2, decimal, decimal_string};

verus! {

/// Every way a command can fail.
#[derive(Debug)]
pub enum AtspiCliError {
    Atspi(String),
    DBus(String),
    AppResolution(String),
    NodeNotFound(String),
    InvalidLocator(String),
    LocatorTooComplex(String),
    SensitiveNodePolicy(String),
    InvalidArgument(String),
    Timeout { locator: String, timeout_ms: u64 },
    Io(String),
    Internal(String),
}

/// The outcome of an operation that can fail with an [`AtspiCliError`].
pub type Result<T> = std::result::Result<T, AtspiCliError>;

/// The mathematical value of an [`AtspiCliError`]: its variant with the
/// characters of its payload.
pub enum ErrorView {
    Atspi(Seq<char>),
    DBus(Seq<char>),
    AppResolution(Seq<char>),
    NodeNotFound(Seq<char>),
    InvalidLocator(Seq<char>),
    LocatorTooComplex(Seq<char>),
    SensitiveNodePolicy(Seq<char>),
    InvalidArgument(Seq<char>),
    Timeout { locator: Seq<char>, timeout_ms: u64 },
    Io(Seq<char>),
    Internal(Seq<char>),
}

impl DeepView for AtspiCliError {
    type V = ErrorView;

    open spec fn deep_view(&self) -> ErrorView {
        match self {
            AtspiCliError::Atspi(m) => ErrorView::Atspi(m@),
            AtspiCliError::DBus(m) => ErrorView::DBus(m@),
            AtspiCliError::AppResolution(m) => ErrorView::AppResolution(m@),
            AtspiCliError::NodeNotFound(m) => ErrorView::NodeNotFound(m@),
            AtspiCliError::InvalidLocator(m) => ErrorView::InvalidLocator(m@),
            AtspiCliError::LocatorTooComplex(m) => ErrorView::LocatorTooComplex(m@),
            AtspiCliError::SensitiveNodePolicy(m) => ErrorView::SensitiveNodePolicy(m@),
            AtspiCliError::InvalidArgument(m) => ErrorView::InvalidArgument(m@),
            AtspiCliError::Timeout { locator, timeout_ms } => ErrorView::Timeout {
                locator: locator@,
                timeout_ms: *timeout_ms,
            },
            AtspiCliError::Io(m) => ErrorView::Io(m@),
            AtspiCliError::Internal(m) => ErrorView::Internal(m@),
        }
    }
}

/// The process exit code reported for an error: one code per kind of
/// failure, with both locator errors sharing code 7.
pub open spec fn exit_code_of(e: ErrorView) -> i32 {
    match e {
        ErrorView::Internal(_) => 1,
        ErrorView::Atspi(_) => 2,
        ErrorView::DBus(_) => 3,
        ErrorView::AppResolution(_) => 4,
        ErrorView::NodeNotFound(_) => 5,
        ErrorView::Io(_) => 6,
        ErrorView::InvalidLocator(_) => 7,
        ErrorView::LocatorTooComplex(_) => 7,
        ErrorView::SensitiveNodePolicy(_) => 8,
        ErrorView::InvalidArgument(_) => 9,
        ErrorView::Timeout { .. } => 10,
    }
}

/// The human-readable message of an error.
pub open spec fn error_message(e: ErrorView) -> Seq<char> {
    match e {
        ErrorView::Atspi(m) => "AT-SPI error: "@ + m,
        ErrorView::DBus(m) => "DBus error: "@ + m,
        ErrorView::AppResolution(m) => "Application resolution error: "@ + m,
        ErrorView::NodeNotFound(m) => "Node not found: "@ + m,
        ErrorView::InvalidLocator(m) => "Invalid locator: "@ + m,
        ErrorView::LocatorTooComplex(m) => "Locator too complex: "@ + m,
        ErrorView::SensitiveNodePolicy(m) => "Sensitive node policy violation: "@ + m,
        ErrorView::InvalidArgument(m) => "Invalid argument: "@ + m,
        ErrorView::Timeout { locator, timeout_ms } => "Timeout waiting for locator '"@ + locator
            + "' in "@ + decimal(timeout_ms as nat) + "ms"@,
        ErrorView::Io(m) => "IO error: "@ + m,
        ErrorView::Internal(m) => "Internal error: "@ + m,
    }
}

impl AtspiCliError {
    /// The process exit code for this error.
    pub fn exit_code(&self) -> (code: i32)
        ensures
            code == exit_code_of(self.deep_view()),
    {
        match self {
            AtspiCliError::Internal(_) => 1,
            AtspiCliError::Atspi(_) => 2,
            AtspiCliError::DBus(_) => 3,
            AtspiCliError::AppResolution(_) => 4,
            AtspiCliError::NodeNotFound(_) => 5,
            AtspiCliError::Io(_) => 6,
            AtspiCliError::InvalidLocator(_) => 7,
            AtspiCliError::LocatorTooComplex(_) => 7,
            AtspiCliError::SensitiveNodePolicy(_) => 8,
            AtspiCliError::InvalidArgument(_) => 9,
            AtspiCliError::Timeout { .. } => 10,
        }
    }

    /// The human-readable message for this error.
    pub fn to_string(&self) -> (s: String)
        ensures
            s@ == error_message(self.deep_view()),
    {
        match self {
            AtspiCliError::Atspi(m) => concat2("AT-SPI error: ", m.as_str()),
            AtspiCliError::DBus(m) => concat2("DBus error: ", m.as_str()),
            AtspiCliError::AppResolution(m) => concat2("Application resolution error: ", m.as_str()),
            AtspiCliError::NodeNotFound(m) => concat2("Node not found: ", m.as_str()),
            AtspiCliError::InvalidLocator(m) => concat2("Invalid locator: ", m.as_str()),
            AtspiCliError::LocatorTooComplex(m) => concat2("Locator too complex: ", m.as_str()),
            AtspiCliError::SensitiveNodePolicy(m) => concat2(
                "Sensitive node policy violation: ",
                m.as_str(),
            ),
            AtspiCliError::InvalidArgument(m) => concat2("Invalid argument: ", m.as_str()),
            AtspiCliError::Timeout { locator, timeout_ms } => {
                let mut s = String::from_str("Timeout waiting for locator '");
                s.append(locator.as_str());
                s.append("' in ");
                let ms = decimal_string(*timeout_ms as u128);
                s.append(ms.as_str());
                s.append("ms");
                s
            },
            AtspiCliError::Io(m) => concat2("IO error: ", m.as_str()),
            AtspiCliError::Internal(m) => concat2("Internal error: ", m.as_str()),
        }
    }
}

/// Every exit code lies between 1 and 10, and the two locator errors share
/// one code.
pub proof fn exit_codes_in_range(e: ErrorView)
    ensures
        1 <= exit_code_of(e) <= 10,
        exit_code_of(e) == 7 <==> (e is InvalidLocator || e is LocatorTooComplex),
{
}

} // verus!
