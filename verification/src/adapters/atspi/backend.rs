//! The decisions of the AT-SPI backend that need no bus: which property of a
//! node a `get` returns, which keys may be pressed, and when a wait stops.

use vstd::prelude::*;

use crate::adapters::mock::property_outcome;
use crate::domain::model::NodeDescriptor;
use crate::error::{AtspiCliError, ErrorView};
use crate::text::{chars_of, concat3, owned, str_eq, trim, trimmed_chars};

verus! {

/// Milliseconds between two looks for a node that is waited for.
pub const POLL_INTERVAL_MS: u64 = 200;

/// The value of property `property` of `node`: its locator, its text (empty
/// when it has none) or whether it is visible; any other property is refused.
pub fn node_property(node: &NodeDescriptor, property: &str) -> (r: Result<String, AtspiCliError>)
    ensures
        match r {
            Ok(v) => property_outcome(Some(node.deep_view()), None, node.locator@, property@)
                == Ok::<Seq<char>, ErrorView>(v@),
            Err(e) => property_outcome(Some(node.deep_view()), None, node.locator@, property@)
                == Err::<Seq<char>, ErrorView>(e.deep_view()),
        },
{
    if str_eq(property, "locator") {
        Ok(node.locator.clone())
    } else if str_eq(property, "text") {
        match &node.text {
            Some(t) => Ok(t.clone()),
            None => Ok(String::new()),
        }
    } else if str_eq(property, "visible") {
        if node.visible {
            Ok(owned("true"))
        } else {
            Ok(owned("false"))
        }
    } else {
        Err(AtspiCliError::InvalidArgument(concat3("Unsupported property '", property, "'")))
    }
}

/// Whether `key` may be pressed: any key but a blank one.
pub fn check_key(key: &str) -> (r: Result<(), AtspiCliError>)
    ensures
        r is Err <==> trim(key@).len() == 0,
        r matches Err(e) ==> e.deep_view() == ErrorView::InvalidArgument("Key cannot be empty"@),
{
    let t = trimmed_chars(&chars_of(key));
    if t.len() == 0 {
        Err(AtspiCliError::InvalidArgument(owned("Key cannot be empty")))
    } else {
        Ok(())
    }
}

/// What a wait does after one look for its node.
#[derive(Debug, PartialEq, Eq, Structural)]
pub enum PollStep {
    /// The node was found: the wait succeeds.
    Found,
    /// The time is up: the wait fails.
    TimedOut,
    /// Look again after [`POLL_INTERVAL_MS`].
    Retry,
}

/// The next step of a wait for a node with a timeout of `timeout_ms`, after a
/// look that found the node or not, `elapsed_ms` after the wait began.
pub fn poll_step(found: bool, elapsed_ms: u64, timeout_ms: u64) -> (s: PollStep)
    ensures
        s == (if found {
            PollStep::Found
        } else if elapsed_ms >= timeout_ms {
            PollStep::TimedOut
        } else {
            PollStep::Retry
        }),
{
    if found {
        PollStep::Found
    } else if elapsed_ms >= timeout_ms {
        PollStep::TimedOut
    } else {
        PollStep::Retry
    }
}

/// The error of a wait for `locator` that timed out after `timeout_ms`.
pub fn wait_timeout(locator: &str, timeout_ms: u64) -> (e: AtspiCliError)
    ensures
        e.deep_view() == (ErrorView::Timeout { locator: locator@, timeout_ms }),
{
    AtspiCliError::Timeout { locator: owned(locator), timeout_ms }
}

} // verus!
