//! The arguments of the command line and the request each subcommand makes.

use vstd::prelude::*;

use crate::domain::command::{CommandRequest, RequestView};
use crate::text::{concat3, decimal, decimal_string};

verus! {

/// The parsed command line: an optional application name and process id to
/// target, and the subcommand.
#[derive(Debug)]
pub struct Cli {
    pub app: Option<String>,
    pub pid: Option<u32>,
    pub command: Commands,
}

/// The subcommands.
#[derive(Debug)]
#[allow(inconsistent_fields)]
pub enum Commands {
    Snapshot { locator: String, depth: i32 },
    Click { locator: String },
    Dblclick { locator: String },
    Input { locator: String, text: String },
    Fill { locator: String, text: String },
    Press { key: String },
    Hover { locator: String },
    Focus { locator: String },
    ScrollTo { locator: String },
    Scroll { direction: String, amount: u32 },
    Screenshot { locator: Option<String>, output: Option<String> },
    Wait { locator: String, timeout: u32 },
    Get { locator: String, property: String },
    ListApps,
}

/// The file a screenshot taken at `secs` seconds after the Unix epoch is
/// written to when no output is given: `screenshot-<secs>.png`.
pub open spec fn default_screenshot_name(secs: u64) -> Seq<char> {
    "screenshot-"@ + decimal(secs as nat) + ".png"@
}

/// The request a subcommand makes when the clock reads `secs` seconds after
/// the Unix epoch: the same fields, with the screenshot's output defaulting
/// to [`default_screenshot_name`] and the wait's timeout read in seconds.
pub open spec fn request_for(c: Commands, secs: u64) -> RequestView {
    match c {
        Commands::Snapshot { locator, depth } => RequestView::Snapshot { locator: locator@, depth },
        Commands::Click { locator } => RequestView::Click { locator: locator@ },
        Commands::Dblclick { locator } => RequestView::Dblclick { locator: locator@ },
        Commands::Input { locator, text } => RequestView::Input {
            locator: locator@,
            text: text@,
        },
        Commands::Fill { locator, text } => RequestView::Fill { locator: locator@, text: text@ },
        Commands::Press { key } => RequestView::Press { key: key@ },
        Commands::Hover { locator } => RequestView::Hover { locator: locator@ },
        Commands::Focus { locator } => RequestView::Focus { locator: locator@ },
        Commands::ScrollTo { locator } => RequestView::ScrollTo { locator: locator@ },
        Commands::Scroll { direction, amount } => RequestView::Scroll {
            direction: direction@,
            amount,
        },
        Commands::Screenshot { locator, output } => RequestView::Screenshot {
            locator: match locator {
                Some(l) => Some(l@),
                None => None,
            },
            output: match output {
                Some(o) => o@,
                None => default_screenshot_name(secs),
            },
        },
        Commands::Wait { locator, timeout } => RequestView::Wait {
            locator: locator@,
            timeout_secs: timeout,
        },
        Commands::Get { locator, property } => RequestView::Get {
            locator: locator@,
            property: property@,
        },
        Commands::ListApps => RequestView::ListApps,
    }
}

/// What a subcommand asks for, read field by field: its kind, the locator it
/// targets, its text-like argument (typed text, key, direction or property
/// name) and its number (depth, amount or timeout).
pub open spec fn command_fields(c: Commands) -> (
    Seq<char>,
    Option<Seq<char>>,
    Option<Seq<char>>,
    Option<int>,
) {
    match c {
        Commands::Snapshot { locator, depth } => (
            "snapshot"@,
            Some(locator@),
            None,
            Some(depth as int),
        ),
        Commands::Click { locator } => ("click"@, Some(locator@), None, None),
        Commands::Dblclick { locator } => ("dblclick"@, Some(locator@), None, None),
        Commands::Input { locator, text } => ("input"@, Some(locator@), Some(text@), None),
        Commands::Fill { locator, text } => ("fill"@, Some(locator@), Some(text@), None),
        Commands::Press { key } => ("press"@, None, Some(key@), None),
        Commands::Hover { locator } => ("hover"@, Some(locator@), None, None),
        Commands::Focus { locator } => ("focus"@, Some(locator@), None, None),
        Commands::ScrollTo { locator } => ("scroll-to"@, Some(locator@), None, None),
        Commands::Scroll { direction, amount } => (
            "scroll"@,
            None,
            Some(direction@),
            Some(amount as int),
        ),
        Commands::Screenshot { locator, .. } => (
            "screenshot"@,
            match locator {
                Some(l) => Some(l@),
                None => None,
            },
            None,
            None,
        ),
        Commands::Wait { locator, timeout } => (
            "wait"@,
            Some(locator@),
            None,
            Some(timeout as int),
        ),
        Commands::Get { locator, property } => ("get"@, Some(locator@), Some(property@), None),
        Commands::ListApps => ("list-apps"@, None, None, None),
    }
}

/// What a request asks for, read field by field as [`command_fields`] reads
/// a subcommand.
pub open spec fn request_fields(r: RequestView) -> (
    Seq<char>,
    Option<Seq<char>>,
    Option<Seq<char>>,
    Option<int>,
) {
    match r {
        RequestView::Snapshot { locator, depth } => (
            "snapshot"@,
            Some(locator),
            None,
            Some(depth as int),
        ),
        RequestView::Click { locator } => ("click"@, Some(locator), None, None),
        RequestView::Dblclick { locator } => ("dblclick"@, Some(locator), None, None),
        RequestView::Input { locator, text } => ("input"@, Some(locator), Some(text), None),
        RequestView::Fill { locator, text } => ("fill"@, Some(locator), Some(text), None),
        RequestView::Press { key } => ("press"@, None, Some(key), None),
        RequestView::Hover { locator } => ("hover"@, Some(locator), None, None),
        RequestView::Focus { locator } => ("focus"@, Some(locator), None, None),
        RequestView::ScrollTo { locator } => ("scroll-to"@, Some(locator), None, None),
        RequestView::Scroll { direction, amount } => (
            "scroll"@,
            None,
            Some(direction),
            Some(amount as int),
        ),
        RequestView::Screenshot { locator, .. } => ("screenshot"@, locator, None, None),
        RequestView::Wait { locator, timeout_secs } => (
            "wait"@,
            Some(locator),
            None,
            Some(timeout_secs as int),
        ),
        RequestView::Get { locator, property } => ("get"@, Some(locator), Some(property), None),
        RequestView::ListApps => ("list-apps"@, None, None, None),
    }
}

/// Each subcommand makes a request of its own kind with its own fields, at
/// any reading of the clock: `input` stays an input (no clearing), `fill` a
/// fill, the locator, text, key, direction, property and numbers are passed
/// on unchanged, and a screenshot's output, when given, is kept.
pub proof fn lemma_request_keeps_subcommand(c: Commands, secs: u64)
    ensures
        request_fields(request_for(c, secs)) == command_fields(c),
        c matches Commands::Screenshot { output: Some(o), .. } ==> (request_for(c, secs)
            matches RequestView::Screenshot { output, .. } && output == o@),
        c matches Commands::Screenshot { output: None, .. } ==> (request_for(c, secs)
            matches RequestView::Screenshot { output, .. } && output == default_screenshot_name(
            secs,
        )),
{
}

/// The whole seconds elapsed since the Unix epoch; `None` when the clock
/// reads a time before it.
///
/// Trusted: calls std's `SystemTime::elapsed` on `UNIX_EPOCH` and keeps the
/// whole seconds of the duration. The result depends on the clock, so the
/// contract claims nothing of it.
#[verifier::external_body]
fn unix_time_secs() -> (secs: Option<u64>) {
    match std::time::UNIX_EPOCH.elapsed() {
        Ok(d) => Some(d.as_secs()),
        Err(_) => None,
    }
}

/// The default screenshot file for the clock reading `secs`.
pub fn default_screenshot_path(secs: u64) -> (p: String)
    ensures
        p@ == default_screenshot_name(secs),
{
    let digits = decimal_string(secs as u128);
    concat3("screenshot-", digits.as_str(), ".png")
}

impl Commands {
    /// The request this subcommand makes when the clock reads `secs`.
    pub fn into_request_at(self, secs: u64) -> (r: CommandRequest)
        ensures
            r.deep_view() == request_for(self, secs),
    {
        match self {
            Commands::Snapshot { locator, depth } => CommandRequest::Snapshot { locator, depth },
            Commands::Click { locator } => CommandRequest::Click { locator },
            Commands::Dblclick { locator } => CommandRequest::Dblclick { locator },
            Commands::Input { locator, text } => CommandRequest::Input { locator, text },
            Commands::Fill { locator, text } => CommandRequest::Fill { locator, text },
            Commands::Press { key } => CommandRequest::Press { key },
            Commands::Hover { locator } => CommandRequest::Hover { locator },
            Commands::Focus { locator } => CommandRequest::Focus { locator },
            Commands::ScrollTo { locator } => CommandRequest::ScrollTo { locator },
            Commands::Scroll { direction, amount } => CommandRequest::Scroll { direction, amount },
            Commands::Screenshot { locator, output } => {
                let resolved = match output {
                    Some(o) => o,
                    None => default_screenshot_path(secs),
                };
                CommandRequest::Screenshot { locator, output: resolved }
            },
            Commands::Wait { locator, timeout } => CommandRequest::Wait {
                locator,
                timeout_secs: timeout,
            },
            Commands::Get { locator, property } => CommandRequest::Get { locator, property },
            Commands::ListApps => CommandRequest::ListApps,
        }
    }

    /// The request this subcommand makes now: what [`request_for`] gives
    /// for the seconds the clock reads since the Unix epoch, or for 0 when
    /// it reads a time before it.
    pub fn into_request(self) -> (r: CommandRequest)
        ensures
            exists|secs: u64| r.deep_view() == request_for(self, secs),
    {
        let secs = match unix_time_secs() {
            Some(s) => s,
            None => 0,
        };
        self.into_request_at(secs)
    }
}

} // verus!
