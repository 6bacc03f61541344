//! Command requests, their outputs, the backend interface and the executor
//! that checks a request and drives a backend to carry it out.

use vstd::prelude::*;

use crate::domain::execution_context::{resolution, ExecutionContext};
use crate::domain::locator::{default_limits, locator_error, validate_locator};
use crate::domain::model::{
    parse_direction, AppDescriptor, AppView, NodeDescriptor, NodeView, ScrollDirection,
};
use crate::error::{AtspiCliError, ErrorView};
use crate::text::{chars_of, decimal, decimal_string, trim, trimmed_chars};

verus! {

/// A command, as given on the command line.
#[derive(Debug, PartialEq, Eq)]
#[allow(inconsistent_fields)]
pub enum CommandRequest {
    Snapshot { locator: String, depth: i32 },
    Click { locator: String },
    Dblclick { locator: String },
    Input { locator: String, text: String },
    Fill { locator: String, text: String },
    Press { key: String },
    Hover { locator: String },
    Focus { locator: String },
    ScrollTo { locator: String },
    Scroll { direction: String, amount: u32 },
    Screenshot { locator: Option<String>, output: String },
    Wait { locator: String, timeout_secs: u32 },
    Get { locator: String, property: String },
    ListApps,
}

/// The value of a [`CommandRequest`].
#[allow(inconsistent_fields)]
pub enum RequestView {
    Snapshot { locator: Seq<char>, depth: i32 },
    Click { locator: Seq<char> },
    Dblclick { locator: Seq<char> },
    Input { locator: Seq<char>, text: Seq<char> },
    Fill { locator: Seq<char>, text: Seq<char> },
    Press { key: Seq<char> },
    Hover { locator: Seq<char> },
    Focus { locator: Seq<char> },
    ScrollTo { locator: Seq<char> },
    Scroll { direction: Seq<char>, amount: u32 },
    Screenshot { locator: Option<Seq<char>>, output: Seq<char> },
    Wait { locator: Seq<char>, timeout_secs: u32 },
    Get { locator: Seq<char>, property: Seq<char> },
    ListApps,
}

impl DeepView for CommandRequest {
    type V = RequestView;

    open spec fn deep_view(&self) -> RequestView {
        match self {
            CommandRequest::Snapshot { locator, depth } => RequestView::Snapshot {
                locator: locator@,
                depth: *depth,
            },
            CommandRequest::Click { locator } => RequestView::Click { locator: locator@ },
            CommandRequest::Dblclick { locator } => RequestView::Dblclick { locator: locator@ },
            CommandRequest::Input { locator, text } => RequestView::Input {
                locator: locator@,
                text: text@,
            },
            CommandRequest::Fill { locator, text } => RequestView::Fill {
                locator: locator@,
                text: text@,
            },
            CommandRequest::Press { key } => RequestView::Press { key: key@ },
            CommandRequest::Hover { locator } => RequestView::Hover { locator: locator@ },
            CommandRequest::Focus { locator } => RequestView::Focus { locator: locator@ },
            CommandRequest::ScrollTo { locator } => RequestView::ScrollTo { locator: locator@ },
            CommandRequest::Scroll { direction, amount } => RequestView::Scroll {
                direction: direction@,
                amount: *amount,
            },
            CommandRequest::Screenshot { locator, output } => RequestView::Screenshot {
                locator: match locator {
                    Some(l) => Some(l@),
                    None => None,
                },
                output: output@,
            },
            CommandRequest::Wait { locator, timeout_secs } => RequestView::Wait {
                locator: locator@,
                timeout_secs: *timeout_secs,
            },
            CommandRequest::Get { locator, property } => RequestView::Get {
                locator: locator@,
                property: property@,
            },
            CommandRequest::ListApps => RequestView::ListApps,
        }
    }
}

/// What a command produces.
#[derive(Debug, PartialEq, Eq)]
pub enum CommandOutput {
    Empty,
    Text(String),
    AppList(Vec<AppDescriptor>),
}

/// The value of a [`CommandOutput`].
pub enum OutputView {
    Empty,
    Text(Seq<char>),
    AppList(Seq<AppView>),
}

impl DeepView for CommandOutput {
    type V = OutputView;

    open spec fn deep_view(&self) -> OutputView {
        match self {
            CommandOutput::Empty => OutputView::Empty,
            CommandOutput::Text(t) => OutputView::Text(t@),
            CommandOutput::AppList(apps) => OutputView::AppList(apps.deep_view()),
        }
    }
}

/// One line of an application listing: `name (pid)`.
pub open spec fn app_line(a: AppView) -> Seq<char> {
    a.name + " ("@ + decimal(a.pid as nat) + ")"@
}

/// The lines of the applications, joined by new lines.
pub open spec fn app_lines(apps: Seq<AppView>) -> Seq<char>
    decreases apps.len(),
{
    if apps.len() == 0 {
        Seq::empty()
    } else if apps.len() == 1 {
        app_line(apps[0])
    } else {
        app_lines(apps.drop_last()) + "\n"@ + app_line(apps.last())
    }
}

/// What a command prints: nothing for an empty output, the text itself, or
/// one line per application.
pub open spec fn rendered(o: OutputView) -> Option<Seq<char>> {
    match o {
        OutputView::Empty => None,
        OutputView::Text(t) => Some(t),
        OutputView::AppList(apps) => Some(app_lines(apps)),
    }
}

impl CommandOutput {
    /// The text to print for this output, if any.
    pub fn render(&self) -> (r: Option<String>)
        ensures
            match rendered(self.deep_view()) {
                Some(t) => r matches Some(s) && s@ == t,
                None => r is None,
            },
    {
        match self {
            CommandOutput::Empty => None,
            CommandOutput::Text(value) => Some(value.clone()),
            CommandOutput::AppList(apps) => {
                let mut out = String::new();
                let mut i: usize = 0;
                while i < apps.len()
                    invariant
                        i <= apps@.len(),
                        out@ == app_lines(apps.deep_view().take(i as int)),
                    decreases apps@.len() - i,
                {
                    let ghost views = apps.deep_view();
                    proof {
                        assert(views.take(i + 1).drop_last() =~= views.take(i as int));
                        assert(views.take(i + 1).last() == views[i as int]);
                    }
                    if i > 0 {
                        out.append("\n");
                    } else {
                        assert(views.take(0) =~= Seq::<AppView>::empty());
                        assert(out@ =~= Seq::<char>::empty());
                    }
                    let app = &apps[i];
                    out.append(app.name.as_str());
                    out.append(" (");
                    let pid = decimal_string(app.pid as u128);
                    out.append(pid.as_str());
                    out.append(")");
                    proof {
                        if i == 0 {
                            assert(out@ =~= app_line(views[0]));
                        } else {
                            assert(out@ =~= app_lines(views.take(i as int)) + "\n"@ + app_line(
                                views[i as int],
                            ));
                        }
                    }
                    i = i + 1;
                }
                assert(apps.deep_view().take(apps@.len() as int) =~= apps.deep_view());
                Some(out)
            },
        }
    }
}

/// A call made to a backend, with its arguments and what it returned.
pub enum BackendCall {
    ListApps(Result<Seq<AppView>, ErrorView>),
    ReadNode(Seq<char>, Result<NodeView, ErrorView>),
    HasSensitiveNodes(AppView, Result<bool, ErrorView>),
    Snapshot(Seq<char>, i32, Result<Seq<char>, ErrorView>),
    GetProperty(Seq<char>, Seq<char>, Result<Seq<char>, ErrorView>),
    WaitFor(Seq<char>, u64, Result<(), ErrorView>),
    Click(Seq<char>, u8, Result<(), ErrorView>),
    Hover(Seq<char>, Result<(), ErrorView>),
    Focus(Seq<char>, Result<(), ErrorView>),
    InputText(Seq<char>, Seq<char>, bool, Result<(), ErrorView>),
    PressKey(Seq<char>, Result<(), ErrorView>),
    ScrollTo(Seq<char>, Result<(), ErrorView>),
    Scroll(ScrollDirection, u32, Result<(), ErrorView>),
    Screenshot(Option<Seq<char>>, Seq<char>, Result<(), ErrorView>),
}

pub open spec fn apps_result(r: Result<Vec<AppDescriptor>, AtspiCliError>) -> Result<
    Seq<AppView>,
    ErrorView,
> {
    match r {
        Ok(v) => Ok(v.deep_view()),
        Err(e) => Err(e.deep_view()),
    }
}

pub open spec fn node_result(r: Result<NodeDescriptor, AtspiCliError>) -> Result<
    NodeView,
    ErrorView,
> {
    match r {
        Ok(n) => Ok(n.deep_view()),
        Err(e) => Err(e.deep_view()),
    }
}

pub open spec fn flag_result(r: Result<bool, AtspiCliError>) -> Result<bool, ErrorView> {
    match r {
        Ok(b) => Ok(b),
        Err(e) => Err(e.deep_view()),
    }
}

pub open spec fn text_result(r: Result<String, AtspiCliError>) -> Result<Seq<char>, ErrorView> {
    match r {
        Ok(s) => Ok(s@),
        Err(e) => Err(e.deep_view()),
    }
}

pub open spec fn unit_result(r: Result<(), AtspiCliError>) -> Result<(), ErrorView> {
    match r {
        Ok(_) => Ok(()),
        Err(e) => Err(e.deep_view()),
    }
}

pub open spec fn output_result(r: Result<CommandOutput, AtspiCliError>) -> Result<
    OutputView,
    ErrorView,
> {
    match r {
        Ok(o) => Ok(o.deep_view()),
        Err(e) => Err(e.deep_view()),
    }
}

/// What a backend does for the executor. Each method states, through
/// [`call_post`](CommandBackend::call_post), what the call it made (with its
/// arguments and result) says of the backend's state before and after it.
pub trait CommandBackend: Sized {
    /// Whether the call `call`, made on this backend, fits its state and left
    /// `after` behind. The default promises nothing: a backend that keeps it
    /// (such as one whose answers come from outside the program) says
    /// nothing about its answers, and the executor's guarantees then speak
    /// only of the calls made and how their results were used.
    open spec fn call_post(&self, call: BackendCall, after: &Self) -> bool {
        true
    }

    fn list_apps(&mut self) -> (r: Result<Vec<AppDescriptor>, AtspiCliError>)
        ensures
            old(self).call_post(BackendCall::ListApps(apps_result(r)), &*final(self)),
    ;

    fn read_node(&mut self, locator: &str) -> (r: Result<NodeDescriptor, AtspiCliError>)
        ensures
            old(self).call_post(BackendCall::ReadNode(locator@, node_result(r)), &*final(self)),
    ;

    fn has_sensitive_nodes(&mut self, app: &AppDescriptor) -> (r: Result<bool, AtspiCliError>)
        ensures
            old(self).call_post(BackendCall::HasSensitiveNodes(app.deep_view(), flag_result(r)), &*final(self)),
    ;

    fn snapshot(&mut self, locator: &str, depth: i32) -> (r: Result<String, AtspiCliError>)
        ensures
            old(self).call_post(BackendCall::Snapshot(locator@, depth, text_result(r)), &*final(self)),
    ;

    fn get_property(&mut self, locator: &str, property: &str) -> (r: Result<
        String,
        AtspiCliError,
    >)
        ensures
            old(self).call_post(BackendCall::GetProperty(locator@, property@, text_result(r)), &*final(self)),
    ;

    fn wait_for(&mut self, locator: &str, timeout_ms: u64) -> (r: Result<(), AtspiCliError>)
        ensures
            old(self).call_post(BackendCall::WaitFor(locator@, timeout_ms, unit_result(r)), &*final(self)),
    ;

    fn click(&mut self, locator: &str, times: u8) -> (r: Result<(), AtspiCliError>)
        ensures
            old(self).call_post(BackendCall::Click(locator@, times, unit_result(r)), &*final(self)),
    ;

    fn hover(&mut self, locator: &str) -> (r: Result<(), AtspiCliError>)
        ensures
            old(self).call_post(BackendCall::Hover(locator@, unit_result(r)), &*final(self)),
    ;

    fn focus(&mut self, locator: &str) -> (r: Result<(), AtspiCliError>)
        ensures
            old(self).call_post(BackendCall::Focus(locator@, unit_result(r)), &*final(self)),
    ;

    fn input_text(&mut self, locator: &str, text: &str, clear_first: bool) -> (r: Result<
        (),
        AtspiCliError,
    >)
        ensures
            old(self).call_post(BackendCall::InputText(locator@, text@, clear_first, unit_result(r)), &*final(self)),
    ;

    fn press_key(&mut self, key: &str) -> (r: Result<(), AtspiCliError>)
        ensures
            old(self).call_post(BackendCall::PressKey(key@, unit_result(r)), &*final(self)),
    ;

    fn scroll_to(&mut self, locator: &str) -> (r: Result<(), AtspiCliError>)
        ensures
            old(self).call_post(BackendCall::ScrollTo(locator@, unit_result(r)), &*final(self)),
    ;

    fn scroll(&mut self, direction: ScrollDirection, amount: u32) -> (r: Result<
        (),
        AtspiCliError,
    >)
        ensures
            old(self).call_post(BackendCall::Scroll(direction, amount, unit_result(r)), &*final(self)),
    ;

    fn screenshot(&mut self, locator: Option<&str>, output: &str) -> (r: Result<
        (),
        AtspiCliError,
    >)
        ensures
            old(self).call_post(BackendCall::Screenshot(
                    match locator {
                        Some(l) => Some(l@),
                        None => None,
                    },
                    output@,
                    unit_result(r),
                ), &*final(self)),
    ;
}


/// The error for a node that may not be read or captured.
pub open spec fn sensitive_locator_message(locator: Seq<char>) -> Seq<char> {
    "Locator '"@ + locator + "' is sensitive and cannot be read or captured"@
}

/// The error for a full-window capture of an application with sensitive
/// nodes.
pub open spec fn sensitive_app_message(app: AppView) -> Seq<char> {
    "Application '"@ + app.name + "' has sensitive nodes and cannot be captured"@
}

/// Why a locator given to a command is refused, if it is.
pub open spec fn locator_refusal(locator: Seq<char>) -> Option<ErrorView> {
    locator_error(locator, default_limits())
}

/// The sensitive-node guard on `locator` ended the command with `r`, and `t`
/// holds exactly the calls it made: the locator was refused, reading the node
/// failed, or the node is sensitive.
pub open spec fn guard_rejects(
    locator: Seq<char>,
    t: Seq<BackendCall>,
    r: Result<OutputView, ErrorView>,
) -> bool {
    match locator_refusal(locator) {
        Some(e) => t.len() == 0 && r == Err::<OutputView, ErrorView>(e),
        None => t.len() == 1 && match t[0] {
            BackendCall::ReadNode(l, res) => l == locator && match res {
                Err(e) => r == Err::<OutputView, ErrorView>(e),
                Ok(n) => n.sensitive && r == Err::<OutputView, ErrorView>(
                    ErrorView::SensitiveNodePolicy(sensitive_locator_message(locator)),
                ),
            },
            _ => false,
        },
    }
}

/// The sensitive-node guard on `locator` let the command go on: the locator
/// is valid and the first call of `t` read a node that is not sensitive.
pub open spec fn guard_passes(locator: Seq<char>, t: Seq<BackendCall>) -> bool {
    &&& locator_refusal(locator) is None
    &&& t.len() >= 1
    &&& t[0] matches BackendCall::ReadNode(l, Ok(n))
    &&& l == locator
    &&& !n.sensitive
}

/// The output of a command whose last call returned `res` and which
/// produces nothing.
pub open spec fn empty_output(res: Result<(), ErrorView>) -> Result<OutputView, ErrorView> {
    match res {
        Ok(_) => Ok(OutputView::Empty),
        Err(e) => Err(e),
    }
}

/// The output of a command whose last call returned the text `res`.
pub open spec fn text_output(res: Result<Seq<char>, ErrorView>) -> Result<OutputView, ErrorView> {
    match res {
        Ok(t) => Ok(OutputView::Text(t)),
        Err(e) => Err(e),
    }
}

/// A command that acts on a valid locator through one call: `t` is that call
/// (`expected`, with its result `res`), or empty when the locator is refused.
pub open spec fn located_action(
    locator: Seq<char>,
    t: Seq<BackendCall>,
    r: Result<OutputView, ErrorView>,
    expected: spec_fn(Result<(), ErrorView>) -> BackendCall,
) -> bool {
    match locator_refusal(locator) {
        Some(e) => t.len() == 0 && r == Err::<OutputView, ErrorView>(e),
        None => t.len() == 1 && exists|res: Result<(), ErrorView>|
            t[0] == expected(res) && r == empty_output(res),
    }
}

/// How the executor carries out `request` for the resolved application
/// `app`: `t` is the sequence of backend calls made after the application
/// listing, and `r` is the outcome.
pub open spec fn request_follows(
    app: AppView,
    request: RequestView,
    t: Seq<BackendCall>,
    r: Result<OutputView, ErrorView>,
) -> bool {
    match request {
        RequestView::Snapshot { locator, depth } => guard_rejects(locator, t, r) || (guard_passes(
            locator,
            t,
        ) && t.len() == 2 && exists|res: Result<Seq<char>, ErrorView>|
            t[1] == BackendCall::Snapshot(locator, depth, res) && r == text_output(res)),
        RequestView::Get { locator, property } => guard_rejects(locator, t, r) || (guard_passes(
            locator,
            t,
        ) && t.len() == 2 && exists|res: Result<Seq<char>, ErrorView>|
            t[1] == BackendCall::GetProperty(locator, property, res) && r == text_output(res)),
        RequestView::Screenshot { locator: Some(locator), output } => guard_rejects(locator, t, r)
            || (guard_passes(locator, t) && t.len() == 2 && exists|res: Result<(), ErrorView>|
            t[1] == BackendCall::Screenshot(Some(locator), output, res) && r == empty_output(res)),
        RequestView::Screenshot { locator: None, output } => t.len() >= 1 && match t[0] {
            BackendCall::HasSensitiveNodes(a, Err(e)) => a == app && t.len() == 1 && r == Err::<
                OutputView,
                ErrorView,
            >(e),
            BackendCall::HasSensitiveNodes(a, Ok(true)) => a == app && t.len() == 1 && r == Err::<
                OutputView,
                ErrorView,
            >(ErrorView::SensitiveNodePolicy(sensitive_app_message(app))),
            BackendCall::HasSensitiveNodes(a, Ok(false)) => a == app && t.len() == 2 && exists|
                res: Result<(), ErrorView>,
            | t[1] == BackendCall::Screenshot(None, output, res) && r == empty_output(res),
            _ => false,
        },
        RequestView::Click { locator } => located_action(
            locator,
            t,
            r,
            |res: Result<(), ErrorView>| BackendCall::Click(locator, 1, res),
        ),
        RequestView::Dblclick { locator } => located_action(
            locator,
            t,
            r,
            |res: Result<(), ErrorView>| BackendCall::Click(locator, 2, res),
        ),
        RequestView::Hover { locator } => located_action(
            locator,
            t,
            r,
            |res: Result<(), ErrorView>| BackendCall::Hover(locator, res),
        ),
        RequestView::Focus { locator } => located_action(
            locator,
            t,
            r,
            |res: Result<(), ErrorView>| BackendCall::Focus(locator, res),
        ),
        RequestView::ScrollTo { locator } => located_action(
            locator,
            t,
            r,
            |res: Result<(), ErrorView>| BackendCall::ScrollTo(locator, res),
        ),
        RequestView::Fill { locator, text } => located_action(
            locator,
            t,
            r,
            |res: Result<(), ErrorView>| BackendCall::InputText(locator, text, true, res),
        ),
        RequestView::Wait { locator, timeout_secs } => located_action(
            locator,
            t,
            r,
            |res: Result<(), ErrorView>|
                BackendCall::WaitFor(locator, (timeout_secs as u64 * 1000) as u64, res),
        ),
        RequestView::Input { locator, text } => match locator_refusal(locator) {
            Some(e) => t.len() == 0 && r == Err::<OutputView, ErrorView>(e),
            None => t.len() == 2 && (t[0] matches BackendCall::Focus(l, _) && l == locator)
                && exists|res: Result<(), ErrorView>|
                t[1] == BackendCall::InputText(locator, text, false, res) && r == empty_output(
                    res,
                ),
        },
        RequestView::Press { key } => if trim(key).len() == 0 {
            t.len() == 0 && r == Err::<OutputView, ErrorView>(
                ErrorView::InvalidArgument("Key cannot be empty"@),
            )
        } else {
            t.len() == 1 && exists|res: Result<(), ErrorView>|
                t[0] == BackendCall::PressKey(key, res) && r == empty_output(res)
        },
        RequestView::Scroll { direction, amount } => match parse_direction(direction) {
            None => t.len() == 0 && r == Err::<OutputView, ErrorView>(
                ErrorView::InvalidArgument(
                    "Unsupported scroll direction '"@ + direction + "'"@,
                ),
            ),
            Some(d) => t.len() == 1 && exists|res: Result<(), ErrorView>|
                t[0] == BackendCall::Scroll(d, amount, res) && r == empty_output(res),
        },
        RequestView::ListApps => false,
    }
}

/// How the executor carries out `request` in the context selecting `name`
/// and `pid`: `t` is the whole sequence of backend calls it makes and `r` is
/// the outcome. Listing applications needs no target; every other command
/// first lists the applications and resolves its target among them.
pub open spec fn execution_follows(
    name: Option<Seq<char>>,
    pid: Option<u32>,
    request: RequestView,
    t: Seq<BackendCall>,
    r: Result<OutputView, ErrorView>,
) -> bool {
    t.len() >= 1 && match t[0] {
        BackendCall::ListApps(listed) => match listed {
            Err(e) => t.len() == 1 && r == Err::<OutputView, ErrorView>(e),
            Ok(apps) => if request is ListApps {
                t.len() == 1 && r == Ok::<OutputView, ErrorView>(OutputView::AppList(apps))
            } else {
                match resolution(name, pid, apps) {
                    Err(e) => t.len() == 1 && r == Err::<OutputView, ErrorView>(e),
                    Ok(app) => request_follows(app, request, t.skip(1), r),
                }
            },
        },
        _ => false,
    }
}


/// Calls that read or capture what a node shows.
pub open spec fn exposes_content(c: BackendCall) -> bool {
    c is Snapshot || c is GetProperty || c is Screenshot
}

/// A node read that found a sensitive node.
pub open spec fn reads_sensitive(c: BackendCall) -> bool {
    c matches BackendCall::ReadNode(_, Ok(n)) && n.sensitive
}

/// The locator whose node a snapshot, property read or node screenshot
/// exposes.
pub open spec fn exposed_locator(request: RequestView) -> Seq<char> {
    match request {
        RequestView::Snapshot { locator, .. } => locator,
        RequestView::Get { locator, .. } => locator,
        RequestView::Screenshot { locator: Some(locator), .. } => locator,
        _ => Seq::empty(),
    }
}

/// Sensitive nodes are blocked from read and screenshot commands. For a
/// snapshot, a property read or a screenshot of a node:
/// - success means the node was read first and was not sensitive;
/// - a node read as sensitive ends the command with a sensitive-node policy
///   error, and nothing is then read from or captured of it.
pub proof fn lemma_sensitive_nodes_blocked(
    name: Option<Seq<char>>,
    pid: Option<u32>,
    request: RequestView,
    t: Seq<BackendCall>,
    r: Result<OutputView, ErrorView>,
)
    requires
        execution_follows(name, pid, request, t, r),
        request is Snapshot || request is Get || (request matches RequestView::Screenshot {
            locator: Some(_),
            ..
        }),
    ensures
        r is Ok ==> t.len() == 3 && (t[1] matches BackendCall::ReadNode(l, Ok(n)) && l
            == exposed_locator(request) && !n.sensitive) && exposes_content(t[2]),
        (exists|k: int| 0 <= k < t.len() && reads_sensitive(#[trigger] t[k]))
            ==> (r matches Err(ErrorView::SensitiveNodePolicy(_)) && forall|k: int|
            0 <= k < t.len() ==> !exposes_content(#[trigger] t[k])),
{
    let rest = t.skip(1);
    if exists|k: int| 0 <= k < t.len() && reads_sensitive(#[trigger] t[k]) {
        let k = choose|k: int| 0 <= k < t.len() && reads_sensitive(#[trigger] t[k]);
        assert(k == 1);
        assert(rest[0] == t[1]);
        assert forall|j: int| 0 <= j < t.len() implies !exposes_content(#[trigger] t[j]) by {
            if j >= 1 {
                assert(t[j] == rest[j - 1]);
            }
        }
    }
    if r is Ok {
        assert(rest[0] == t[1]);
        assert(rest[1] == t[2]);
    }
}

/// A full-window screenshot is refused when the target application has
/// sensitive nodes: success means the backend reported none, and a report of
/// sensitive nodes ends the command with a sensitive-node policy error
/// before any capture.
pub proof fn lemma_full_screenshot_blocked(
    name: Option<Seq<char>>,
    pid: Option<u32>,
    output: Seq<char>,
    t: Seq<BackendCall>,
    r: Result<OutputView, ErrorView>,
)
    requires
        execution_follows(name, pid, RequestView::Screenshot { locator: None, output }, t, r),
    ensures
        r is Ok ==> t.len() == 3 && t[1] matches BackendCall::HasSensitiveNodes(_, Ok(false)),
        (t.len() >= 2 && t[1] matches BackendCall::HasSensitiveNodes(_, Ok(true))) ==> (r matches Err(
            ErrorView::SensitiveNodePolicy(_),
        ) && t.len() == 2),
{
    let rest = t.skip(1);
    if t.len() >= 2 {
        assert(rest[0] == t[1]);
    }
    if r is Ok {
        assert(rest[0] == t[1]);
    }
}

/// Runs requests against a backend, keeping a record of the calls it made.
pub struct CommandExecutor<B: CommandBackend> {
    pub backend: B,
    pub calls: Ghost<Seq<BackendCall>>,
}

/// `after` is `before` followed by `t`.
pub open spec fn appended(before: Seq<BackendCall>, after: Seq<BackendCall>, t: Seq<BackendCall>) -> bool {
    after == before + t
}

/// What was appended to a record of calls can be read back from its end.
pub proof fn lemma_appended(before: Seq<BackendCall>, after: Seq<BackendCall>, t: Seq<BackendCall>)
    requires
        after =~= before + t,
    ensures
        after.skip(before.len() as int) == t,
        appended(before, after, after.skip(before.len() as int)),
{
    assert(after.skip(before.len() as int) =~= t);
}

/// The backend went from `before` to `after` through the calls `t`: there
/// are states `states[0] == before`, ..., `states[t.len()] == after` such
/// that each call `t[k]` fits `states[k]` and left `states[k + 1]` behind, as
/// the backend's [`call_post`](CommandBackend::call_post) says.
pub open spec fn backend_steps<B: CommandBackend>(before: B, after: B, t: Seq<BackendCall>) -> bool {
    exists|states: Seq<B>| #[trigger] steps_through(states, t) && states[0] == before && states.last() == after
}

/// `states` are the backend's states around the calls `t`.
pub open spec fn steps_through<B: CommandBackend>(states: Seq<B>, t: Seq<BackendCall>) -> bool {
    &&& states.len() == t.len() + 1
    &&& forall|k: int| #![trigger t[k]] 0 <= k < t.len() ==> states[k].call_post(t[k], &states[k + 1])
}

/// No call leaves the backend as it was.
pub proof fn lemma_steps_none<B: CommandBackend>(b: B)
    ensures
        backend_steps(b, b, Seq::<BackendCall>::empty()),
{
    assert(steps_through(seq![b], Seq::<BackendCall>::empty()));
}

/// One more call extends the steps.
pub proof fn lemma_steps_push<B: CommandBackend>(
    b0: B,
    b1: B,
    b2: B,
    t: Seq<BackendCall>,
    c: BackendCall,
)
    requires
        backend_steps(b0, b1, t),
        b1.call_post(c, &b2),
    ensures
        backend_steps(b0, b2, t.push(c)),
{
    let states = choose|states: Seq<B>| #[trigger] steps_through(states, t) && states[0] == b0 && states.last() == b1;
    let more = states.push(b2);
    let u = t.push(c);
    assert forall|k: int| #![trigger u[k]] 0 <= k < u.len() implies more[k].call_post(u[k], &more[k + 1]) by {
        if k < t.len() {
            assert(u[k] == t[k]);
        }
    }
    assert(steps_through(more, u));
}

/// Steps through `t1` and then through `t2` are steps through `t1 + t2`.
pub proof fn lemma_steps_concat<B: CommandBackend>(
    b0: B,
    b1: B,
    b2: B,
    t1: Seq<BackendCall>,
    t2: Seq<BackendCall>,
)
    requires
        backend_steps(b0, b1, t1),
        backend_steps(b1, b2, t2),
    ensures
        backend_steps(b0, b2, t1 + t2),
{
    let s1 = choose|states: Seq<B>| #[trigger] steps_through(states, t1) && states[0] == b0 && states.last() == b1;
    let s2 = choose|states: Seq<B>| #[trigger] steps_through(states, t2) && states[0] == b1 && states.last() == b2;
    let s = s1 + s2.drop_first();
    let t = t1 + t2;
    assert forall|k: int| #![trigger t[k]] 0 <= k < t.len() implies s[k].call_post(t[k], &s[k + 1]) by {
        if k < t1.len() {
            assert(t[k] == t1[k]);
            assert(s[k] == s1[k]);
            if k + 1 < s1.len() {
                assert(s[k + 1] == s1[k + 1]);
            } else {
                assert(s[k + 1] == s2[1 + k + 1 - s1.len()]);
                assert(s1[k + 1] == b1);
            }
        } else {
            let j = k - t1.len();
            assert(t[k] == t2[j]);
            assert(s[k + 1] == s2[j + 1]);
            if j == 0 {
                assert(s[k] == s1.last());
            } else {
                assert(s[k] == s2[j]);
            }
        }
    }
    assert(steps_through(s, t));
}

/// A recorded call extends the steps that lead to the current state.
pub proof fn lemma_record_step<B: CommandBackend>(
    b0: B,
    b1: B,
    b2: B,
    n: int,
    log1: Seq<BackendCall>,
    log2: Seq<BackendCall>,
)
    requires
        0 <= n <= log1.len(),
        log2 == log1.push(log2.last()),
        backend_steps(b0, b1, log1.skip(n)),
        b1.call_post(log2.last(), &b2),
    ensures
        backend_steps(b0, b2, log2.skip(n)),
{
    lemma_steps_push(b0, b1, b2, log1.skip(n), log2.last());
    assert(log2.skip(n) =~= log1.skip(n).push(log2.last()));
}

impl<B: CommandBackend> CommandExecutor<B> {
    /// The calls made so far to the backend.
    pub open spec fn log(&self) -> Seq<BackendCall> {
        self.calls@
    }

    /// An executor driving `backend`, with no calls made yet.
    pub fn new(backend: B) -> (r: Self)
        ensures
            r.backend == backend,
            r.log() == Seq::<BackendCall>::empty(),
    {
        CommandExecutor { backend, calls: Ghost(Seq::empty()) }
    }

    /// Calls `list_apps` on the backend and records the call.
    fn call_list_apps(&mut self, Ghost(b0): Ghost<B>, Ghost(n): Ghost<int>) -> (r: Result<Vec<AppDescriptor>, AtspiCliError>)
        requires
            0 <= n <= old(self).log().len(),
            backend_steps(b0, old(self).backend, old(self).log().skip(n)),
        ensures
            backend_steps(b0, final(self).backend, final(self).log().skip(n)),
            final(self).log() == old(self).log().push(BackendCall::ListApps(apps_result(r))),
            old(self).backend.call_post(BackendCall::ListApps(apps_result(r)), &final(self).backend),
    {
        let r = self.backend.list_apps();
        self.calls = Ghost(self.calls@.push(BackendCall::ListApps(apps_result(r))));
        proof {
            lemma_record_step(b0, old(self).backend, self.backend, n, old(self).log(), self.log());
        }
        r
    }

    /// Calls `read_node` on the backend and records the call.
    fn call_read_node(&mut self, locator: &str, Ghost(b0): Ghost<B>, Ghost(n): Ghost<int>) -> (r: Result<NodeDescriptor, AtspiCliError>)
        requires
            0 <= n <= old(self).log().len(),
            backend_steps(b0, old(self).backend, old(self).log().skip(n)),
        ensures
            backend_steps(b0, final(self).backend, final(self).log().skip(n)),
            final(self).log() == old(self).log().push(BackendCall::ReadNode(locator@, node_result(r))),
            old(self).backend.call_post(BackendCall::ReadNode(locator@, node_result(r)), &final(self).backend),
    {
        let r = self.backend.read_node(locator);
        self.calls = Ghost(self.calls@.push(BackendCall::ReadNode(locator@, node_result(r))));
        proof {
            lemma_record_step(b0, old(self).backend, self.backend, n, old(self).log(), self.log());
        }
        r
    }

    /// Calls `has_sensitive_nodes` on the backend and records the call.
    fn call_has_sensitive_nodes(&mut self, app: &AppDescriptor, Ghost(b0): Ghost<B>, Ghost(n): Ghost<int>) -> (r: Result<bool, AtspiCliError>)
        requires
            0 <= n <= old(self).log().len(),
            backend_steps(b0, old(self).backend, old(self).log().skip(n)),
        ensures
            backend_steps(b0, final(self).backend, final(self).log().skip(n)),
            final(self).log() == old(self).log().push(BackendCall::HasSensitiveNodes(app.deep_view(), flag_result(r))),
            old(self).backend.call_post(BackendCall::HasSensitiveNodes(app.deep_view(), flag_result(r)), &final(self).backend),
    {
        let r = self.backend.has_sensitive_nodes(app);
        self.calls = Ghost(self.calls@.push(BackendCall::HasSensitiveNodes(app.deep_view(), flag_result(r))));
        proof {
            lemma_record_step(b0, old(self).backend, self.backend, n, old(self).log(), self.log());
        }
        r
    }

    /// Calls `snapshot` on the backend and records the call.
    fn call_snapshot(&mut self, locator: &str, depth: i32, Ghost(b0): Ghost<B>, Ghost(n): Ghost<int>) -> (r: Result<String, AtspiCliError>)
        requires
            0 <= n <= old(self).log().len(),
            backend_steps(b0, old(self).backend, old(self).log().skip(n)),
        ensures
            backend_steps(b0, final(self).backend, final(self).log().skip(n)),
            final(self).log() == old(self).log().push(BackendCall::Snapshot(locator@, depth, text_result(r))),
            old(self).backend.call_post(BackendCall::Snapshot(locator@, depth, text_result(r)), &final(self).backend),
    {
        let r = self.backend.snapshot(locator, depth);
        self.calls = Ghost(self.calls@.push(BackendCall::Snapshot(locator@, depth, text_result(r))));
        proof {
            lemma_record_step(b0, old(self).backend, self.backend, n, old(self).log(), self.log());
        }
        r
    }

    /// Calls `get_property` on the backend and records the call.
    fn call_get_property(&mut self, locator: &str, property: &str, Ghost(b0): Ghost<B>, Ghost(n): Ghost<int>) -> (r: Result<String, AtspiCliError>)
        requires
            0 <= n <= old(self).log().len(),
            backend_steps(b0, old(self).backend, old(self).log().skip(n)),
        ensures
            backend_steps(b0, final(self).backend, final(self).log().skip(n)),
            final(self).log() == old(self).log().push(BackendCall::GetProperty(locator@, property@, text_result(r))),
            old(self).backend.call_post(BackendCall::GetProperty(locator@, property@, text_result(r)), &final(self).backend),
    {
        let r = self.backend.get_property(locator, property);
        self.calls = Ghost(self.calls@.push(BackendCall::GetProperty(locator@, property@, text_result(r))));
        proof {
            lemma_record_step(b0, old(self).backend, self.backend, n, old(self).log(), self.log());
        }
        r
    }

    /// Calls `wait_for` on the backend and records the call.
    fn call_wait_for(&mut self, locator: &str, timeout_ms: u64, Ghost(b0): Ghost<B>, Ghost(n): Ghost<int>) -> (r: Result<(), AtspiCliError>)
        requires
            0 <= n <= old(self).log().len(),
            backend_steps(b0, old(self).backend, old(self).log().skip(n)),
        ensures
            backend_steps(b0, final(self).backend, final(self).log().skip(n)),
            final(self).log() == old(self).log().push(BackendCall::WaitFor(locator@, timeout_ms, unit_result(r))),
            old(self).backend.call_post(BackendCall::WaitFor(locator@, timeout_ms, unit_result(r)), &final(self).backend),
    {
        let r = self.backend.wait_for(locator, timeout_ms);
        self.calls = Ghost(self.calls@.push(BackendCall::WaitFor(locator@, timeout_ms, unit_result(r))));
        proof {
            lemma_record_step(b0, old(self).backend, self.backend, n, old(self).log(), self.log());
        }
        r
    }

    /// Calls `click` on the backend and records the call.
    fn call_click(&mut self, locator: &str, times: u8, Ghost(b0): Ghost<B>, Ghost(n): Ghost<int>) -> (r: Result<(), AtspiCliError>)
        requires
            0 <= n <= old(self).log().len(),
            backend_steps(b0, old(self).backend, old(self).log().skip(n)),
        ensures
            backend_steps(b0, final(self).backend, final(self).log().skip(n)),
            final(self).log() == old(self).log().push(BackendCall::Click(locator@, times, unit_result(r))),
            old(self).backend.call_post(BackendCall::Click(locator@, times, unit_result(r)), &final(self).backend),
    {
        let r = self.backend.click(locator, times);
        self.calls = Ghost(self.calls@.push(BackendCall::Click(locator@, times, unit_result(r))));
        proof {
            lemma_record_step(b0, old(self).backend, self.backend, n, old(self).log(), self.log());
        }
        r
    }

    /// Calls `hover` on the backend and records the call.
    fn call_hover(&mut self, locator: &str, Ghost(b0): Ghost<B>, Ghost(n): Ghost<int>) -> (r: Result<(), AtspiCliError>)
        requires
            0 <= n <= old(self).log().len(),
            backend_steps(b0, old(self).backend, old(self).log().skip(n)),
        ensures
            backend_steps(b0, final(self).backend, final(self).log().skip(n)),
            final(self).log() == old(self).log().push(BackendCall::Hover(locator@, unit_result(r))),
            old(self).backend.call_post(BackendCall::Hover(locator@, unit_result(r)), &final(self).backend),
    {
        let r = self.backend.hover(locator);
        self.calls = Ghost(self.calls@.push(BackendCall::Hover(locator@, unit_result(r))));
        proof {
            lemma_record_step(b0, old(self).backend, self.backend, n, old(self).log(), self.log());
        }
        r
    }

    /// Calls `focus` on the backend and records the call.
    fn call_focus(&mut self, locator: &str, Ghost(b0): Ghost<B>, Ghost(n): Ghost<int>) -> (r: Result<(), AtspiCliError>)
        requires
            0 <= n <= old(self).log().len(),
            backend_steps(b0, old(self).backend, old(self).log().skip(n)),
        ensures
            backend_steps(b0, final(self).backend, final(self).log().skip(n)),
            final(self).log() == old(self).log().push(BackendCall::Focus(locator@, unit_result(r))),
            old(self).backend.call_post(BackendCall::Focus(locator@, unit_result(r)), &final(self).backend),
    {
        let r = self.backend.focus(locator);
        self.calls = Ghost(self.calls@.push(BackendCall::Focus(locator@, unit_result(r))));
        proof {
            lemma_record_step(b0, old(self).backend, self.backend, n, old(self).log(), self.log());
        }
        r
    }

    /// Calls `input_text` on the backend and records the call.
    fn call_input_text(&mut self, locator: &str, text: &str, clear_first: bool, Ghost(b0): Ghost<B>, Ghost(n): Ghost<int>) -> (r: Result<(), AtspiCliError>)
        requires
            0 <= n <= old(self).log().len(),
            backend_steps(b0, old(self).backend, old(self).log().skip(n)),
        ensures
            backend_steps(b0, final(self).backend, final(self).log().skip(n)),
            final(self).log() == old(self).log().push(BackendCall::InputText(locator@, text@, clear_first, unit_result(r))),
            old(self).backend.call_post(BackendCall::InputText(locator@, text@, clear_first, unit_result(r)), &final(self).backend),
    {
        let r = self.backend.input_text(locator, text, clear_first);
        self.calls = Ghost(self.calls@.push(BackendCall::InputText(locator@, text@, clear_first, unit_result(r))));
        proof {
            lemma_record_step(b0, old(self).backend, self.backend, n, old(self).log(), self.log());
        }
        r
    }

    /// Calls `press_key` on the backend and records the call.
    fn call_press_key(&mut self, key: &str, Ghost(b0): Ghost<B>, Ghost(n): Ghost<int>) -> (r: Result<(), AtspiCliError>)
        requires
            0 <= n <= old(self).log().len(),
            backend_steps(b0, old(self).backend, old(self).log().skip(n)),
        ensures
            backend_steps(b0, final(self).backend, final(self).log().skip(n)),
            final(self).log() == old(self).log().push(BackendCall::PressKey(key@, unit_result(r))),
            old(self).backend.call_post(BackendCall::PressKey(key@, unit_result(r)), &final(self).backend),
    {
        let r = self.backend.press_key(key);
        self.calls = Ghost(self.calls@.push(BackendCall::PressKey(key@, unit_result(r))));
        proof {
            lemma_record_step(b0, old(self).backend, self.backend, n, old(self).log(), self.log());
        }
        r
    }

    /// Calls `scroll_to` on the backend and records the call.
    fn call_scroll_to(&mut self, locator: &str, Ghost(b0): Ghost<B>, Ghost(n): Ghost<int>) -> (r: Result<(), AtspiCliError>)
        requires
            0 <= n <= old(self).log().len(),
            backend_steps(b0, old(self).backend, old(self).log().skip(n)),
        ensures
            backend_steps(b0, final(self).backend, final(self).log().skip(n)),
            final(self).log() == old(self).log().push(BackendCall::ScrollTo(locator@, unit_result(r))),
            old(self).backend.call_post(BackendCall::ScrollTo(locator@, unit_result(r)), &final(self).backend),
    {
        let r = self.backend.scroll_to(locator);
        self.calls = Ghost(self.calls@.push(BackendCall::ScrollTo(locator@, unit_result(r))));
        proof {
            lemma_record_step(b0, old(self).backend, self.backend, n, old(self).log(), self.log());
        }
        r
    }

    /// Calls `scroll` on the backend and records the call.
    fn call_scroll(&mut self, direction: ScrollDirection, amount: u32, Ghost(b0): Ghost<B>, Ghost(n): Ghost<int>) -> (r: Result<(), AtspiCliError>)
        requires
            0 <= n <= old(self).log().len(),
            backend_steps(b0, old(self).backend, old(self).log().skip(n)),
        ensures
            backend_steps(b0, final(self).backend, final(self).log().skip(n)),
            final(self).log() == old(self).log().push(BackendCall::Scroll(direction, amount, unit_result(r))),
            old(self).backend.call_post(BackendCall::Scroll(direction, amount, unit_result(r)), &final(self).backend),
    {
        let r = self.backend.scroll(direction, amount);
        self.calls = Ghost(self.calls@.push(BackendCall::Scroll(direction, amount, unit_result(r))));
        proof {
            lemma_record_step(b0, old(self).backend, self.backend, n, old(self).log(), self.log());
        }
        r
    }

    /// Calls `screenshot` on the backend and records the call.
    fn call_screenshot(&mut self, locator: Option<&str>, output: &str, Ghost(b0): Ghost<B>, Ghost(n): Ghost<int>) -> (r: Result<(), AtspiCliError>)
        requires
            0 <= n <= old(self).log().len(),
            backend_steps(b0, old(self).backend, old(self).log().skip(n)),
        ensures
            backend_steps(b0, final(self).backend, final(self).log().skip(n)),
            final(self).log() == old(self).log().push(BackendCall::Screenshot(match locator {
                Some(l) => Some(l@),
                None => None,
            }, output@, unit_result(r))),
            old(self).backend.call_post(BackendCall::Screenshot(match locator {
                Some(l) => Some(l@),
                None => None,
            }, output@, unit_result(r)), &final(self).backend),
    {
        let r = self.backend.screenshot(locator, output);
        self.calls = Ghost(self.calls@.push(BackendCall::Screenshot(match locator {
                Some(l) => Some(l@),
                None => None,
            }, output@, unit_result(r))));
        proof {
            lemma_record_step(b0, old(self).backend, self.backend, n, old(self).log(), self.log());
        }
        r
    }

    fn validate_and_check_sensitive(
        &mut self,
        locator: &String,
        Ghost(b0): Ghost<B>,
        Ghost(n): Ghost<int>,
    ) -> (r: Result<(), AtspiCliError>)
        requires
            0 <= n <= old(self).log().len(),
            backend_steps(b0, old(self).backend, old(self).log().skip(n)),
        ensures
            backend_steps(b0, final(self).backend, final(self).log().skip(n)),
            ({
                let t = final(self).log().skip(old(self).log().len() as int);
                &&& appended(old(self).log(), final(self).log(), t)
                &&& r is Ok ==> guard_passes(locator@, t) && t.len() == 1
                &&& r matches Err(e) ==> guard_rejects(
                    locator@,
                    t,
                    Err::<OutputView, ErrorView>(e.deep_view()),
                )
            }),
    {
        let ghost before = self.log();
        if let Err(e) = validate_locator(locator.as_str()) {
            assert(self.log().skip(before.len() as int) =~= Seq::<BackendCall>::empty());
            assert(self.log() =~= before + Seq::<BackendCall>::empty());
            return Err(e);
        }
        let read = self.call_read_node(locator.as_str(), Ghost(b0), Ghost(n));
        assert(self.log().skip(before.len() as int) =~= seq![BackendCall::ReadNode(locator@, node_result(read))]);
        assert(self.log() =~= before + self.log().skip(before.len() as int));
        match read {
            Err(e) => Err(e),
            Ok(node) => {
                if node.sensitive {
                    let mut m = String::from_str("Locator '");
                    m.append(locator.as_str());
                    m.append("' is sensitive and cannot be read or captured");
                    Err(AtspiCliError::SensitiveNodePolicy(m))
                } else {
                    Ok(())
                }
            },
        }
    }

    fn unit_output(res: Result<(), AtspiCliError>) -> (r: Result<CommandOutput, AtspiCliError>)
        ensures
            output_result(r) == empty_output(unit_result(res)),
    {
        match res {
            Ok(()) => Ok(CommandOutput::Empty),
            Err(e) => Err(e),
        }
    }

    fn text_output_of(res: Result<String, AtspiCliError>) -> (r: Result<CommandOutput, AtspiCliError>)
        ensures
            output_result(r) == text_output(text_result(res)),
    {
        match res {
            Ok(t) => Ok(CommandOutput::Text(t)),
            Err(e) => Err(e),
        }
    }

    /// Snapshot, property read and screenshot of a node: each is refused for
    /// sensitive nodes.
    fn run_guarded(
        &mut self,
        app: &AppDescriptor,
        request: &CommandRequest,
        Ghost(b0): Ghost<B>,
        Ghost(n): Ghost<int>,
    ) -> (r: Result<CommandOutput, AtspiCliError>)
        requires
            0 <= n <= old(self).log().len(),
            backend_steps(b0, old(self).backend, old(self).log().skip(n)),
            request is Snapshot || request is Get || (request matches CommandRequest::Screenshot {
                locator: Some(_),
                ..
            }),
        ensures
            backend_steps(b0, final(self).backend, final(self).log().skip(n)),
            ({
                let t = final(self).log().skip(old(self).log().len() as int);
                &&& appended(old(self).log(), final(self).log(), t)
                &&& request_follows(app.deep_view(), request.deep_view(), t, output_result(r))
            }),
    {
        let ghost before = self.log();
        let locator = match request {
            CommandRequest::Snapshot { locator, .. } => locator,
            CommandRequest::Get { locator, .. } => locator,
            CommandRequest::Screenshot { locator: Some(locator), .. } => locator,
            _ => {
                proof {
                    assert(false);
                }
                return Err(AtspiCliError::Internal(String::new()));
            },
        };
        let guarded = self.validate_and_check_sensitive(locator, Ghost(b0), Ghost(n));
        let ghost mid = self.log();
        if let Err(e) = guarded {
            return Err(e);
        }
        let r = match request {
            CommandRequest::Snapshot { depth, .. } => {
                let res = self.call_snapshot(locator.as_str(), *depth, Ghost(b0), Ghost(n));
                Self::text_output_of(res)
            },
            CommandRequest::Get { property, .. } => {
                let res = self.call_get_property(locator.as_str(), property.as_str(), Ghost(b0), Ghost(n));
                Self::text_output_of(res)
            },
            CommandRequest::Screenshot { output, .. } => {
                let res = self.call_screenshot(Some(locator.as_str()), output.as_str(), Ghost(b0), Ghost(n));
                Self::unit_output(res)
            },
            _ => {
                proof {
                    assert(false);
                }
                return Err(AtspiCliError::Internal(String::new()));
            },
        };
        proof {
            let t = self.log().skip(before.len() as int);
            assert(self.log() =~= before + t);
            assert(t.take(1) =~= mid.skip(before.len() as int));
            assert(t[1] == self.log().last());
            assert(t.len() == 2);
        }
        r
    }

    /// Actions on a node found by a valid locator.
    fn run_located(
        &mut self,
        request: &CommandRequest,
        Ghost(b0): Ghost<B>,
        Ghost(n): Ghost<int>,
    ) -> (r: Result<CommandOutput, AtspiCliError>)
        requires
            0 <= n <= old(self).log().len(),
            backend_steps(b0, old(self).backend, old(self).log().skip(n)),
            request is Click || request is Dblclick || request is Hover || request is Focus
                || request is ScrollTo || request is Fill || request is Wait || request is Input,
        ensures
            backend_steps(b0, final(self).backend, final(self).log().skip(n)),
            ({
                let t = final(self).log().skip(old(self).log().len() as int);
                &&& appended(old(self).log(), final(self).log(), t)
                &&& forall|app: AppView|
                    request_follows(app, request.deep_view(), t, output_result(r))
            }),
    {
        let ghost before = self.log();
        let locator = match request {
            CommandRequest::Click { locator } => locator,
            CommandRequest::Dblclick { locator } => locator,
            CommandRequest::Hover { locator } => locator,
            CommandRequest::Focus { locator } => locator,
            CommandRequest::ScrollTo { locator } => locator,
            CommandRequest::Fill { locator, .. } => locator,
            CommandRequest::Wait { locator, .. } => locator,
            CommandRequest::Input { locator, .. } => locator,
            _ => {
                proof {
                    assert(false);
                }
                return Err(AtspiCliError::Internal(String::new()));
            },
        };
        if let Err(e) = validate_locator(locator.as_str()) {
            assert(self.log().skip(before.len() as int) =~= Seq::<BackendCall>::empty());
            assert(self.log() =~= before + Seq::<BackendCall>::empty());
            return Err(e);
        }
        let res = match request {
            CommandRequest::Click { .. } => self.call_click(locator.as_str(), 1, Ghost(b0), Ghost(n)),
            CommandRequest::Dblclick { .. } => self.call_click(locator.as_str(), 2, Ghost(b0), Ghost(n)),
            CommandRequest::Hover { .. } => self.call_hover(locator.as_str(), Ghost(b0), Ghost(n)),
            CommandRequest::Focus { .. } => self.call_focus(locator.as_str(), Ghost(b0), Ghost(n)),
            CommandRequest::ScrollTo { .. } => self.call_scroll_to(locator.as_str(), Ghost(b0), Ghost(n)),
            CommandRequest::Fill { text, .. } => self.call_input_text(
                locator.as_str(),
                text.as_str(),
                true, Ghost(b0), Ghost(n)),
            CommandRequest::Wait { timeout_secs, .. } => {
                let timeout_ms: u64 = (*timeout_secs as u64) * 1000;
                self.call_wait_for(locator.as_str(), timeout_ms, Ghost(b0), Ghost(n))
            },
            CommandRequest::Input { text, .. } => {
                let _focused = self.call_focus(locator.as_str(), Ghost(b0), Ghost(n));
                self.call_input_text(locator.as_str(), text.as_str(), false, Ghost(b0), Ghost(n))
            },
            _ => {
                proof {
                    assert(false);
                }
                return Err(AtspiCliError::Internal(String::new()));
            },
        };
        let r = Self::unit_output(res);
        proof {
            let t = self.log().skip(before.len() as int);
            assert(self.log() =~= before + t);
            let ures = unit_result(res);
            assert(t.last() == self.log().last());
            if request is Input {
                assert(t.len() == 2);
                assert(t[0] == self.log()[before.len() as int]);
            } else {
                assert(t.len() == 1);
                assert(t[0] == self.log().last());
            }
            match request.deep_view() {
                RequestView::Click { locator } => {
                    assert(t[0] == (|res: Result<(), ErrorView>| BackendCall::Click(locator, 1, res))(ures));
                },
                RequestView::Dblclick { locator } => {
                    assert(t[0] == (|res: Result<(), ErrorView>| BackendCall::Click(locator, 2, res))(ures));
                },
                RequestView::Hover { locator } => {
                    assert(t[0] == (|res: Result<(), ErrorView>| BackendCall::Hover(locator, res))(ures));
                },
                RequestView::Focus { locator } => {
                    assert(t[0] == (|res: Result<(), ErrorView>| BackendCall::Focus(locator, res))(ures));
                },
                RequestView::ScrollTo { locator } => {
                    assert(t[0] == (|res: Result<(), ErrorView>| BackendCall::ScrollTo(locator, res))(ures));
                },
                RequestView::Fill { locator, text } => {
                    assert(t[0] == (|res: Result<(), ErrorView>| BackendCall::InputText(locator, text, true, res))(ures));
                },
                RequestView::Wait { locator, timeout_secs } => {
                    assert(t[0] == (|res: Result<(), ErrorView>|
                        BackendCall::WaitFor(locator, (timeout_secs as u64 * 1000) as u64, res))(ures));
                },
                _ => {},
            }
        }
        r
    }

    /// Key presses, scrolling and full-window screenshots.
    fn run_unlocated(
        &mut self,
        app: &AppDescriptor,
        request: &CommandRequest,
        Ghost(b0): Ghost<B>,
        Ghost(n): Ghost<int>,
    ) -> (r: Result<CommandOutput, AtspiCliError>)
        requires
            0 <= n <= old(self).log().len(),
            backend_steps(b0, old(self).backend, old(self).log().skip(n)),
            request is Press || request is Scroll || (request matches CommandRequest::Screenshot {
                locator: None,
                ..
            }),
        ensures
            backend_steps(b0, final(self).backend, final(self).log().skip(n)),
            ({
                let t = final(self).log().skip(old(self).log().len() as int);
                &&& appended(old(self).log(), final(self).log(), t)
                &&& request_follows(app.deep_view(), request.deep_view(), t, output_result(r))
            }),
    {
        let ghost before = self.log();
        match request {
            CommandRequest::Press { key } => {
                let chars = chars_of(key.as_str());
                let trimmed = trimmed_chars(&chars);
                if trimmed.len() == 0 {
                    proof { lemma_appended(before, self.log(), Seq::<BackendCall>::empty()); }
                    return Err(
                        AtspiCliError::InvalidArgument(String::from_str("Key cannot be empty")),
                    );
                }
                let res = self.call_press_key(key.as_str(), Ghost(b0), Ghost(n));
                proof { lemma_appended(before, self.log(), seq![self.log().last()]); }
                Self::unit_output(res)
            },
            CommandRequest::Scroll { direction, amount } => {
                match ScrollDirection::parse(direction.as_str()) {
                    None => {
                        proof { lemma_appended(before, self.log(), Seq::<BackendCall>::empty()); }
                        let mut m = String::from_str("Unsupported scroll direction '");
                        m.append(direction.as_str());
                        m.append("'");
                        Err(AtspiCliError::InvalidArgument(m))
                    },
                    Some(d) => {
                        let res = self.call_scroll(d, *amount, Ghost(b0), Ghost(n));
                        proof { lemma_appended(before, self.log(), seq![self.log().last()]); }
                        Self::unit_output(res)
                    },
                }
            },
            CommandRequest::Screenshot { output, .. } => {
                let flagged = self.call_has_sensitive_nodes(app, Ghost(b0), Ghost(n));
                let ghost mid = self.log();
                match flagged {
                    Err(e) => {
                        proof { lemma_appended(before, self.log(), seq![self.log().last()]); }
                        Err(e)
                    },
                    Ok(true) => {
                        proof { lemma_appended(before, self.log(), seq![self.log().last()]); }
                        let mut m = String::from_str("Application '");
                        m.append(app.name.as_str());
                        m.append("' has sensitive nodes and cannot be captured");
                        Err(AtspiCliError::SensitiveNodePolicy(m))
                    },
                    Ok(false) => {
                        let res = self.call_screenshot(None, output.as_str(), Ghost(b0), Ghost(n));
                        proof { lemma_appended(before, self.log(), seq![mid.last(), self.log().last()]); }
                        Self::unit_output(res)
                    },
                }
            },
            _ => {
                proof {
                    assert(false);
                }
                Err(AtspiCliError::Internal(String::new()))
            },
        }
    }

    /// Carries out `request` in `context`. The backend receives exactly the
    /// calls that [`execution_follows`] describes, the outcome is the one it
    /// names for the results those calls returned, and the backend went
    /// through those calls as its [`call_post`](CommandBackend::call_post)
    /// says ([`backend_steps`]), so that the results and the final state
    /// follow from the backend's state before.
    pub fn execute(&mut self, context: &ExecutionContext, request: &CommandRequest) -> (r: Result<
        CommandOutput,
        AtspiCliError,
    >)
        ensures
            ({
                let t = final(self).log().skip(old(self).log().len() as int);
                &&& appended(old(self).log(), final(self).log(), t)
                &&& execution_follows(
                    context.name_view(),
                    context.target_pid,
                    request.deep_view(),
                    t,
                    output_result(r),
                )
                &&& backend_steps(old(self).backend, final(self).backend, t)
            }),
    {
        let ghost before = self.log();
        let ghost b0 = self.backend;
        let ghost n = self.log().len() as int;
        proof {
            lemma_steps_none(b0);
            assert(self.log().skip(n) =~= Seq::<BackendCall>::empty());
        }
        let listed = self.call_list_apps(Ghost(b0), Ghost(n));
        let ghost first = self.log();
        proof { lemma_appended(before, first, seq![first.last()]); }
        let apps = match listed {
            Ok(apps) => apps,
            Err(e) => {
                return Err(e);
            },
        };
        if let CommandRequest::ListApps = request {
            return Ok(CommandOutput::AppList(apps));
        }
        let slice = apps.as_slice();
        let resolved = context.resolve_app(slice);
        assert(slice@.map_values(|a: AppDescriptor| a.deep_view()) =~= apps.deep_view());
        let app = match resolved {
            Err(e) => {
                return Err(e);
            },
            Ok(Some(app)) => app,
            Ok(None) => {
                proof {
                    assert(false);
                }
                return Err(AtspiCliError::Internal(String::new()));
            },
        };
        let r = match request {
            CommandRequest::Snapshot { .. } | CommandRequest::Get { .. } | CommandRequest::Screenshot {
                locator: Some(_),
                ..
            } => self.run_guarded(&app, request, Ghost(b0), Ghost(n)),
            CommandRequest::Press { .. } | CommandRequest::Scroll { .. }
            | CommandRequest::Screenshot { locator: None, .. } => self.run_unlocated(&app, request, Ghost(b0), Ghost(n)),
            _ => self.run_located(request, Ghost(b0), Ghost(n)),
        };
        proof {
            let t = self.log().skip(before.len() as int);
            let rest = self.log().skip(first.len() as int);
            assert(self.log() =~= before + t);
            assert(t.skip(1) =~= rest);
            assert(t[0] == first.last());
        }
        r
    }
}

} // verus!
