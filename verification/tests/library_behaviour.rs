use atspicli::adapters::atspi::backend::{check_key, node_property, poll_step, wait_timeout, PollStep};
use atspicli::adapters::atspi::capture::{
    region_capture_args, screenshot_tools, signed_decimal_string, window_capture_args,
};
use atspicli::adapters::atspi::segments::{
    is_root_query, match_segments, parse_locator_segments, plan_node_query,
    try_parse_locator_segments, NodeQuery,
};
use atspicli::adapters::atspi::tree::{
    format_role, format_states, humanize_role_name, should_descend, tree_has_any_sensitive,
    tree_to_json, TreeNode,
};
use atspicli::adapters::atspi::{AtspiQuery, AtspiSession};
use atspicli::adapters::mock::InMemoryBackend;
use atspicli::domain::command::{CommandBackend, CommandExecutor, CommandOutput, CommandRequest};
use atspicli::domain::execution_context::ExecutionContext;
use atspicli::domain::locator::{validate_locator, validate_locator_with_limits, LocatorLimits};
use atspicli::domain::model::{AppDescriptor, NodeDescriptor, ScrollDirection};
use atspicli::error::AtspiCliError;
use atspicli::ui_cli::parser::{default_screenshot_path, Commands};

fn leaf(role: &str, name: &str) -> TreeNode {
    TreeNode {
        role: role.to_string(),
        name: name.to_string(),
        description: None,
        states: vec![],
        children: vec![],
        bus_name: String::new(),
        object_path: String::new(),
    }
}

fn with_children(mut node: TreeNode, children: Vec<TreeNode>) -> TreeNode {
    node.children = children;
    node
}

fn sample_tree() -> TreeNode {
    let toolbar = with_children(
        leaf("tool bar", "main"),
        vec![leaf("push button", "Open"), leaf("push button", "Save")],
    );
    let window = with_children(leaf("frame", "Editor"), vec![toolbar, leaf("text", "notes")]);
    with_children(leaf("application", "editor"), vec![window])
}

#[test]
fn fake_apps_keep_well_formed_entries_in_order() {
    let apps = AtspiQuery::parse_fake_apps("gedit:42, firefox : 7,bad,x:y, :5,+9:+9")
        .expect("some entries are well formed");
    assert_eq!(
        apps,
        vec![
            AppDescriptor::new("gedit", 42),
            AppDescriptor::new("", 5),
            AppDescriptor::new("+9", 9)
        ]
    );
}

#[test]
fn fake_apps_reject_overflowing_and_empty_lists() {
    assert_eq!(AtspiQuery::parse_fake_apps(""), None);
    assert_eq!(AtspiQuery::parse_fake_apps("big:4294967296"), None);
    assert_eq!(
        AtspiQuery::parse_fake_apps("max:4294967295"),
        Some(vec![AppDescriptor::new("max", 4294967295)])
    );
    assert_eq!(AtspiQuery::parse_fake_apps("a:-1,b:"), None);
}

#[test]
fn query_read_node_outcomes() {
    let query = AtspiQuery;
    let empty = query.read_node("  ").expect_err("blank locator");
    assert_eq!(empty.exit_code(), 7);
    assert_eq!(empty.to_string(), "Invalid locator: Locator cannot be empty");

    let missing = query.read_node("missing-node").expect_err("missing");
    assert_eq!(missing.exit_code(), 5);

    let secret = query.read_node("input[name=PASSWORD]").expect("found");
    assert!(secret.sensitive);
    assert_eq!(secret.text.as_deref(), Some("<hidden>"));

    let text = query.read_node("label[text=Hello]").expect("found");
    assert!(!text.sensitive);
    assert_eq!(text.text.as_deref(), Some("mock-text"));

    let plain = query.read_node("button").expect("found");
    assert_eq!(plain.text, None);
    assert!(plain.visible);
}

#[test]
fn sensitive_markers_ignore_case() {
    assert!(AtspiQuery::locator_looks_sensitive("Enter PIN"));
    assert!(AtspiQuery::locator_looks_sensitive("OTP code"));
    assert!(!AtspiQuery::locator_looks_sensitive("Username"));
}

#[test]
fn session_starts_connected_and_counts_attempts() {
    let mut session = AtspiSession::new_connected();
    assert!(session.is_connected());
    assert_eq!(session.reconnect_count(), 0);
    session.record_reconnect(false);
    session.record_reconnect(false);
    session.record_reconnect(true);
    assert_eq!(session.reconnect_count(), 3);
    assert!(session.is_connected());
}

#[test]
fn role_names_are_humanized() {
    assert_eq!(humanize_role_name("PushButtonMenu"), "push button menu");
    assert_eq!(humanize_role_name(""), "");
    assert_eq!(humanize_role_name("Invalid"), "invalid");
    assert_eq!(format_role(0).as_deref(), Some("invalid"));
    assert_eq!(format_role(129).as_deref(), Some("push button menu"));
    assert_eq!(format_role(130), None);
}

#[test]
fn tree_descriptor_and_sensitivity() {
    let mut node = leaf("entry", "");
    node.states = vec!["showing".to_string()];
    let d = node.to_node_descriptor("entry");
    assert_eq!(d.locator, "entry");
    assert_eq!(d.text, None);
    assert!(d.visible);
    assert!(!d.sensitive);

    let named = leaf("label", "Api Key");
    let d = named.to_node_descriptor("label");
    assert_eq!(d.text.as_deref(), Some("Api Key"));
    assert!(!d.visible);
    assert!(!d.sensitive);

    let secret = leaf("password text", "pw");
    let deep = with_children(
        leaf("frame", "top"),
        vec![with_children(leaf("panel", "p"), vec![secret])],
    );
    assert!(tree_has_any_sensitive(&deep));
    assert!(!tree_has_any_sensitive(&leaf("frame", "top")));
    let mut flagged = leaf("entry", "plain");
    flagged.states = vec!["sensitive".to_string()];
    let nested = with_children(
        leaf("frame", "top"),
        vec![with_children(leaf("panel", "p"), vec![leaf("label", "a"), flagged])],
    );
    assert!(tree_has_any_sensitive(&nested));
}

#[test]
fn segments_skip_pseudo_selectors() {
    let segments = parse_locator_segments("list:has(item[text=Done]):visible >> button[name=Ok]");
    assert_eq!(segments.len(), 2);
    assert_eq!(segments[0].role.as_deref(), Some("list"));
    assert_eq!(segments[0].text_exact, None);
    assert_eq!(segments[1].role.as_deref(), Some("button"));
    assert_eq!(segments[1].text_exact.as_deref(), Some("Ok"));

    let segments = parse_locator_segments("  ");
    assert!(segments.is_empty());

    let segments = parse_locator_segments("a:focused > b");
    assert_eq!(segments.len(), 2);
    assert!(!segments[1].is_descendant);
}

#[test]
fn segments_that_never_end_are_refused() {
    assert!(try_parse_locator_segments("button[text=Save").is_none());
    assert!(try_parse_locator_segments("a [b").is_none());
    assert!(try_parse_locator_segments("a[b]").is_some());
}

#[test]
fn chains_select_nodes_in_the_tree() {
    let tree = sample_tree();
    let segments = parse_locator_segments("frame > toolbar > pushbutton[text=Save]");
    let found = match_segments(&tree, &segments, 0, false).expect("found");
    assert_eq!(found.name, "Save");

    let segments = parse_locator_segments("pushbutton[text~=pe]");
    let found = match_segments(&tree, &segments, 0, false).expect("found");
    assert_eq!(found.name, "Open");

    let segments = parse_locator_segments("frame > pushbutton");
    assert!(match_segments(&tree, &segments, 0, false).is_none());

    let segments = parse_locator_segments("root");
    assert!(is_root_query(&segments));
    let segments = parse_locator_segments("root[text=x]");
    assert!(!is_root_query(&segments));
}

#[test]
fn backend_properties_keys_and_polling() {
    let mut node = NodeDescriptor::new("entry");
    node.text = Some("hello".to_string());
    assert_eq!(node_property(&node, "locator").unwrap(), "entry");
    assert_eq!(node_property(&node, "text").unwrap(), "hello");
    assert_eq!(node_property(&node, "visible").unwrap(), "true");
    let err = node_property(&node, "color").unwrap_err();
    assert_eq!(err.to_string(), "Invalid argument: Unsupported property 'color'");

    assert!(check_key("Ctrl+C").is_ok());
    assert_eq!(check_key(" \t").unwrap_err().exit_code(), 9);

    assert_eq!(poll_step(true, 5000, 100), PollStep::Found);
    assert_eq!(poll_step(false, 100, 100), PollStep::TimedOut);
    assert_eq!(poll_step(false, 99, 100), PollStep::Retry);
    assert_eq!(
        wait_timeout("root", 300).to_string(),
        "Timeout waiting for locator 'root' in 300ms"
    );
}

#[test]
fn capture_arguments_per_tool() {
    assert_eq!(
        screenshot_tools(),
        vec!["grim", "import", "gnome-screenshot", "scrot"]
    );
    assert_eq!(signed_decimal_string(-42), "-42");
    assert_eq!(signed_decimal_string(i32::MIN), "-2147483648");
    assert_eq!(
        region_capture_args("grim", 1, -2, 30, 40, "o.png"),
        vec!["-g", "1,-2 30x40", "o.png"]
    );
    assert_eq!(
        region_capture_args("import", 1, 2, 30, 40, "o.png"),
        vec!["-window", "root", "-crop", "30x40+1+2", "o.png"]
    );
    assert_eq!(
        region_capture_args("scrot", 1, 2, 3, 4, "o.png"),
        vec!["-a", "1,2,3,4", "o.png"]
    );
    assert_eq!(
        region_capture_args("gnome-screenshot", 1, 2, 3, 4, "o.png"),
        vec!["-f", "o.png", "-a", "3x4+1+2"]
    );
    assert_eq!(window_capture_args("grim", "o.png"), vec!["o.png"]);
    assert_eq!(
        window_capture_args("import", "o.png"),
        vec!["-window", "root", "o.png"]
    );
    assert_eq!(
        window_capture_args("gnome-screenshot", "o.png"),
        vec!["-f", "o.png"]
    );
}

#[test]
fn subcommands_become_requests() {
    assert_eq!(default_screenshot_path(1700000000), "screenshot-1700000000.png");
    let shot = Commands::Screenshot {
        locator: None,
        output: None,
    }
    .into_request_at(12);
    assert_eq!(
        shot,
        CommandRequest::Screenshot {
            locator: None,
            output: "screenshot-12.png".to_string()
        }
    );
    let wait = Commands::Wait {
        locator: "root".to_string(),
        timeout: 30,
    }
    .into_request_at(0);
    assert_eq!(
        wait,
        CommandRequest::Wait {
            locator: "root".to_string(),
            timeout_secs: 30
        }
    );
    let named = Commands::Screenshot {
        locator: Some("button".to_string()),
        output: Some("x.png".to_string()),
    }
    .into_request();
    assert_eq!(
        named,
        CommandRequest::Screenshot {
            locator: Some("button".to_string()),
            output: "x.png".to_string()
        }
    );
}

#[test]
fn scroll_directions_parse_in_any_case() {
    assert_eq!(ScrollDirection::parse("UP"), Some(ScrollDirection::Up));
    assert_eq!(ScrollDirection::parse("Left"), Some(ScrollDirection::Left));
    assert_eq!(ScrollDirection::parse("diagonal"), None);
    assert_eq!(ScrollDirection::Right.name(), "Right");
}

#[test]
fn larger_limits_accept_what_smaller_accept() {
    let locator = "window > list:has(item[text=Open])";
    assert!(validate_locator(locator).is_ok());
    let bigger = LocatorLimits {
        max_length: 4096,
        max_segments: 64,
        max_predicates: 64,
        max_nesting: 16,
    };
    assert!(validate_locator_with_limits(locator, bigger).is_ok());
}

#[test]
fn invalid_locators_fail_under_any_limits() {
    let tiny = LocatorLimits {
        max_length: 1,
        max_segments: 0,
        max_predicates: 0,
        max_nesting: 0,
    };
    let huge = LocatorLimits {
        max_length: 4096,
        max_segments: 64,
        max_predicates: 64,
        max_nesting: 16,
    };
    let a = validate_locator("window >>> button").unwrap_err();
    assert_eq!(a.to_string(), "Invalid locator: Invalid combinator sequence '>>>'");
    assert!(validate_locator_with_limits("window >>> button", tiny).is_err());
    assert!(validate_locator_with_limits("window >>> button", huge).is_err());
}

#[test]
fn limit_errors_name_the_counts() {
    let limits = LocatorLimits {
        max_length: 8,
        ..LocatorLimits::default()
    };
    let err = validate_locator_with_limits("very-long-locator", limits).unwrap_err();
    assert_eq!(
        err.to_string(),
        "Locator too complex: Locator length 17 exceeds limit 8"
    );
}

#[test]
fn resolved_app_is_listed_and_matches() {
    let apps = vec![
        AppDescriptor::new("a", 1),
        AppDescriptor::new("b", 2),
        AppDescriptor::new("b", 3),
    ];
    let ctx = ExecutionContext::new(None, Some(3));
    let app = ctx.resolve_app(&apps).unwrap().unwrap();
    assert!(apps.contains(&app));
    assert_eq!(app.pid, 3);
    let err = ExecutionContext::new(None, None).resolve_app(&apps).unwrap_err();
    assert_eq!(
        err.to_string(),
        "Application resolution error: Multiple applications discovered; provide --app or --pid"
    );
    let none: Vec<AppDescriptor> = vec![];
    assert_eq!(ctx.resolve_app(&none).unwrap_err().exit_code(), 4);
    let err = ExecutionContext::new(Some("z".to_string()), Some(9))
        .resolve_app(&apps)
        .unwrap_err();
    assert_eq!(
        err.to_string(),
        "Application resolution error: No application matched --app 'z' and --pid '9'"
    );
}

#[test]
fn exit_codes_cover_every_error() {
    let errors = vec![
        AtspiCliError::Internal("x".into()),
        AtspiCliError::Atspi("x".into()),
        AtspiCliError::DBus("x".into()),
        AtspiCliError::AppResolution("x".into()),
        AtspiCliError::NodeNotFound("x".into()),
        AtspiCliError::Io("x".into()),
        AtspiCliError::InvalidLocator("x".into()),
        AtspiCliError::LocatorTooComplex("x".into()),
        AtspiCliError::SensitiveNodePolicy("x".into()),
        AtspiCliError::InvalidArgument("x".into()),
        AtspiCliError::Timeout {
            locator: "x".into(),
            timeout_ms: 5,
        },
    ];
    let codes: Vec<i32> = errors.iter().map(|e| e.exit_code()).collect();
    assert_eq!(codes, vec![1, 2, 3, 4, 5, 6, 7, 7, 8, 9, 10]);
    assert_eq!(errors[1].to_string(), "AT-SPI error: x");
    assert_eq!(errors[2].to_string(), "DBus error: x");
    assert_eq!(errors[5].to_string(), "IO error: x");
}

#[test]
fn written_text_reads_back() {
    let mut executor = CommandExecutor::new(InMemoryBackend::demo());
    let context = ExecutionContext::new(None, None);
    executor
        .execute(
            &context,
            &CommandRequest::Fill {
                locator: "root".to_string(),
                text: "hello".to_string(),
            },
        )
        .expect("fill");
    let out = executor
        .execute(
            &context,
            &CommandRequest::Get {
                locator: "root".to_string(),
                property: "text".to_string(),
            },
        )
        .expect("get");
    assert_eq!(out, CommandOutput::Text("hello".to_string()));
    assert_eq!(out.render().as_deref(), Some("hello"));
}

#[test]
fn list_apps_renders_names_and_pids() {
    let mut executor = CommandExecutor::new(InMemoryBackend::demo());
    let out = executor
        .execute(&ExecutionContext::default(), &CommandRequest::ListApps)
        .expect("list");
    assert_eq!(out.render().as_deref(), Some("demo-app (4242)"));
    assert_eq!(CommandOutput::Empty.render(), None);
}

#[test]
fn invalid_locator_is_refused_before_the_backend_acts() {
    let mut executor = CommandExecutor::new(InMemoryBackend::demo());
    let context = ExecutionContext::new(None, None);
    let err = executor
        .execute(
            &context,
            &CommandRequest::Click {
                locator: "> root".to_string(),
            },
        )
        .unwrap_err();
    assert_eq!(err.exit_code(), 7);
    assert!(executor.backend.take_events().is_empty());
}

#[test]
fn backend_wait_for_is_immediate_for_present_nodes() {
    let mut backend = InMemoryBackend::demo();
    assert!(backend.wait_for("root", 0).is_ok());
    let err = backend.wait_for("nothing", 0).unwrap_err();
    assert_eq!(err.exit_code(), 10);
}

#[test]
fn snapshots_are_json() {
    let mut node = leaf("push button", "Say \"hi\"\n\\");
    node.states = vec!["visible".to_string(), "focused".to_string()];
    assert_eq!(
        tree_to_json(&node),
        "{\"role\":\"push button\",\"name\":\"Say \\\"hi\\\"\\n\\\\\",\"states\":[\"visible\",\"focused\"]}"
    );
    let mut described = leaf("frame", "w");
    described.description = Some("tab\there\u{1}".to_string());
    let tree = with_children(described, vec![leaf("label", "a"), leaf("label", "b")]);
    assert_eq!(
        tree_to_json(&tree),
        "{\"role\":\"frame\",\"name\":\"w\",\"description\":\"tab\\there\\u0001\",\"states\":[],\"children\":[{\"role\":\"label\",\"name\":\"a\",\"states\":[]},{\"role\":\"label\",\"name\":\"b\",\"states\":[]}]}"
    );
    let copy = tree.clone();
    assert_eq!(tree_to_json(&copy), tree_to_json(&tree));
}

#[test]
fn states_are_named_in_flag_order() {
    let set = atspi::StateSet::new(atspi::State::Visible | atspi::State::Focused | atspi::State::HasTooltip);
    assert_eq!(format_states(set.bits()), vec!["focused", "hastooltip", "visible"]);
    let invalid = atspi::StateSet::new(atspi::State::Invalid);
    assert!(format_states(invalid.bits()).is_empty());
    assert_eq!(format_states(1u64 << 43), vec!["readonly"]);
    assert!(format_states(1u64 << 50).is_empty());
}

#[test]
fn walks_descend_within_their_depth() {
    assert!(should_descend(-1, 100));
    assert!(should_descend(3, 2));
    assert!(!should_descend(3, 3));
    assert!(!should_descend(0, 0));
}

#[test]
fn clicks_record_their_count_in_memory() {
    let mut executor = CommandExecutor::new(InMemoryBackend::demo());
    let context = ExecutionContext::new(None, None);
    executor
        .execute(
            &context,
            &CommandRequest::Click {
                locator: "button[text=Save]".to_string(),
            },
        )
        .expect("click");
    executor
        .execute(
            &context,
            &CommandRequest::Dblclick {
                locator: "button[text=Save]".to_string(),
            },
        )
        .expect("dblclick");
    let err = executor
        .execute(
            &context,
            &CommandRequest::Click {
                locator: "missing-button".to_string(),
            },
        )
        .unwrap_err();
    assert_eq!(err.exit_code(), 5);
    assert_eq!(
        executor.backend.take_events(),
        vec!["click:button[text=Save]:1", "click:button[text=Save]:2"]
    );
}

#[test]
fn lookups_are_planned_from_segments() {
    assert!(matches!(plan_node_query(parse_locator_segments("  ")), NodeQuery::Nothing));
    assert!(matches!(plan_node_query(parse_locator_segments("root")), NodeQuery::Root));
    match plan_node_query(parse_locator_segments("window >> button")) {
        NodeQuery::Search(segments) => {
            assert_eq!(segments.len(), 2);
            assert_eq!(segments[1].role.as_deref(), Some("button"));
        }
        _ => panic!("expected a search"),
    }
}

#[test]
fn fresh_backends_focus_and_read_back() {
    let mut backend = InMemoryBackend::default();
    backend.add_app(AppDescriptor::new("demo-app", 1010));
    backend.add_node(NodeDescriptor::new("field"));
    assert!(backend.focus("field").is_ok());
    assert!(backend.input_text("field", "typed", false).is_ok());
    assert_eq!(backend.get_property("field", "text").unwrap(), "typed");
    assert_eq!(backend.take_events(), vec!["focus:field", "input:field:typed"]);
}
