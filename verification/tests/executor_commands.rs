use atspicli::adapters::mock::InMemoryBackend;
use atspicli::domain::command::{CommandBackend, CommandExecutor, CommandOutput, CommandRequest};
use atspicli::domain::execution_context::ExecutionContext;
use atspicli::domain::model::{AppDescriptor, NodeDescriptor};

fn build_backend() -> InMemoryBackend {
    let mut backend = InMemoryBackend::default();
    backend.add_app(AppDescriptor::new("demo-app", 1010));

    let mut root = NodeDescriptor::new("root");
    root.text = Some("Root".to_string());
    backend.add_node(root);

    let mut button = NodeDescriptor::new("button[text=Save]");
    button.text = Some("Save".to_string());
    backend.add_node(button);

    let mut input = NodeDescriptor::new("input[name=username]");
    input.text = Some("initial".to_string());
    backend.add_node(input);

    let mut secret = NodeDescriptor::new("input[name=password]");
    secret.text = Some("top-secret".to_string());
    secret.sensitive = true;
    backend.add_node(secret);

    backend.set_property("button[text=Save]", "role", "button");
    backend
}

fn demo_context() -> ExecutionContext {
    ExecutionContext::new(Some("demo-app".to_string()), Some(1010))
}

#[test]
fn test_action_phase_a_click_success_and_failure() {
    let mut executor = CommandExecutor::new(build_backend());
    let context = demo_context();

    let ok = executor.execute(
        &context,
        &CommandRequest::Click {
            locator: "button[text=Save]".to_string(),
        },
    );
    assert!(ok.is_ok());

    let fail = executor.execute(
        &context,
        &CommandRequest::Click {
            locator: "missing-button".to_string(),
        },
    );
    assert!(fail.is_err());
}

#[test]
fn test_action_phase_a_dblclick_success_and_failure() {
    let mut executor = CommandExecutor::new(build_backend());
    let context = demo_context();

    let ok = executor.execute(
        &context,
        &CommandRequest::Dblclick {
            locator: "button[text=Save]".to_string(),
        },
    );
    assert!(ok.is_ok());

    let fail = executor.execute(
        &context,
        &CommandRequest::Dblclick {
            locator: "missing-button".to_string(),
        },
    );
    assert!(fail.is_err());
}

#[test]
fn test_action_phase_a_hover_success_and_failure() {
    let mut executor = CommandExecutor::new(build_backend());
    let context = demo_context();

    let ok = executor.execute(
        &context,
        &CommandRequest::Hover {
            locator: "button[text=Save]".to_string(),
        },
    );
    assert!(ok.is_ok());

    let fail = executor.execute(
        &context,
        &CommandRequest::Hover {
            locator: "missing-button".to_string(),
        },
    );
    assert!(fail.is_err());
}

#[test]
fn test_action_phase_a_focus_success_and_failure() {
    let mut executor = CommandExecutor::new(build_backend());
    let context = demo_context();

    let ok = executor.execute(
        &context,
        &CommandRequest::Focus {
            locator: "button[text=Save]".to_string(),
        },
    );
    assert!(ok.is_ok());

    let fail = executor.execute(
        &context,
        &CommandRequest::Focus {
            locator: "missing-button".to_string(),
        },
    );
    assert!(fail.is_err());
}

#[test]
fn test_action_phase_a_press_success_and_failure() {
    let mut executor = CommandExecutor::new(build_backend());
    let context = demo_context();

    let ok = executor.execute(
        &context,
        &CommandRequest::Press {
            key: "Enter".to_string(),
        },
    );
    assert!(ok.is_ok());

    let fail = executor.execute(
        &context,
        &CommandRequest::Press {
            key: "   ".to_string(),
        },
    );
    assert!(fail.is_err());
}

#[test]
fn test_action_phase_b_input_focus_failure_fallback() {
    let mut backend = build_backend();
    backend.set_focus_failure("input[name=username]");

    let mut executor = CommandExecutor::new(backend);
    let context = demo_context();

    let result = executor.execute(
        &context,
        &CommandRequest::Input {
            locator: "input[name=username]".to_string(),
            text: "alice".to_string(),
        },
    );
    assert!(result.is_ok(), "input should fallback when focus fails");

    let text = executor
        .execute(
            &context,
            &CommandRequest::Get {
                locator: "input[name=username]".to_string(),
                property: "text".to_string(),
            },
        )
        .expect("get text");
    assert_eq!(text.render().expect("rendered"), "alice");
}

#[test]
fn test_action_phase_b_fill_clears_then_inputs() {
    let mut executor = CommandExecutor::new(build_backend());
    let context = demo_context();

    let result = executor.execute(
        &context,
        &CommandRequest::Fill {
            locator: "input[name=username]".to_string(),
            text: "bob".to_string(),
        },
    );
    assert!(result.is_ok(), "fill should succeed");

    let events = executor.backend.take_events();
    assert!(
        events
            .iter()
            .any(|event| event == "clear:input[name=username]"),
        "fill should clear before input"
    );
    assert!(
        events
            .iter()
            .any(|event| event == "input:input[name=username]:bob"),
        "fill should write new value after clear"
    );
}

#[test]
fn test_action_phase_c_scroll_to_success_and_failure() {
    let mut executor = CommandExecutor::new(build_backend());
    let context = demo_context();

    let ok = executor.execute(
        &context,
        &CommandRequest::ScrollTo {
            locator: "button[text=Save]".to_string(),
        },
    );
    assert!(ok.is_ok());

    let fail = executor.execute(
        &context,
        &CommandRequest::ScrollTo {
            locator: "missing".to_string(),
        },
    );
    assert!(fail.is_err());
}

#[test]
fn test_action_phase_c_scroll_direction_validation() {
    let mut executor = CommandExecutor::new(build_backend());
    let context = demo_context();

    let ok = executor.execute(
        &context,
        &CommandRequest::Scroll {
            direction: "down".to_string(),
            amount: 3,
        },
    );
    assert!(ok.is_ok());

    let err = executor
        .execute(
            &context,
            &CommandRequest::Scroll {
                direction: "diagonal".to_string(),
                amount: 3,
            },
        )
        .expect_err("invalid direction should fail");
    assert_eq!(err.exit_code(), 9);
}

#[test]
fn test_readonly_commands_snapshot_get_wait_and_list_apps() {
    let mut executor = CommandExecutor::new(build_backend());
    let context = demo_context();

    let snapshot = executor
        .execute(
            &context,
            &CommandRequest::Snapshot {
                locator: "button[text=Save]".to_string(),
                depth: 3,
            },
        )
        .expect("snapshot should succeed");
    match snapshot {
        CommandOutput::Text(value) => assert!(value.contains("button[text=Save]")),
        other => panic!("unexpected output: {other:?}"),
    }

    let get = executor
        .execute(
            &context,
            &CommandRequest::Get {
                locator: "button[text=Save]".to_string(),
                property: "role".to_string(),
            },
        )
        .expect("get should succeed");
    assert_eq!(get, CommandOutput::Text("button".to_string()));

    let wait = executor.execute(
        &context,
        &CommandRequest::Wait {
            locator: "root".to_string(),
            timeout_secs: 1,
        },
    );
    assert!(wait.is_ok());

    let apps = executor
        .execute(&context, &CommandRequest::ListApps)
        .expect("list-apps should succeed");
    match apps {
        CommandOutput::AppList(items) => assert_eq!(items.len(), 1),
        other => panic!("unexpected output: {other:?}"),
    }
}

#[test]
fn test_sensitive_node_policy_blocks_read_and_screenshot() {
    let mut executor = CommandExecutor::new(build_backend());
    let context = demo_context();

    let get_error = executor
        .execute(
            &context,
            &CommandRequest::Get {
                locator: "input[name=password]".to_string(),
                property: "text".to_string(),
            },
        )
        .expect_err("sensitive get should fail");
    assert_eq!(get_error.exit_code(), 8);

    let snapshot_error = executor
        .execute(
            &context,
            &CommandRequest::Snapshot {
                locator: "input[name=password]".to_string(),
                depth: 3,
            },
        )
        .expect_err("sensitive snapshot should fail");
    assert_eq!(snapshot_error.exit_code(), 8);

    let screenshot_error = executor
        .execute(
            &context,
            &CommandRequest::Screenshot {
                locator: Some("input[name=password]".to_string()),
                output: "/tmp/should-not-exist.png".to_string(),
            },
        )
        .expect_err("sensitive screenshot should fail");
    assert_eq!(screenshot_error.exit_code(), 8);

    let full_screenshot_error = executor
        .execute(
            &context,
            &CommandRequest::Screenshot {
                locator: None,
                output: "/tmp/should-not-exist-full.png".to_string(),
            },
        )
        .expect_err("full screenshot should fail when any node is sensitive");
    assert_eq!(full_screenshot_error.exit_code(), 8);
}

#[test]
fn test_wait_succeeds_for_existing_node() {
    let mut backend = build_backend();
    let result = backend.wait_for("root", 1000);
    assert!(result.is_ok());
}

#[test]
fn test_wait_times_out_for_missing_node() {
    let mut backend = build_backend();
    let result = backend.wait_for("nonexistent", 300);
    assert!(result.is_err());
    let err = result.unwrap_err().to_string();
    assert!(err.contains("Timeout"));
}

#[test]
fn test_wait_succeeds_for_delayed_node() {
    let mut backend = build_backend();
    let node = NodeDescriptor::new("delayed-button");
    backend.add_delayed_node(node, 200);
    let result = backend.wait_for("delayed-button", 2000);
    assert!(result.is_ok());
}

#[test]
fn test_wait_times_out_when_delay_exceeds_timeout() {
    let mut backend = build_backend();
    let node = NodeDescriptor::new("slow-element");
    backend.add_delayed_node(node, 5000);
    let result = backend.wait_for("slow-element", 300);
    assert!(result.is_err());
}

#[test]
fn test_screenshot_command_writes_output() {
    let mut executor = CommandExecutor::new(build_backend());
    let context = demo_context();
    executor
        .execute(
            &context,
            &CommandRequest::Screenshot {
                locator: Some("button[text=Save]".to_string()),
                output: "/tmp/screenshot-output.txt".to_string(),
            },
        )
        .expect("screenshot should succeed");
    let data = executor
        .backend
        .capture("/tmp/screenshot-output.txt")
        .expect("capture stored");
    assert!(data.contains("screenshot"));
    assert_eq!(executor.backend.capture("/tmp/other.txt"), None);
}
