use atspicli::adapters::atspi::segments::{parse_locator_segments, LocatorSegment};
use atspicli::adapters::atspi::tree::{format_role, TreeNode};
use atspicli::adapters::atspi::{AtspiQuery, AtspiSession};
use atspicli::domain::model::AppDescriptor;

#[test]
fn test_locator_looks_sensitive_detects_common_markers() {
    assert!(AtspiQuery::locator_looks_sensitive("input[name=password]"));
    assert!(AtspiQuery::locator_looks_sensitive("field[type=api_key]"));
    assert!(AtspiQuery::locator_looks_sensitive("text:token"));
    assert!(!AtspiQuery::locator_looks_sensitive("button[text=save]"));
}

#[test]
fn test_has_sensitive_nodes_fails_closed_until_real_scan_available() {
    let query = AtspiQuery;
    let app = AppDescriptor::new("demo", 1);
    let has_sensitive = query
        .has_sensitive_nodes(&app)
        .expect("query should return result");
    assert!(has_sensitive);
}

#[test]
fn test_atspi_session_reconnect_increments_counter() {
    let mut session = AtspiSession::disconnected_for_test();
    session.simulate_reconnect_result(true);
    session.simulate_reconnect_result(false);
    assert_eq!(session.reconnect_count(), 2);
}

#[test]
fn test_atspi_session_reconnect_updates_connection_state() {
    let mut session = AtspiSession::disconnected_for_test();
    session.simulate_reconnect_result(true);
    assert!(session.is_connected());
    session.simulate_reconnect_result(false);
    assert!(!session.is_connected());
}

#[test]
fn test_parse_locator_simple_role() {
    let segments = parse_locator_segments("button");
    assert_eq!(segments.len(), 1);
    assert_eq!(segments[0].role.as_deref(), Some("button"));
}

#[test]
fn test_parse_locator_with_text() {
    let segments = parse_locator_segments("button[text=Save]");
    assert_eq!(segments.len(), 1);
    assert_eq!(segments[0].role.as_deref(), Some("button"));
    assert_eq!(segments[0].text_exact.as_deref(), Some("Save"));
}

#[test]
fn test_parse_locator_descendant_chain() {
    let segments = parse_locator_segments("window >> button[text=Ok]");
    assert_eq!(segments.len(), 2);
    assert_eq!(segments[0].role.as_deref(), Some("window"));
    assert_eq!(segments[1].role.as_deref(), Some("button"));
    assert_eq!(segments[1].text_exact.as_deref(), Some("Ok"));
    assert!(segments[1].is_descendant);
}

#[test]
fn test_parse_locator_child_chain() {
    let segments = parse_locator_segments("window > toolbar > button");
    assert_eq!(segments.len(), 3);
    assert!(!segments[1].is_descendant);
    assert!(!segments[2].is_descendant);
}

#[test]
fn test_parse_locator_text_contains() {
    let segments = parse_locator_segments("item[text~=Task]");
    assert_eq!(segments.len(), 1);
    assert_eq!(segments[0].text_contains.as_deref(), Some("Task"));
}

#[test]
fn test_format_role() {
    assert_eq!(format_role(atspi::Role::Button as u32).as_deref(), Some("button"));
    assert_eq!(
        format_role(atspi::Role::PushButtonMenu as u32).as_deref(),
        Some("push button menu")
    );
    assert_eq!(format_role(atspi::Role::Frame as u32).as_deref(), Some("frame"));
    assert_eq!(
        format_role(atspi::Role::PasswordText as u32).as_deref(),
        Some("password text")
    );
}

#[test]
fn test_segment_matches_node() {
    let node = TreeNode {
        role: "push button".into(),
        name: "Save".into(),
        description: None,
        states: vec![],
        children: vec![],
        bus_name: String::new(),
        object_path: String::new(),
    };
    let seg = LocatorSegment {
        role: Some("pushbutton".into()),
        text_exact: Some("Save".into()),
        text_contains: None,
        is_descendant: true,
    };
    assert!(seg.matches_node(&node));

    let seg_exact = LocatorSegment {
        role: Some("push button".into()),
        text_exact: None,
        text_contains: None,
        is_descendant: true,
    };
    assert!(seg_exact.matches_node(&node));
}

#[test]
fn test_tree_node_is_sensitive() {
    let mut node = TreeNode {
        role: "text".into(),
        name: "regular".into(),
        description: None,
        states: vec![],
        children: vec![],
        bus_name: String::new(),
        object_path: String::new(),
    };
    assert!(!node.is_sensitive());

    node.role = "password text".into();
    assert!(node.is_sensitive());

    node.role = "text".into();
    node.states = vec!["sensitive".into()];
    assert!(node.is_sensitive());
}
