use atspicli::domain::execution_context::ExecutionContext;
use atspicli::domain::model::AppDescriptor;

fn sample_apps() -> Vec<AppDescriptor> {
    vec![
        AppDescriptor::new("terminal", 100),
        AppDescriptor::new("editor", 200),
        AppDescriptor::new("terminal", 300),
    ]
}

#[test]
fn test_resolve_app_with_pid() {
    let ctx = ExecutionContext::new(None, Some(200));
    let resolved = ctx.resolve_app(&sample_apps()).expect("resolve by pid");
    assert_eq!(resolved.expect("app").name, "editor");
}

#[test]
fn test_resolve_app_with_name_and_pid() {
    let ctx = ExecutionContext::new(Some("terminal".to_string()), Some(300));
    let resolved = ctx.resolve_app(&sample_apps()).expect("resolve by pair");
    assert_eq!(resolved.expect("app").pid, 300);
}

#[test]
fn test_resolve_app_with_ambiguous_name_fails() {
    let ctx = ExecutionContext::new(Some("terminal".to_string()), None);
    let err = ctx.resolve_app(&sample_apps()).expect_err("should fail");
    assert!(err
        .to_string()
        .contains("Multiple applications matched --app 'terminal'"));
}

#[test]
fn test_resolve_app_without_selector_single_app() {
    let apps = vec![AppDescriptor::new("browser", 777)];
    let ctx = ExecutionContext::new(None, None);
    let resolved = ctx.resolve_app(&apps).expect("single app resolve");
    assert_eq!(resolved.expect("app").name, "browser");
}
