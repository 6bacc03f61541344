use atspicli::error::AtspiCliError;

#[test]
fn test_exit_code_mapping_internal() {
    assert_eq!(AtspiCliError::Internal("x".into()).exit_code(), 1);
}

#[test]
fn test_exit_code_mapping_locator_and_security() {
    assert_eq!(AtspiCliError::InvalidLocator("x".into()).exit_code(), 7);
    assert_eq!(AtspiCliError::LocatorTooComplex("x".into()).exit_code(), 7);
    assert_eq!(
        AtspiCliError::SensitiveNodePolicy("x".into()).exit_code(),
        8
    );
}

#[test]
fn test_exit_code_mapping_argument_and_timeout() {
    assert_eq!(AtspiCliError::InvalidArgument("x".into()).exit_code(), 9);
    assert_eq!(
        AtspiCliError::Timeout {
            locator: "x".into(),
            timeout_ms: 1
        }
        .exit_code(),
        10
    );
}
