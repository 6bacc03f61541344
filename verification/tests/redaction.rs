use atspicli::domain::redaction::redact_sensitive;

#[test]
fn test_redact_sensitive_masks_known_keys() {
    let input = "user=alice password=hunter2 token=abc123";
    let output = redact_sensitive(input);
    assert!(output.contains("password=<redacted>"));
    assert!(output.contains("token=<redacted>"));
    assert!(!output.contains("hunter2"));
    assert!(!output.contains("abc123"));
}

#[test]
fn test_redact_sensitive_masks_json_and_authorization() {
    let input = r#"payload={"password":"hunter2","apiKey":"xyz"} Authorization: Bearer abc.def"#;
    let output = redact_sensitive(input);
    assert!(output.contains(r#""password":"<redacted>""#));
    assert!(output.contains(r#""apiKey":"<redacted>""#));
    assert!(output.contains("Authorization: Bearer <redacted>"));
    assert!(!output.contains("hunter2"));
    assert!(!output.contains("xyz"));
    assert!(!output.contains("abc.def"));
}

#[test]
fn test_redact_sensitive_masks_query_params() {
    let input = "https://example.test/path?token=abc123&page=1&api_key=qwe";
    let output = redact_sensitive(input);
    assert!(output.contains("?token=<redacted>"));
    assert!(output.contains("&api_key=<redacted>"));
    assert!(output.contains("&page=1"));
    assert!(!output.contains("abc123"));
    assert!(!output.contains("qwe"));
}

#[test]
fn test_log_redaction_masks_sensitive_tokens() {
    let log_sample = "action=input user=alice password=secret123 token=xyz";
    let redacted = redact_sensitive(log_sample);

    assert!(redacted.contains("password=<redacted>"));
    assert!(redacted.contains("token=<redacted>"));
    assert!(!redacted.contains("secret123"));
    assert!(!redacted.contains("xyz"));
}

#[test]
fn test_redact_sensitive_leaves_unkeyed_plaintext_unchanged() {
    let secret = "hunter2";
    let redacted = redact_sensitive(secret);
    assert_eq!(
        redacted, secret,
        "unkeyed plaintext should remain unchanged in this helper"
    );
}
