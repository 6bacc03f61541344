use atspicli::domain::locator::{validate_locator, validate_locator_with_limits, LocatorLimits};

#[test]
fn test_validate_locator_accepts_simple_role() {
    assert!(validate_locator("button").is_ok());
}

#[test]
fn test_validate_locator_accepts_descendant_chain() {
    assert!(validate_locator("window >> button").is_ok());
}

#[test]
fn test_validate_locator_accepts_child_chain() {
    assert!(validate_locator("window > button").is_ok());
}

#[test]
fn test_validate_locator_accepts_text_exact() {
    assert!(validate_locator("button[text=Save]").is_ok());
}

#[test]
fn test_validate_locator_accepts_text_contains() {
    assert!(validate_locator("button[text~=Save]").is_ok());
}

#[test]
fn test_validate_locator_accepts_visible() {
    assert!(validate_locator("button:visible").is_ok());
}

#[test]
fn test_validate_locator_accepts_has_selector() {
    assert!(validate_locator("list:has(item[text=Done])").is_ok());
}

#[test]
fn test_validate_locator_accepts_mixed_features() {
    assert!(validate_locator("window >> list:has(item[text~=Task]):visible").is_ok());
}

#[test]
fn test_validate_locator_rejects_empty() {
    assert!(validate_locator("   ").is_err());
}

#[test]
fn test_validate_locator_rejects_unbalanced_parentheses_left() {
    assert!(validate_locator("list:has(item").is_err());
}

#[test]
fn test_validate_locator_rejects_unbalanced_parentheses_right() {
    assert!(validate_locator("list:item)").is_err());
}

#[test]
fn test_validate_locator_rejects_unknown_pseudo() {
    assert!(validate_locator("button:focused").is_err());
}

#[test]
fn test_validate_locator_rejects_leading_combinator() {
    assert!(validate_locator("> button").is_err());
}

#[test]
fn test_validate_locator_rejects_trailing_combinator() {
    assert!(validate_locator("button >").is_err());
}

#[test]
fn test_validate_locator_rejects_invalid_triple_combinator() {
    assert!(validate_locator("window >>> button").is_err());
}

#[test]
fn test_validate_locator_rejects_text_without_value() {
    assert!(validate_locator("button[text= ]").is_err());
}

#[test]
fn test_validate_locator_rejects_text_contains_without_value() {
    assert!(validate_locator("button[text~= ]").is_err());
}

#[test]
fn test_validate_locator_limits_length() {
    let limits = LocatorLimits {
        max_length: 8,
        ..LocatorLimits::default()
    };
    assert!(validate_locator_with_limits("very-long-locator", limits).is_err());
}

#[test]
fn test_validate_locator_limits_segments() {
    let limits = LocatorLimits {
        max_segments: 2,
        ..LocatorLimits::default()
    };
    assert!(validate_locator_with_limits("a > b > c", limits).is_err());
}

#[test]
fn test_validate_locator_limits_predicates() {
    let limits = LocatorLimits {
        max_predicates: 1,
        ..LocatorLimits::default()
    };
    assert!(validate_locator_with_limits("button:visible[text=Save]", limits).is_err());
}

#[test]
fn test_validate_locator_limits_nesting() {
    let limits = LocatorLimits {
        max_nesting: 1,
        ..LocatorLimits::default()
    };
    assert!(validate_locator_with_limits("a:has(b:has(c))", limits).is_err());
}

#[test]
fn test_validate_locator_supports_nested_has_with_default_limits() {
    assert!(validate_locator("window:has(list:has(item[text=Open]))").is_ok());
}

#[test]
fn test_locator_limits_length() {
    let limits = LocatorLimits {
        max_length: 8,
        ..LocatorLimits::default()
    };
    assert!(validate_locator_with_limits("very-long-locator", limits).is_err());
}

#[test]
fn test_locator_limits_nesting() {
    let limits = LocatorLimits {
        max_nesting: 1,
        ..LocatorLimits::default()
    };
    assert!(validate_locator_with_limits("a:has(b:has(c))", limits).is_err());
}

#[test]
fn test_locator_limits_predicate_count() {
    let limits = LocatorLimits {
        max_predicates: 2,
        ..LocatorLimits::default()
    };
    assert!(
        validate_locator_with_limits("a:visible:has(b[text=1]):has(c[text=2])", limits).is_err()
    );
}
