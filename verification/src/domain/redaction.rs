//! Masking of secrets (passwords, tokens, API keys, authorization headers)
//! in text that is about to be logged.

use vstd::prelude::*;

verus! {

/// Whether the `regex` crate accepts `pattern`.
pub uninterp spec fn regex_compiles(pattern: Seq<char>) -> bool;

/// What the `regex` crate makes of `haystack` when every match of `pattern`
/// is replaced by `replacement` (with `$n` standing for capture group `n`).
pub uninterp spec fn regex_replaced(
    pattern: Seq<char>,
    haystack: Seq<char>,
    replacement: Seq<char>,
) -> Seq<char>;

/// Replaces every match of `pattern` in `haystack` by `replacement`.
///
/// Trusted: compiles `pattern` with `regex::Regex::new` and applies
/// `Regex::replace_all`. The contract claims that the result is present
/// exactly when the pattern compiles, and that it is then the outcome named
/// by [`regex_replaced`], a function of the three arguments alone; what that
/// outcome is (the regex semantics) is not stated.
#[verifier::external_body]
fn regex_replace_all(pattern: &str, haystack: &str, replacement: &str) -> (r: Option<String>)
    ensures
        r is Some <==> regex_compiles(pattern@),
        r matches Some(s) ==> s@ == regex_replaced(pattern@, haystack@, replacement@),
{
    match regex::Regex::new(pattern) {
        Ok(re) => Some(re.replace_all(haystack, replacement).into_owned()),
        Err(_) => None,
    }
}

/// `key=value` query parameters whose key names a secret.
pub open spec fn query_param_pattern() -> Seq<char> {
    "(?i)([?&](?:password|passwd|secret|token|api[_-]?key|access[_-]?token|refresh[_-]?token|client[_-]?secret)=)[^&#\\s]+"@
}

/// JSON members `"key": "value"` whose key names a secret.
pub open spec fn quoted_key_value_pattern() -> Seq<char> {
    "(?i)(\"(?:password|passwd|secret|token|api[_-]?key|access[_-]?token|refresh[_-]?token|client[_-]?secret)\"\\s*:\\s*)\"[^\"]*\""@
}

/// `key=value` or `key: value` pairs whose key names a secret.
pub open spec fn key_value_pattern() -> Seq<char> {
    "(?i)\\b(password|passwd|secret|token|api[_-]?key|access[_-]?token|refresh[_-]?token|client[_-]?secret)\\b(\\s*[:=]\\s*)(\"[^\"]*\"|'[^']*'|[^\\s,;&]+)"@
}

/// `Authorization: Bearer ...` and `Authorization: Basic ...` headers.
pub open spec fn authorization_pattern() -> Seq<char> {
    "(?i)\\b(authorization\\s*:\\s*(?:bearer|basic)\\s+)[^\\s,;]+"@
}

/// Bare bearer tokens.
pub open spec fn bearer_pattern() -> Seq<char> {
    "(?i)\\b(bearer\\s+)[A-Za-z0-9._~+/-]+=*"@
}

/// Every pattern compiles.
pub open spec fn patterns_compile() -> bool {
    &&& regex_compiles(query_param_pattern())
    &&& regex_compiles(quoted_key_value_pattern())
    &&& regex_compiles(key_value_pattern())
    &&& regex_compiles(authorization_pattern())
    &&& regex_compiles(bearer_pattern())
}

/// The redacted form of `input`: the five substitutions applied in turn
/// (query parameters, JSON members, key/value pairs, authorization headers,
/// bearer tokens), each keeping the key and replacing the secret by
/// `<redacted>`; or `<redacted>` alone when a pattern does not compile.
pub open spec fn redaction(input: Seq<char>) -> Seq<char> {
    if patterns_compile() {
        let s1 = regex_replaced(query_param_pattern(), input, "$1<redacted>"@);
        let s2 = regex_replaced(quoted_key_value_pattern(), s1, "$1\"<redacted>\""@);
        let s3 = regex_replaced(key_value_pattern(), s2, "$1$2<redacted>"@);
        let s4 = regex_replaced(authorization_pattern(), s3, "$1<redacted>"@);
        regex_replaced(bearer_pattern(), s4, "$1<redacted>"@)
    } else {
        "<redacted>"@
    }
}

/// One substitution of the redaction chain: nothing when an earlier step
/// failed, else the substitution of `pattern` by `replacement` in the text
/// so far (nothing when the pattern does not compile).
pub fn redaction_step(previous: Option<String>, pattern: &str, replacement: &str) -> (r: Option<
    String,
>)
    ensures
        match previous {
            None => r is None,
            Some(p) => if regex_compiles(pattern@) {
                r matches Some(s) && s@ == regex_replaced(pattern@, p@, replacement@)
            } else {
                r is None
            },
        },
{
    match previous {
        None => None,
        Some(text) => regex_replace_all(pattern, text.as_str(), replacement),
    }
}

/// The end of the redaction chain: its text, or `<redacted>` alone when a
/// step failed.
pub fn finish_redaction(result: Option<String>) -> (r: String)
    ensures
        match result {
            Some(s) => r@ == s@,
            None => r@ == "<redacted>"@,
        },
{
    match result {
        Some(s) => s,
        None => String::from_str("<redacted>"),
    }
}

/// Masks secrets in `input`; the result is [`redaction`] of it.
pub fn redact_sensitive(input: &str) -> (r: String)
    ensures
        r@ == redaction(input@),
{
    let start = Some(String::from_str(input));
    let s1 = redaction_step(
        start,
        "(?i)([?&](?:password|passwd|secret|token|api[_-]?key|access[_-]?token|refresh[_-]?token|client[_-]?secret)=)[^&#\\s]+",
        "$1<redacted>",
    );
    let s2 = redaction_step(
        s1,
        "(?i)(\"(?:password|passwd|secret|token|api[_-]?key|access[_-]?token|refresh[_-]?token|client[_-]?secret)\"\\s*:\\s*)\"[^\"]*\"",
        "$1\"<redacted>\"",
    );
    let s3 = redaction_step(
        s2,
        "(?i)\\b(password|passwd|secret|token|api[_-]?key|access[_-]?token|refresh[_-]?token|client[_-]?secret)\\b(\\s*[:=]\\s*)(\"[^\"]*\"|'[^']*'|[^\\s,;&]+)",
        "$1$2<redacted>",
    );
    let s4 = redaction_step(
        s3,
        "(?i)\\b(authorization\\s*:\\s*(?:bearer|basic)\\s+)[^\\s,;]+",
        "$1<redacted>",
    );
    let s5 = redaction_step(s4, "(?i)\\b(bearer\\s+)[A-Za-z0-9._~+/-]+=*", "$1<redacted>");
    finish_redaction(s5)
}

} // verus!
