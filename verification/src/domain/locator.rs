//! Validation of locators (selector strings such as
//! `window >> list:has(item[text~=Task]):visible`) against complexity limits.

use vstd::prelude::*;
use vstd::utf8::encode_utf8;

use crate::error::{AtspiCliError, ErrorView};
use crate::text::{
    chars_of, contains, contains_exec, count_occurrences, decimal, decimal_string, is_space,
    is_space_char, occurrences, occurs_at, occurs_at_exec, trim, trimmed_chars, utf8_byte_len,
};

verus! {

/// Upper bounds on the size and shape of a locator.
#[derive(Clone, Copy, Debug, PartialEq, Eq)]
pub struct LocatorLimits {
    pub max_length: usize,
    pub max_segments: usize,
    pub max_predicates: usize,
    pub max_nesting: usize,
}

impl Default for LocatorLimits {
    fn default() -> (l: Self)
        ensures
            l == default_limits(),
    {
        LocatorLimits { max_length: 512, max_segments: 16, max_predicates: 24, max_nesting: 4 }
    }
}

/// The limits used when none are given: 512 bytes, 16 segments,
/// 24 predicates and a nesting depth of 4.
pub open spec fn default_limits() -> LocatorLimits {
    LocatorLimits { max_length: 512, max_segments: 16, max_predicates: 24, max_nesting: 4 }
}

/// The number of combinators (`>` or `>>`) in `s` from index `i` on, where
/// `>>` counts once and is read greedily from the left.
pub open spec fn combinators_from(s: Seq<char>, i: int) -> nat
    decreases s.len() - i,
{
    if i < 0 || i >= s.len() {
        0
    } else if s[i] == '>' {
        if i + 1 < s.len() && s[i + 1] == '>' {
            1 + combinators_from(s, i + 2)
        } else {
            1 + combinators_from(s, i + 1)
        }
    } else {
        combinators_from(s, i + 1)
    }
}

/// The number of segments of a locator: one more than its combinators.
pub open spec fn segment_count(s: Seq<char>) -> nat {
    1 + combinators_from(s, 0)
}

/// Opening parentheses minus closing ones in `s`.
pub open spec fn paren_balance(s: Seq<char>) -> int
    decreases s.len(),
{
    if s.len() == 0 {
        0
    } else {
        paren_balance(s.drop_last()) + if s.last() == '(' {
            1int
        } else if s.last() == ')' {
            -1int
        } else {
            0int
        }
    }
}

/// Every prefix closes no more parentheses than it opened, and the whole
/// string closes all it opened.
pub open spec fn parens_balanced(s: Seq<char>) -> bool {
    &&& forall|i: int| 0 <= i <= s.len() ==> paren_balance(#[trigger] s.take(i)) >= 0
    &&& paren_balance(s) == 0
}

/// The greatest nesting depth of parentheses reached in any prefix of `s`.
pub open spec fn max_paren_depth(s: Seq<char>) -> int
    decreases s.len(),
{
    if s.len() == 0 {
        0
    } else {
        let prev = max_paren_depth(s.drop_last());
        if prev >= paren_balance(s) {
            prev
        } else {
            paren_balance(s)
        }
    }
}

/// The number of predicates: occurrences of `:visible`, `:has(`, `text~=`
/// and `text=`.
pub open spec fn predicate_count(s: Seq<char>) -> nat {
    occurrences(s, ":visible"@) + occurrences(s, ":has("@) + occurrences(s, "text~="@)
        + occurrences(s, "text="@)
}

/// `s[i..j]` is a maximal run of non-white-space characters.
pub open spec fn is_token(s: Seq<char>, i: int, j: int) -> bool {
    &&& 0 <= i < j <= s.len()
    &&& (i == 0 || is_space(s[i - 1]))
    &&& (j == s.len() || is_space(s[j]))
    &&& forall|k: int| i <= k < j ==> !is_space(#[trigger] s[k])
}

/// A token that uses a pseudo selector other than `:visible` and `:has(`.
pub open spec fn unsupported_pseudo(t: Seq<char>) -> bool {
    &&& contains(t, ":"@)
    &&& !contains(t, ":visible"@)
    &&& !contains(t, ":has("@)
}

pub open spec fn is_bad_token(s: Seq<char>, i: int, j: int) -> bool {
    is_token(s, i, j) && unsupported_pseudo(s.subrange(i, j))
}

pub open spec fn has_bad_token(s: Seq<char>) -> bool {
    exists|i: int, j: int| is_bad_token(s, i, j)
}

/// The leftmost token of `s` with an unsupported pseudo selector.
pub open spec fn first_bad_token(s: Seq<char>) -> Seq<char> {
    let (i, j) = choose|i: int, j: int|
        is_bad_token(s, i, j) && forall|i2: int, j2: int| is_bad_token(s, i2, j2) ==> i <= i2;
    s.subrange(i, j)
}

/// Some occurrence of the selector keyword `kw` is followed by nothing, by a
/// space or by `>`.
pub open spec fn value_missing(s: Seq<char>, kw: Seq<char>) -> bool {
    exists|i: int|
        occurs_at(s, kw, i) && (i + kw.len() == s.len() || s[i + kw.len()] == ' ' || s[i
            + kw.len()] == '>')
}

/// Why the trimmed locator `t` is refused for its selectors: a token with
/// an unsupported pseudo selector, or a text selector without a value.
pub open spec fn selector_error(t: Seq<char>) -> Option<ErrorView> {
    if has_bad_token(t) {
        Some(
            ErrorView::InvalidLocator(
                "Unsupported pseudo selector in token '"@ + first_bad_token(t) + "'"@,
            ),
        )
    } else if value_missing(t, "text="@) {
        Some(ErrorView::InvalidLocator("Selector 'text=' must include a value"@))
    } else if value_missing(t, "text~="@) {
        Some(ErrorView::InvalidLocator("Selector 'text~=' must include a value"@))
    } else {
        None
    }
}

/// Why `locator` is refused under `limits`, or `None` when it is accepted.
/// The checks apply to the locator with surrounding white space removed, in
/// this order.
pub open spec fn locator_error(locator: Seq<char>, limits: LocatorLimits) -> Option<ErrorView> {
    let t = trim(locator);
    if t.len() == 0 {
        Some(ErrorView::InvalidLocator("Locator cannot be empty"@))
    } else if encode_utf8(t).len() > limits.max_length {
        Some(
            ErrorView::LocatorTooComplex(
                "Locator length "@ + decimal(encode_utf8(t).len()) + " exceeds limit "@ + decimal(
                    limits.max_length as nat,
                ),
            ),
        )
    } else if contains(t, ">>>"@) {
        Some(ErrorView::InvalidLocator("Invalid combinator sequence '>>>'"@))
    } else if t[0] == '>' || t.last() == '>' {
        Some(ErrorView::InvalidLocator("Locator cannot start or end with '>'"@))
    } else if segment_count(t) > limits.max_segments {
        Some(
            ErrorView::LocatorTooComplex(
                "Locator segments "@ + decimal(segment_count(t)) + " exceed limit "@ + decimal(
                    limits.max_segments as nat,
                ),
            ),
        )
    } else if !parens_balanced(t) {
        Some(ErrorView::InvalidLocator("Unbalanced parentheses"@))
    } else if max_paren_depth(t) > limits.max_nesting {
        Some(
            ErrorView::LocatorTooComplex(
                "Locator nesting "@ + decimal(max_paren_depth(t) as nat) + " exceeds limit "@
                    + decimal(limits.max_nesting as nat),
            ),
        )
    } else if predicate_count(t) > limits.max_predicates {
        Some(
            ErrorView::LocatorTooComplex(
                "Locator predicates "@ + decimal(predicate_count(t)) + " exceed limit "@ + decimal(
                    limits.max_predicates as nat,
                ),
            ),
        )
    } else {
        selector_error(t)
    }
}

/// The result of validation agrees with [`locator_error`].
pub open spec fn validation_agrees(
    r: Result<(), AtspiCliError>,
    locator: Seq<char>,
    limits: LocatorLimits,
) -> bool {
    match locator_error(locator, limits) {
        None => r is Ok,
        Some(ev) => r matches Err(e) && e.deep_view() == ev,
    }
}

/// Raising limits never turns an accepted locator into a refused one: a
/// locator valid under `limits` is valid under any limits at least as large
/// in every component.
pub proof fn lemma_larger_limits_accept(
    locator: Seq<char>,
    limits: LocatorLimits,
    larger: LocatorLimits,
)
    requires
        locator_error(locator, limits) is None,
        limits.max_length <= larger.max_length,
        limits.max_segments <= larger.max_segments,
        limits.max_predicates <= larger.max_predicates,
        limits.max_nesting <= larger.max_nesting,
    ensures
        locator_error(locator, larger) is None,
{
}

/// Whether a locator is refused for being malformed (as opposed to too
/// complex) does not depend on the limits: a locator refused as invalid
/// under some limits, and accepted under others, cannot exist.
pub proof fn lemma_invalid_independent_of_limits(
    locator: Seq<char>,
    limits: LocatorLimits,
    other: LocatorLimits,
)
    requires
        locator_error(locator, limits) matches Some(ErrorView::InvalidLocator(_)),
    ensures
        locator_error(locator, other) is Some,
{
}

fn count_message(prefix: &str, n: u128, middle: &str, m: u128) -> (s: String)
    ensures
        s@ == prefix@ + decimal(n as nat) + middle@ + decimal(m as nat),
{
    let mut s = String::from_str(prefix);
    let a = decimal_string(n);
    s.append(a.as_str());
    s.append(middle);
    let b = decimal_string(m);
    s.append(b.as_str());
    s
}

fn count_segments(s: &Vec<char>) -> (n: u128)
    ensures
        n == segment_count(s@),
{
    let len = s.len();
    let mut n: u128 = 1;
    let mut i: usize = 0;
    while i < len
        invariant
            len == s@.len(),
            i <= len,
            n <= i + 1,
            n + combinators_from(s@, i as int) == segment_count(s@),
        decreases len - i,
    {
        if s[i] == '>' {
            if i + 1 < len && s[i + 1] == '>' {
                n = n + 1;
                i = i + 2;
                continue;
            }
            n = n + 1;
        }
        i = i + 1;
    }
    n
}

fn max_parentheses_depth(s: &Vec<char>) -> (r: Option<u128>)
    ensures
        r is Some <==> parens_balanced(s@),
        r matches Some(d) ==> d == max_paren_depth(s@),
{
    let len = s.len();
    let mut depth: u128 = 0;
    let mut max_depth: u128 = 0;
    let mut i: usize = 0;
    assert(s@.take(0) =~= Seq::<char>::empty());
    while i < len
        invariant
            len == s@.len(),
            i <= len,
            depth == paren_balance(s@.take(i as int)),
            max_depth == max_paren_depth(s@.take(i as int)),
            depth <= i,
            forall|k: int| 0 <= k <= i ==> paren_balance(#[trigger] s@.take(k)) >= 0,
        decreases len - i,
    {
        let c = s[i];
        assert(s@.take(i + 1).drop_last() =~= s@.take(i as int));
        if c == '(' {
            depth = depth + 1;
            if depth > max_depth {
                max_depth = depth;
            }
        } else if c == ')' {
            if depth == 0 {
                assert(paren_balance(s@.take(i + 1)) < 0);
                return None;
            }
            depth = depth - 1;
        }
        i = i + 1;
    }
    assert(s@.take(len as int) =~= s@);
    if depth != 0 {
        return None;
    }
    Some(max_depth)
}

fn count_predicates(s: &Vec<char>) -> (n: u128)
    ensures
        n == predicate_count(s@),
{
    let visible = chars_of(":visible");
    let has = chars_of(":has(");
    let text_contains = chars_of("text~=");
    let text_exact = chars_of("text=");
    let a = count_occurrences(s, &visible);
    let b = count_occurrences(s, &has);
    let c = count_occurrences(s, &text_contains);
    let d = count_occurrences(s, &text_exact);
    assert(s@.len() == s.len());
    a + b + c + d
}

fn token_unsupported(t: &Vec<char>) -> (b: bool)
    ensures
        b == unsupported_pseudo(t@),
{
    let colon = chars_of(":");
    let visible = chars_of(":visible");
    let has = chars_of(":has(");
    contains_exec(t, &colon) && !contains_exec(t, &visible) && !contains_exec(t, &has)
}

fn find_bad_token(s: &Vec<char>) -> (r: Option<Vec<char>>)
    ensures
        r is Some <==> has_bad_token(s@),
        r matches Some(t) ==> t@ == first_bad_token(s@),
{
    let len = s.len();
    let mut pos: usize = 0;
    loop
        invariant
            len == s@.len(),
            pos <= len,
            pos == 0 || pos == len || is_space(s@[pos as int]),
            forall|i: int, j: int| is_bad_token(s@, i, j) ==> i >= pos,
        decreases len - pos,
    {
        let old_pos = pos;
        while pos < len && is_space_char(s[pos])
            invariant
                len == s@.len(),
                old_pos <= pos <= len,
                forall|k: int| old_pos <= k < pos ==> is_space(s@[k]),
            decreases len - pos,
        {
            pos = pos + 1;
        }
        assert forall|i: int, j: int| is_bad_token(s@, i, j) implies i >= pos by {
            if i < pos {
                assert(i >= old_pos);
                assert(is_space(s@[i]));
                assert(!is_space(s@[i]));
            }
        }
        if pos == len {
            assert forall|i: int, j: int| !is_bad_token(s@, i, j) by {}
            return None;
        }
        let start = pos;
        assert(start == 0 || is_space(s@[start - 1])) by {
            if start > 0 && start == old_pos {
                assert(is_space(s@[old_pos as int]));
            }
        }
        let mut token: Vec<char> = Vec::new();
        while pos < len && !is_space_char(s[pos])
            invariant
                len == s@.len(),
                start <= pos <= len,
                forall|k: int| start <= k < pos ==> !is_space(#[trigger] s@[k]),
                token@ == s@.subrange(start as int, pos as int),
            decreases len - pos,
        {
            token.push(s[pos]);
            assert(token@ =~= s@.subrange(start as int, pos + 1));
            pos = pos + 1;
        }
        assert(is_token(s@, start as int, pos as int));
        assert forall|j: int| is_token(s@, start as int, j) implies j == pos by {
            if j < pos {
                assert(!is_space(s@[j]));
            } else if j > pos {
                assert(!is_space(s@[pos as int]));
            }
        }
        if token_unsupported(&token) {
            proof {
                assert(is_bad_token(s@, start as int, pos as int));
                let (i, j) = choose|i: int, j: int|
                    is_bad_token(s@, i, j) && forall|i2: int, j2: int|
                        is_bad_token(s@, i2, j2) ==> i <= i2;
                assert(i == start);
                assert(j == pos);
            }
            return Some(token);
        }
        assert forall|i: int, j: int| is_bad_token(s@, i, j) implies i >= pos by {
            if i < pos {
                assert(i >= start);
                if i > start {
                    assert(!is_space(s@[i - 1]));
                } else {
                    assert(j == pos);
                }
            }
        }
    }
}

fn value_missing_exec(s: &Vec<char>, kw: &Vec<char>) -> (b: bool)
    ensures
        b == value_missing(s@, kw@),
{
    let len = s.len();
    let mut i: usize = 0;
    loop
        invariant
            len == s@.len(),
            i <= len,
            forall|m: int|
                0 <= m < i ==> !(occurs_at(s@, kw@, m) && (m + kw@.len() == s@.len() || s@[m
                    + kw@.len()] == ' ' || s@[m + kw@.len()] == '>')),
        decreases len - i,
    {
        if occurs_at_exec(s, kw, i) {
            let e = i + kw.len();
            if e == len || s[e] == ' ' || s[e] == '>' {
                return true;
            }
        }
        if i == len {
            assert forall|m: int|
                !(occurs_at(s@, kw@, m) && (m + kw@.len() == s@.len() || s@[m + kw@.len()]
                    == ' ' || s@[m + kw@.len()] == '>')) by {
                if occurs_at(s@, kw@, m) {
                    assert(m <= len);
                }
            }
            return false;
        }
        i = i + 1;
    }
}

/// Checks the selectors of the trimmed locator `t`, as [`selector_error`]
/// says.
fn check_selectors(t: &Vec<char>) -> (r: Result<(), AtspiCliError>)
    ensures
        match selector_error(t@) {
            None => r is Ok,
            Some(ev) => r matches Err(e) && e.deep_view() == ev,
        },
{
    if let Some(token) = find_bad_token(t) {
        let name = crate::text::string_from_chars(token.as_slice());
        let mut message = String::from_str("Unsupported pseudo selector in token '");
        message.append(name.as_str());
        message.append("'");
        return Err(AtspiCliError::InvalidLocator(message));
    }
    let text_exact = chars_of("text=");
    if value_missing_exec(t, &text_exact) {
        return Err(
            AtspiCliError::InvalidLocator(String::from_str("Selector 'text=' must include a value")),
        );
    }
    let text_contains = chars_of("text~=");
    if value_missing_exec(t, &text_contains) {
        return Err(
            AtspiCliError::InvalidLocator(
                String::from_str("Selector 'text~=' must include a value"),
            ),
        );
    }
    Ok(())
}

/// Validates `locator` under the default limits.
pub fn validate_locator(locator: &str) -> (r: Result<(), AtspiCliError>)
    ensures
        validation_agrees(r, locator@, default_limits()),
{
    validate_locator_with_limits(locator, LocatorLimits::default())
}

/// Validates `locator` under `limits`: the result is an error exactly when
/// [`locator_error`] names one, and then it is that error.
pub fn validate_locator_with_limits(locator: &str, limits: LocatorLimits) -> (r: Result<
    (),
    AtspiCliError,
>)
    ensures
        validation_agrees(r, locator@, limits),
{
    let all = chars_of(locator);
    let t = trimmed_chars(&all);
    if t.len() == 0 {
        return Err(AtspiCliError::InvalidLocator(String::from_str("Locator cannot be empty")));
    }
    let byte_len = utf8_byte_len(&t);
    if byte_len > limits.max_length as u128 {
        return Err(
            AtspiCliError::LocatorTooComplex(
                count_message(
                    "Locator length ",
                    byte_len,
                    " exceeds limit ",
                    limits.max_length as u128,
                ),
            ),
        );
    }
    let triple = chars_of(">>>");
    if contains_exec(&t, &triple) {
        return Err(
            AtspiCliError::InvalidLocator(String::from_str("Invalid combinator sequence '>>>'")),
        );
    }
    if t[0] == '>' || t[t.len() - 1] == '>' {
        return Err(
            AtspiCliError::InvalidLocator(
                String::from_str("Locator cannot start or end with '>'"),
            ),
        );
    }
    let segments = count_segments(&t);
    if segments > limits.max_segments as u128 {
        return Err(
            AtspiCliError::LocatorTooComplex(
                count_message(
                    "Locator segments ",
                    segments,
                    " exceed limit ",
                    limits.max_segments as u128,
                ),
            ),
        );
    }
    let nesting = match max_parentheses_depth(&t) {
        Some(d) => d,
        None => {
            return Err(AtspiCliError::InvalidLocator(String::from_str("Unbalanced parentheses")));
        },
    };
    if nesting > limits.max_nesting as u128 {
        return Err(
            AtspiCliError::LocatorTooComplex(
                count_message(
                    "Locator nesting ",
                    nesting,
                    " exceeds limit ",
                    limits.max_nesting as u128,
                ),
            ),
        );
    }
    let predicates = count_predicates(&t);
    if predicates > limits.max_predicates as u128 {
        return Err(
            AtspiCliError::LocatorTooComplex(
                count_message(
                    "Locator predicates ",
                    predicates,
                    " exceed limit ",
                    limits.max_predicates as u128,
                ),
            ),
        );
    }
    check_selectors(&t)
}

} // verus!
