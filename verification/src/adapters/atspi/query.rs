//! Queries against the accessibility bus that need no live connection:
//! reading a node by its locator, the sensitive-name heuristic, and the list
//! of applications given in the environment for testing.

use vstd::prelude::*;

use crate::domain::model::{AppDescriptor, AppView, NodeDescriptor, NodeView};
use crate::error::{AtspiCliError, ErrorView};
use crate::text::{
    ascii_lower, chars_of, lemma_ascii_lower_idempotent, contains, contains_exec, lowercase_chars, owned,
    string_from_chars, trim, trimmed_chars,
};

verus! {

/// Queries on the accessibility tree.
#[derive(Default)]
pub struct AtspiQuery;

/// Whether a name or locator suggests secret content: its ASCII lower-case
/// form contains one of the markers `password`, `secret`, `token`,
/// `api_key`, `apikey`, `credential`, `passcode`, `otp` or `pin`.
pub open spec fn looks_sensitive(s: Seq<char>) -> bool {
    let l = ascii_lower(s);
    ||| contains(l, "password"@)
    ||| contains(l, "secret"@)
    ||| contains(l, "token"@)
    ||| contains(l, "api_key"@)
    ||| contains(l, "apikey"@)
    ||| contains(l, "credential"@)
    ||| contains(l, "passcode"@)
    ||| contains(l, "otp"@)
    ||| contains(l, "pin"@)
}

/// The sensitive-name heuristic ignores ASCII case: a name looks sensitive
/// exactly when its lower-case form does.
pub proof fn lemma_sensitivity_ignores_case(s: Seq<char>)
    ensures
        looks_sensitive(ascii_lower(s)) == looks_sensitive(s),
{
    lemma_ascii_lower_idempotent(s);
}

/// What reading the node at `locator` gives: an empty locator is refused, a
/// locator that mentions `missing` finds nothing, and any other locator finds
/// a visible node whose text is hidden when the locator looks sensitive.
pub open spec fn read_outcome(locator: Seq<char>) -> Result<NodeView, ErrorView> {
    if trim(locator).len() == 0 {
        Err(ErrorView::InvalidLocator("Locator cannot be empty"@))
    } else if contains(locator, "missing"@) {
        Err(ErrorView::NodeNotFound(locator))
    } else {
        let sensitive = looks_sensitive(locator);
        Ok(
            NodeView {
                locator,
                text: if sensitive {
                    Some("<hidden>"@)
                } else if contains(locator, "text="@) {
                    Some("mock-text"@)
                } else {
                    None
                },
                visible: true,
                sensitive,
            },
        )
    }
}

/// The pieces of `s` between the occurrences of `sep`, as std's
/// `str::split` yields them: there is always at least one piece, and empty
/// pieces are kept.
pub open spec fn split_on(s: Seq<char>, sep: char) -> Seq<Seq<char>>
    decreases s.len(),
{
    if s.len() == 0 {
        seq![Seq::<char>::empty()]
    } else {
        let rest = split_on(s.drop_last(), sep);
        if s.last() == sep {
            rest.push(Seq::<char>::empty())
        } else {
            rest.update(rest.len() - 1, rest.last().push(s.last()))
        }
    }
}

/// `split_on` always yields at least one piece.
pub proof fn lemma_split_on_nonempty(s: Seq<char>, sep: char)
    ensures
        split_on(s, sep).len() >= 1,
    decreases s.len(),
{
    if s.len() > 0 {
        lemma_split_on_nonempty(s.drop_last(), sep);
    }
}

/// `k` is the index of the first `c` in `s`.
pub open spec fn first_at(s: Seq<char>, c: char, k: int) -> bool {
    &&& 0 <= k < s.len()
    &&& s[k] == c
    &&& forall|j: int| 0 <= j < k ==> s[j] != c
}

/// Whether `c` is an ASCII decimal digit.
pub open spec fn is_digit(c: char) -> bool {
    '0' <= c && c <= '9'
}

/// The number written by the decimal digits `s` (0 for no digits).
pub open spec fn digits_value(s: Seq<char>) -> nat
    decreases s.len(),
{
    if s.len() == 0 {
        0
    } else {
        digits_value(s.drop_last()) * 10 + ((s.last() as int) - ('0' as int)) as nat
    }
}

/// `s` without one leading `+`, if it has one.
pub open spec fn unsigned_digits(s: Seq<char>) -> Seq<char> {
    if s.len() > 0 && s[0] == '+' {
        s.drop_first()
    } else {
        s
    }
}

/// Whether every character of `d` is a decimal digit.
pub open spec fn all_digits(d: Seq<char>) -> bool {
    forall|i: int| 0 <= i < d.len() ==> is_digit(#[trigger] d[i])
}

/// What std's `str::parse::<u32>` gives for `s`: an optional `+` followed
/// by at least one decimal digit, whose value fits in a `u32`.
pub open spec fn parse_u32(s: Seq<char>) -> Option<u32> {
    let d = unsigned_digits(s);
    if d.len() > 0 && all_digits(d) && digits_value(d) <= u32::MAX {
        Some(digits_value(d) as u32)
    } else {
        None
    }
}

/// A character other than a digit after the optional sign makes the parse
/// fail.
proof fn lemma_parse_u32_bad_digit(t: Seq<char>, j: int)
    requires
        0 <= j < unsigned_digits(t).len(),
        !is_digit(unsigned_digits(t)[j]),
    ensures
        parse_u32(t) is None,
{
}

/// The application that one entry `name:pid` describes: the name is the
/// trimmed text before the first `:`, the pid what follows it, which must
/// parse as a `u32`.
pub open spec fn fake_app_entry(e: Seq<char>) -> Option<AppView> {
    if exists|k: int| first_at(e, ':', k) {
        let k = choose|k: int| first_at(e, ':', k);
        match parse_u32(e.skip(k + 1)) {
            Some(pid) => Some(AppView { name: trim(e.take(k)), pid }),
            None => None,
        }
    } else {
        None
    }
}

/// The applications described by the entries of `pieces`, in order, with
/// malformed entries left out.
pub open spec fn fake_apps_from(pieces: Seq<Seq<char>>) -> Seq<AppView>
    decreases pieces.len(),
{
    if pieces.len() == 0 {
        Seq::<AppView>::empty()
    } else {
        let before = fake_apps_from(pieces.drop_last());
        match fake_app_entry(pieces.last()) {
            Some(a) => before.push(a),
            None => before,
        }
    }
}

/// The applications listed in `raw`, a comma-separated list of `name:pid`
/// entries; `None` when no entry is well formed.
pub open spec fn fake_apps(raw: Seq<char>) -> Option<Seq<AppView>> {
    let apps = fake_apps_from(split_on(raw, ','));
    if apps.len() == 0 {
        None
    } else {
        Some(apps)
    }
}

/// Index of the first `c` in `s`, if any.
fn find_char(s: &Vec<char>, c: char) -> (r: Option<usize>)
    ensures
        match r {
            Some(k) => first_at(s@, c, k as int),
            None => forall|j: int| 0 <= j < s@.len() ==> s@[j] != c,
        },
{
    let mut i: usize = 0;
    while i < s.len()
        invariant
            i <= s@.len(),
            forall|j: int| 0 <= j < i ==> s@[j] != c,
        decreases s@.len() - i,
    {
        if s[i] == c {
            return Some(i);
        }
        i = i + 1;
    }
    None
}

/// The value of `u32` written in `s` from index `start` on, as
/// [`parse_u32`] says.
fn parse_u32_from(s: &Vec<char>, start: usize) -> (r: Option<u32>)
    requires
        start <= s@.len(),
    ensures
        r == parse_u32(s@.skip(start as int)),
{
    let len = s.len();
    let mut i = start;
    if i < len && s[i] == '+' {
        i = i + 1;
    }
    let d_start = i;
    let ghost t = s@.skip(start as int);
    let ghost d = s@.subrange(d_start as int, len as int);
    assert(d =~= unsigned_digits(t));
    if i == len {
        return None;
    }
    let mut acc: u64 = 0;
    let mut over = false;
    while i < len
        invariant
            d_start <= i <= len == s@.len(),
            d == s@.subrange(d_start as int, len as int),
            t == s@.skip(start as int),
            d == unsigned_digits(t),
            forall|j: int| d_start <= j < i ==> is_digit(#[trigger] s@[j]),
            !over ==> acc == digits_value(s@.subrange(d_start as int, i as int)),
            !over ==> acc <= u32::MAX,
            over ==> digits_value(s@.subrange(d_start as int, i as int)) > u32::MAX,
        decreases len - i,
    {
        let c = s[i];
        if !('0' <= c && c <= '9') {
            assert(d[i - d_start] == s@[i as int]);
            assert(!is_digit(d[i - d_start]));
            proof {
                lemma_parse_u32_bad_digit(t, (i - d_start) as int);
            }
            return None;
        }
        let ghost before = s@.subrange(d_start as int, i as int);
        let ghost after = s@.subrange(d_start as int, i + 1);
        assert(after.drop_last() =~= before);
        assert(digits_value(after) == digits_value(before) * 10 + ((c as int) - ('0' as int)));
        if !over {
            let digit: u64 = (c as u32 - '0' as u32) as u64;
            acc = acc * 10 + digit;
            if acc > 0xffff_ffffu64 {
                over = true;
            }
        }
        i = i + 1;
    }
    assert(s@.subrange(d_start as int, i as int) =~= d);
    assert forall|j: int| 0 <= j < d.len() implies is_digit(#[trigger] d[j]) by {
        assert(d[j] == s@[d_start + j]);
    }
    assert(all_digits(d));
    if over {
        None
    } else {
        Some(acc as u32)
    }
}

/// The application described by the entry `e`, as [`fake_app_entry`] says.
fn parse_fake_entry(e: &Vec<char>) -> (r: Option<AppDescriptor>)
    ensures
        match r {
            Some(a) => fake_app_entry(e@) == Some(a.deep_view()),
            None => fake_app_entry(e@) is None,
        },
{
    match find_char(e, ':') {
        None => None,
        Some(k) => {
            let n = e.len();
            proof {
                let c = choose|c: int| first_at(e@, ':', c);
                if c < k {
                    assert(e@[c] != ':');
                } else if c > k {
                    assert(e@[k as int] != ':');
                }
            }
            match parse_u32_from(e, k + 1) {
                None => None,
                Some(pid) => {
                    let mut head: Vec<char> = Vec::new();
                    let mut j: usize = 0;
                    while j < k
                        invariant
                            j <= k < e@.len(),
                            head@ == e@.take(j as int),
                        decreases k - j,
                    {
                        head.push(e[j]);
                        assert(head@ =~= e@.take(j + 1));
                        j = j + 1;
                    }
                    let name = trimmed_chars(&head);
                    Some(AppDescriptor { name: string_from_chars(name.as_slice()), pid })
                },
            }
        },
    }
}

impl AtspiQuery {
    /// Whether `locator` looks like it names secret content.
    pub fn locator_looks_sensitive(locator: &str) -> (b: bool)
        ensures
            b == looks_sensitive(locator@),
    {
        let l = lowercase_chars(&chars_of(locator));
        contains_exec(&l, &chars_of("password")) || contains_exec(&l, &chars_of("secret"))
            || contains_exec(&l, &chars_of("token")) || contains_exec(&l, &chars_of("api_key"))
            || contains_exec(&l, &chars_of("apikey")) || contains_exec(
            &l,
            &chars_of("credential"),
        ) || contains_exec(&l, &chars_of("passcode")) || contains_exec(&l, &chars_of("otp"))
            || contains_exec(&l, &chars_of("pin"))
    }

    /// Whether the application has nodes whose content must not be captured.
    /// Without a scan of the tree the answer is always yes, so that capture
    /// is refused rather than risked.
    pub fn has_sensitive_nodes(&self, app: &AppDescriptor) -> (r: Result<bool, AtspiCliError>)
        ensures
            r == Ok::<bool, AtspiCliError>(true),
    {
        Ok(true)
    }

    /// Reads the node at `locator`.
    pub fn read_node(&self, locator: &str) -> (r: Result<NodeDescriptor, AtspiCliError>)
        ensures
            match r {
                Ok(n) => read_outcome(locator@) == Ok::<NodeView, ErrorView>(n.deep_view()),
                Err(e) => read_outcome(locator@) == Err::<NodeView, ErrorView>(e.deep_view()),
            },
    {
        let raw = chars_of(locator);
        let t = trimmed_chars(&raw);
        if t.len() == 0 {
            return Err(AtspiCliError::InvalidLocator(owned("Locator cannot be empty")));
        }
        if contains_exec(&raw, &chars_of("missing")) {
            return Err(AtspiCliError::NodeNotFound(owned(locator)));
        }
        let mut node = NodeDescriptor::new(locator);
        if Self::locator_looks_sensitive(locator) {
            node.sensitive = true;
            node.text = Some(owned("<hidden>"));
        } else if contains_exec(&raw, &chars_of("text=")) {
            node.text = Some(owned("mock-text"));
        }
        Ok(node)
    }

    /// The applications listed in `raw`, a comma-separated list of
    /// `name:pid` entries, skipping malformed ones; `None` when no entry is
    /// well formed.
    pub fn parse_fake_apps(raw: &str) -> (r: Option<Vec<AppDescriptor>>)
        ensures
            match r {
                Some(v) => fake_apps(raw@) == Some(v.deep_view()),
                None => fake_apps(raw@) is None,
            },
    {
        let s = chars_of(raw);
        let mut apps: Vec<AppDescriptor> = Vec::new();
        let mut cur: Vec<char> = Vec::new();
        let mut i: usize = 0;
        proof {
            assert(s@.take(0) =~= Seq::<char>::empty());
        }
        while i < s.len()
            invariant
                i <= s@.len(),
                split_on(s@.take(i as int), ',').len() >= 1,
                apps.deep_view() == fake_apps_from(split_on(s@.take(i as int), ',').drop_last()),
                cur@ == split_on(s@.take(i as int), ',').last(),
            decreases s@.len() - i,
        {
            let ghost prev = split_on(s@.take(i as int), ',');
            let ghost next = split_on(s@.take(i + 1), ',');
            assert(s@.take(i + 1).drop_last() =~= s@.take(i as int));
            assert(s@.take(i + 1).last() == s@[i as int]);
            if s[i] == ',' {
                assert(next == prev.push(Seq::<char>::empty()));
                assert(next.drop_last() =~= prev);
                match parse_fake_entry(&cur) {
                    Some(a) => {
                        apps.push(a);
                        assert(apps.deep_view() =~= fake_apps_from(prev.drop_last()).push(
                            a.deep_view(),
                        ));
                    },
                    None => {},
                }
                cur = Vec::new();
                assert(cur@ =~= next.last());
            } else {
                cur.push(s[i]);
                assert(next.drop_last() =~= prev.drop_last());
            }
            proof {
                lemma_split_on_nonempty(s@.take(i + 1), ',');
            }
            i = i + 1;
        }
        assert(s@.take(i as int) =~= s@);
        let ghost pieces = split_on(s@, ',');
        match parse_fake_entry(&cur) {
            Some(a) => {
                apps.push(a);
            },
            None => {},
        }
        assert(apps.deep_view() =~= fake_apps_from(pieces));
        if apps.len() == 0 {
            None
        } else {
            Some(apps)
        }
    }
}

} // verus!
