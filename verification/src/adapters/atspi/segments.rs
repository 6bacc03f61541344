//! Locators read as chains of segments (`window >> push button[text=Ok]`),
//! and the search of the accessibility tree for the node a chain selects.

use vstd::prelude::*;

use crate::adapters::atspi::tree::{
    copy_tree, in_children, in_subtree, lemma_below_child, opt_tree_view, tree_view, TreeNode,
    TreeView,
};
use crate::text::{
    ascii_lower, chars_of, chars_eq, contains, contains_exec, is_space, is_space_char,
    lowercase_chars, occurs_at, occurs_at_exec, string_from_chars, trim, trimmed_chars,
};

verus! {

/// One step of a locator chain: an optional role, optional exact and partial
/// text selectors, and whether the step searches all descendants (`>>`, or
/// juxtaposition) or only direct children (`>`).
#[derive(Debug)]
pub struct LocatorSegment {
    pub role: Option<String>,
    pub text_exact: Option<String>,
    pub text_contains: Option<String>,
    pub is_descendant: bool,
}

/// The value of a [`LocatorSegment`].
pub struct SegmentView {
    pub role: Option<Seq<char>>,
    pub text_exact: Option<Seq<char>>,
    pub text_contains: Option<Seq<char>>,
    pub is_descendant: bool,
}

/// The characters of an optional string.
pub open spec fn opt_chars(o: Option<String>) -> Option<Seq<char>> {
    match o {
        Some(s) => Some(s@),
        None => None,
    }
}

impl DeepView for LocatorSegment {
    type V = SegmentView;

    open spec fn deep_view(&self) -> SegmentView {
        SegmentView {
            role: opt_chars(self.role),
            text_exact: opt_chars(self.text_exact),
            text_contains: opt_chars(self.text_contains),
            is_descendant: self.is_descendant,
        }
    }
}

/// The first index from `i` on that holds no white space, or the length.
pub open spec fn skip_space(s: Seq<char>, i: int) -> int
    decreases s.len() - i,
{
    if i < s.len() && is_space(s[i]) {
        skip_space(s, i + 1)
    } else {
        i
    }
}

/// The first index from `i` on whose character is one of `stops`, or the
/// length of `s` when there is none.
pub open spec fn scan(s: Seq<char>, i: int, stops: Seq<char>) -> int
    decreases s.len() - i,
{
    if i >= s.len() {
        s.len() as int
    } else if stops.contains(s[i]) {
        i
    } else {
        scan(s, i + 1, stops)
    }
}

/// One past the `)` that brings the parenthesis depth, `depth` at index `i`,
/// back to zero; the length of `s` when no such `)` follows.
pub open spec fn paren_close(s: Seq<char>, i: int, depth: nat) -> int
    decreases s.len() - i,
{
    if i < 0 || i >= s.len() {
        s.len() as int
    } else if s[i] == '(' {
        paren_close(s, i + 1, depth + 1)
    } else if s[i] == ')' {
        if depth <= 1 {
            i + 1
        } else {
            paren_close(s, i + 1, (depth - 1) as nat)
        }
    } else {
        paren_close(s, i + 1, depth)
    }
}

/// The text selectors read from the bracketed groups that start at `i`
/// (`[text=X]`, `[text~=X]`, `[name=X]`; others are skipped), with the later
/// group winning, and the index after the last closed group. Reading stops
/// at the first `[` that no `]` closes.
pub open spec fn brackets(
    s: Seq<char>,
    i: int,
    exact: Option<Seq<char>>,
    partial: Option<Seq<char>>,
) -> (Option<Seq<char>>, Option<Seq<char>>, int)
    decreases s.len() - i,
{
    if 0 <= i < s.len() && s[i] == '[' {
        let k = scan(s, i, "]"@);
        if i < k < s.len() {
            let inside = s.subrange(i + 1, k);
            let (e, p) = if inside.len() >= 5 && inside.take(5) == "text="@ {
                (Some(inside.skip(5)), partial)
            } else if inside.len() >= 6 && inside.take(6) == "text~="@ {
                (exact, Some(inside.skip(6)))
            } else if inside.len() >= 5 && inside.take(5) == "name="@ {
                (Some(inside.skip(5)), partial)
            } else {
                (exact, partial)
            };
            brackets(s, k + 1, e, p)
        } else {
            (exact, partial, i)
        }
    } else {
        (exact, partial, i)
    }
}

/// The index after the pseudo selectors that start at `i`: `:has(...)` up to
/// its closing parenthesis, `:visible`, and any other `:name` up to the next
/// space or `>`.
pub open spec fn pseudos(s: Seq<char>, i: int) -> int
    decreases s.len() - i,
{
    if 0 <= i < s.len() && s[i] == ':' {
        let end = if occurs_at(s, ":has("@, i) {
            paren_close(s, i + 5, 1)
        } else if occurs_at(s, ":visible"@, i) {
            i + 8
        } else {
            scan(s, i, " >"@)
        };
        if i < end <= s.len() {
            pseudos(s, end)
        } else {
            i
        }
    } else {
        i
    }
}

/// The segment that starts at `i` (a character other than white space) and
/// the index after it. The first segment takes no combinator; later ones
/// take `>>` (descendants), `>` (children) or none (descendants).
pub open spec fn segment_at(s: Seq<char>, i: int, first: bool) -> (SegmentView, int) {
    let (descendant, j) = if first {
        (true, i)
    } else if occurs_at(s, ">>"@, i) {
        (true, skip_space(s, i + 2))
    } else if s[i] == '>' {
        (false, skip_space(s, i + 1))
    } else {
        (true, i)
    };
    let e = scan(s, j, "[:> "@);
    let role = if e == j {
        None
    } else {
        Some(s.subrange(j, e))
    };
    let (exact, partial, k) = brackets(s, e, None, None);
    (
        SegmentView { role, text_exact: exact, text_contains: partial, is_descendant: descendant },
        pseudos(s, k),
    )
}

/// The segments read from index `i` of `s` on; `None` when reading makes no
/// progress from some later segment on, and so would never end.
pub open spec fn segments_from(s: Seq<char>, i: int, first: bool) -> Option<Seq<SegmentView>>
    decreases s.len() - i, if first {
        1int
    } else {
        0int
    },
{
    let j = skip_space(s, i);
    if j >= s.len() {
        Some(Seq::<SegmentView>::empty())
    } else {
        let (seg, m) = segment_at(s, j, first);
        if (i < m || (first && i <= m)) && m <= s.len() {
            match segments_from(s, m, false) {
                Some(rest) => Some(seq![seg] + rest),
                None => None,
            }
        } else {
            None
        }
    }
}

/// The segments of `locator`, read from its trimmed form; `None` for the
/// locators on which reading would never end (a `[` that no `]` closes where
/// a segment should start).
pub open spec fn locator_segments(locator: Seq<char>) -> Option<Seq<SegmentView>> {
    segments_from(trim(locator), 0, true)
}


/// `prefix` followed by the segments in `rest`, if there are any.
pub open spec fn prefixed(
    prefix: Seq<SegmentView>,
    rest: Option<Seq<SegmentView>>,
) -> Option<Seq<SegmentView>> {
    match rest {
        Some(r) => Some(prefix + r),
        None => None,
    }
}

/// The string of the characters of `s` from `a` to `b`.
fn substring(s: &Vec<char>, a: usize, b: usize) -> (r: String)
    requires
        a <= b <= s@.len(),
    ensures
        r@ == s@.subrange(a as int, b as int),
{
    let mut v: Vec<char> = Vec::new();
    let mut k = a;
    while k < b
        invariant
            a <= k <= b <= s@.len(),
            v@ == s@.subrange(a as int, k as int),
        decreases b - k,
    {
        v.push(s[k]);
        assert(v@ =~= s@.subrange(a as int, k + 1));
        k = k + 1;
    }
    string_from_chars(v.as_slice())
}

/// Whether `c` is one of `set`.
fn char_in(c: char, set: &Vec<char>) -> (b: bool)
    ensures
        b == set@.contains(c),
{
    let mut k: usize = 0;
    while k < set.len()
        invariant
            k <= set@.len(),
            forall|j: int| 0 <= j < k ==> set@[j] != c,
        decreases set@.len() - k,
    {
        if set[k] == c {
            return true;
        }
        k = k + 1;
    }
    false
}

/// [`skip_space`], computed.
fn skip_space_exec(s: &Vec<char>, i: usize) -> (r: usize)
    requires
        i <= s@.len(),
    ensures
        r == skip_space(s@, i as int),
        i <= r <= s@.len(),
{
    let mut k = i;
    while k < s.len() && is_space_char(s[k])
        invariant
            i <= k <= s@.len(),
            skip_space(s@, i as int) == skip_space(s@, k as int),
        decreases s@.len() - k,
    {
        k = k + 1;
    }
    k
}

/// [`scan`], computed.
fn scan_exec(s: &Vec<char>, i: usize, stops: &Vec<char>) -> (r: usize)
    requires
        i <= s@.len(),
    ensures
        r == scan(s@, i as int, stops@),
        i <= r <= s@.len(),
        r < s@.len() ==> stops@.contains(s@[r as int]),
{
    let mut k = i;
    while k < s.len() && !char_in(s[k], stops)
        invariant
            i <= k <= s@.len(),
            scan(s@, i as int, stops@) == scan(s@, k as int, stops@),
        decreases s@.len() - k,
    {
        k = k + 1;
    }
    k
}

/// [`paren_close`] from depth one, computed.
fn paren_close_exec(s: &Vec<char>, i: usize) -> (r: usize)
    requires
        i <= s@.len(),
    ensures
        r == paren_close(s@, i as int, 1),
        i <= r <= s@.len(),
{
    let mut k = i;
    let mut depth: u128 = 1;
    loop
        invariant
            i <= k <= s@.len(),
            1 <= depth <= 1 + (k - i),
            paren_close(s@, i as int, 1) == paren_close(s@, k as int, depth as nat),
        decreases s@.len() - k,
    {
        if k >= s.len() {
            return k;
        }
        let c = s[k];
        if c == '(' {
            depth = depth + 1;
        } else if c == ')' {
            if depth <= 1 {
                return k + 1;
            }
            depth = depth - 1;
        }
        k = k + 1;
    }
}

/// [`brackets`] from index `i` with no selector read yet, computed.
fn brackets_exec(s: &Vec<char>, i: usize) -> (r: (Option<String>, Option<String>, usize))
    requires
        i <= s@.len(),
    ensures
        brackets(s@, i as int, None, None) == (opt_chars(r.0), opt_chars(r.1), r.2 as int),
        i <= r.2 <= s@.len(),
{
    let close_set = chars_of("]");
    let text_eq = chars_of("text=");
    let text_like = chars_of("text~=");
    let name_eq = chars_of("name=");
    proof {
        reveal_strlit("]");
        reveal_strlit("text=");
        reveal_strlit("text~=");
        reveal_strlit("name=");
    }
    let mut exact: Option<String> = None;
    let mut partial: Option<String> = None;
    let mut k = i;
    loop
        invariant
            i <= k <= s@.len(),
            close_set@ == "]"@,
            text_eq@ == "text="@,
            text_like@ == "text~="@,
            name_eq@ == "name="@,
            "]"@ == seq![']'],
            "text="@.len() == 5,
            "text~="@.len() == 6,
            "name="@.len() == 5,
            brackets(s@, i as int, None, None) == brackets(
                s@,
                k as int,
                opt_chars(exact),
                opt_chars(partial),
            ),
        decreases s@.len() - k,
    {
        if !(k < s.len() && s[k] == '[') {
            return (exact, partial, k);
        }
        let close = scan_exec(s, k, &close_set);
        if close >= s.len() {
            return (exact, partial, k);
        }
        assert(close != k) by {
            assert(!"]"@.contains('['));
        }
        let ghost inside = s@.subrange(k + 1, close as int);
        let width = close - (k + 1);
        assert(width >= 5 ==> inside.take(5) =~= s@.subrange(k + 1, k + 6));
        assert(width >= 6 ==> inside.take(6) =~= s@.subrange(k + 1, k + 7));
        assert(width >= 5 ==> inside.skip(5) =~= s@.subrange(k + 6, close as int));
        assert(width >= 6 ==> inside.skip(6) =~= s@.subrange(k + 7, close as int));
        if width >= 5 && occurs_at_exec(s, &text_eq, k + 1) {
            exact = Some(substring(s, k + 6, close));
        } else if width >= 6 && occurs_at_exec(s, &text_like, k + 1) {
            partial = Some(substring(s, k + 7, close));
        } else if width >= 5 && occurs_at_exec(s, &name_eq, k + 1) {
            exact = Some(substring(s, k + 6, close));
        }
        k = close + 1;
    }
}

/// [`pseudos`], computed.
fn pseudos_exec(s: &Vec<char>, i: usize) -> (r: usize)
    requires
        i <= s@.len(),
    ensures
        r == pseudos(s@, i as int),
        i <= r <= s@.len(),
{
    let has = chars_of(":has(");
    let visible = chars_of(":visible");
    let stops = chars_of(" >");
    proof {
        reveal_strlit(":has(");
        reveal_strlit(":visible");
    }
    let mut k = i;
    loop
        invariant
            i <= k <= s@.len(),
            has@ == ":has("@,
            visible@ == ":visible"@,
            stops@ == " >"@,
            ":has("@.len() == 5,
            ":visible"@.len() == 8,
            pseudos(s@, i as int) == pseudos(s@, k as int),
        decreases s@.len() - k,
    {
        if !(k < s.len() && s[k] == ':') {
            return k;
        }
        let end = if occurs_at_exec(s, &has, k) {
            paren_close_exec(s, k + 5)
        } else if occurs_at_exec(s, &visible, k) {
            k + 8
        } else {
            scan_exec(s, k, &stops)
        };
        if !(k < end && end <= s.len()) {
            return k;
        }
        k = end;
    }
}

/// [`segment_at`], computed.
fn segment_exec(s: &Vec<char>, i: usize, first: bool) -> (r: (LocatorSegment, usize))
    requires
        i < s@.len(),
    ensures
        r.0.deep_view() == segment_at(s@, i as int, first).0,
        r.1 == segment_at(s@, i as int, first).1,
        i <= r.1 <= s@.len(),
{
    let n = s.len();
    let double = chars_of(">>");
    let role_stops = chars_of("[:> ");
    proof {
        reveal_strlit(">>");
    }
    assert(double@.len() == 2);
    let (descendant, j) = if first {
        (true, i)
    } else if occurs_at_exec(s, &double, i) {
        (true, skip_space_exec(s, i + 2))
    } else if s[i] == '>' {
        (false, skip_space_exec(s, i + 1))
    } else {
        (true, i)
    };
    let e = scan_exec(s, j, &role_stops);
    let role = if e == j {
        None
    } else {
        Some(substring(s, j, e))
    };
    let (exact, partial, k) = brackets_exec(s, e);
    let m = pseudos_exec(s, k);
    (LocatorSegment { role, text_exact: exact, text_contains: partial, is_descendant: descendant }, m)
}

/// The segments of `locator`, as [`locator_segments`] says; `None` for the
/// locators on which reading segments would never end.
pub fn try_parse_locator_segments(locator: &str) -> (r: Option<Vec<LocatorSegment>>)
    ensures
        match r {
            Some(v) => locator_segments(locator@) == Some(v.deep_view()),
            None => locator_segments(locator@) is None,
        },
{
    let s = trimmed_chars(&chars_of(locator));
    let mut out: Vec<LocatorSegment> = Vec::new();
    let mut i: usize = 0;
    let mut first = true;
    assert(out.deep_view() + Seq::<SegmentView>::empty() =~= Seq::<SegmentView>::empty());
    loop
        invariant
            i <= s@.len(),
            s@ == trim(locator@),
            locator_segments(locator@) == prefixed(
                out.deep_view(),
                segments_from(s@, i as int, first),
            ),
        decreases (s@.len() - i) * 2 + if first {
            1int
        } else {
            0int
        },
    {
        let j = skip_space_exec(&s, i);
        if j >= s.len() {
            assert(out.deep_view() + Seq::<SegmentView>::empty() =~= out.deep_view());
            return Some(out);
        }
        let (seg, m) = segment_exec(&s, j, first);
        if !((i < m || (first && i <= m)) && m <= s.len()) {
            return None;
        }
        let ghost before = out.deep_view();
        out.push(seg);
        proof {
            match segments_from(s@, m as int, false) {
                Some(rest) => {
                    assert(before + (seq![seg.deep_view()] + rest) =~= out.deep_view() + rest);
                },
                None => {},
            }
        }
        i = m;
        first = false;
    }
}

/// The segments of `locator`, as [`locator_segments`] says, for a locator
/// on which reading them ends.
pub fn parse_locator_segments(locator: &str) -> (v: Vec<LocatorSegment>)
    requires
        locator_segments(locator@) is Some,
    ensures
        locator_segments(locator@) == Some(v.deep_view()),
{
    match try_parse_locator_segments(locator) {
        Some(v) => v,
        None => Vec::new(),
    }
}


/// Whether `a` and `b` are equal when ASCII case is ignored.
pub open spec fn eq_ignore_case(a: Seq<char>, b: Seq<char>) -> bool {
    ascii_lower(a) == ascii_lower(b)
}

/// `s` without its white-space characters.
pub open spec fn without_spaces(s: Seq<char>) -> Seq<char>
    decreases s.len(),
{
    if s.len() == 0 {
        Seq::<char>::empty()
    } else {
        let before = without_spaces(s.drop_last());
        if is_space(s.last()) {
            before
        } else {
            before.push(s.last())
        }
    }
}

/// Whether a node with role `role` has the role a segment asks for: any role
/// when it asks for none or for `root`, else the same role up to ASCII case,
/// with or without the spaces in the node's role (`pushbutton` matches
/// `push button`).
pub open spec fn role_matches(wanted: Option<Seq<char>>, role: Seq<char>) -> bool {
    match wanted {
        None => true,
        Some(w) => w == "root"@ || eq_ignore_case(role, w) || eq_ignore_case(
            without_spaces(role),
            w,
        ),
    }
}

/// Whether `node` satisfies the role and text selectors of `seg`.
pub open spec fn segment_matches(seg: SegmentView, node: TreeNode) -> bool {
    &&& role_matches(seg.role, node.role@)
    &&& (seg.text_exact matches Some(e) ==> node.name@ == e)
    &&& (seg.text_contains matches Some(c) ==> contains(node.name@, c))
}

/// The first node, in depth-first order from `node`, at which the chain
/// `segs` completes, starting with segment `idx`; `node` itself is tried
/// against that segment only when `check_self` holds.
pub open spec fn match_from(
    node: TreeNode,
    segs: Seq<SegmentView>,
    idx: int,
    check_self: bool,
) -> Option<TreeView>
    decreases node, node.children@.len() + 1,
{
    if 0 <= idx < segs.len() {
        let hit = if check_self && segment_matches(segs[idx], node) {
            if idx == segs.len() - 1 {
                Some(tree_view(node))
            } else {
                next_among(node, segs, idx, 0)
            }
        } else {
            None
        };
        if hit is Some {
            hit
        } else if segs[idx].is_descendant || !check_self {
            same_among(node, segs, idx, 0)
        } else {
            None
        }
    } else {
        None
    }
}

/// The first completion of the chain at segment `idx + 1` among the children
/// of `node` from index `j` on, after `node` matched segment `idx`.
pub open spec fn next_among(node: TreeNode, segs: Seq<SegmentView>, idx: int, j: int) -> Option<
    TreeView,
>
    decreases node, node.children@.len() - j,
{
    if 0 <= j < node.children@.len() && 0 <= idx + 1 < segs.len() {
        let child = node.children@[j];
        let found = if segs[idx + 1].is_descendant {
            match_from(child, segs, idx + 1, true)
        } else if segment_matches(segs[idx + 1], child) {
            if idx + 1 == segs.len() - 1 {
                Some(tree_view(child))
            } else {
                match_from(child, segs, idx + 1, true)
            }
        } else {
            None
        };
        if found is Some {
            found
        } else {
            next_among(node, segs, idx, j + 1)
        }
    } else {
        None
    }
}

/// The first completion of the chain at segment `idx` in the subtrees of the
/// children of `node` from index `j` on.
pub open spec fn same_among(node: TreeNode, segs: Seq<SegmentView>, idx: int, j: int) -> Option<
    TreeView,
>
    decreases node, node.children@.len() - j,
{
    if 0 <= j < node.children@.len() {
        let found = match_from(node.children@[j], segs, idx, true);
        if found is Some {
            found
        } else {
            same_among(node, segs, idx, j + 1)
        }
    } else {
        None
    }
}

/// Whether a search from `root` for the chain `segs` found, if anything, the
/// value of a node of `root`'s tree that satisfies the last segment; a node
/// below `root`, unless `self_allowed`.
pub open spec fn found_in(
    root: TreeNode,
    segs: Seq<SegmentView>,
    found: Option<TreeView>,
    self_allowed: bool,
) -> bool {
    found matches Some(v) ==> exists|n: TreeNode|
        #[trigger] in_subtree(n, root) && (self_allowed || in_children(n, root, 0)) && tree_view(
            n,
        ) == v && segment_matches(segs.last(), n)
}

/// A result found in the tree of a child is found in the tree of its parent.
proof fn lemma_found_in_parent(
    root: TreeNode,
    j: int,
    segs: Seq<SegmentView>,
    found: Option<TreeView>,
)
    requires
        0 <= j < root.children@.len(),
        found_in(root.children@[j], segs, found, true),
    ensures
        found_in(root, segs, found, false),
{
    if let Some(v) = found {
        let n = choose|n: TreeNode|
            #[trigger] in_subtree(n, root.children@[j]) && tree_view(n) == v && segment_matches(
                segs.last(),
                n,
            );
        lemma_below_child(n, root, 0, j);
        assert(in_subtree(n, root));
    }
}

/// The node a chain of segments selects lies in the searched tree, below its
/// root unless the root itself is tried (`check_self`), and satisfies the
/// last segment of the chain.
pub proof fn lemma_match_found_in_tree(
    node: TreeNode,
    segs: Seq<SegmentView>,
    idx: int,
    check_self: bool,
)
    ensures
        found_in(node, segs, match_from(node, segs, idx, check_self), check_self),
    decreases node, node.children@.len() + 1,
{
    if 0 <= idx < segs.len() {
        if check_self && segment_matches(segs[idx], node) {
            if idx == segs.len() - 1 {
                assert(in_subtree(node, node));
            } else {
                lemma_next_among_found_in_tree(node, segs, idx, 0);
            }
        }
        lemma_same_among_found_in_tree(node, segs, idx, 0);
    }
}

proof fn lemma_next_among_found_in_tree(
    node: TreeNode,
    segs: Seq<SegmentView>,
    idx: int,
    j: int,
)
    ensures
        found_in(node, segs, next_among(node, segs, idx, j), false),
    decreases node, node.children@.len() - j,
{
    if 0 <= j < node.children@.len() && 0 <= idx + 1 < segs.len() {
        let child = node.children@[j];
        lemma_match_found_in_tree(child, segs, idx + 1, true);
        lemma_found_in_parent(node, j, segs, match_from(child, segs, idx + 1, true));
        if !segs[idx + 1].is_descendant && segment_matches(segs[idx + 1], child) && idx + 1
            == segs.len() - 1 {
            assert(in_subtree(child, child));
            lemma_found_in_parent(node, j, segs, Some(tree_view(child)));
        }
        lemma_next_among_found_in_tree(node, segs, idx, j + 1);
    }
}

proof fn lemma_same_among_found_in_tree(
    node: TreeNode,
    segs: Seq<SegmentView>,
    idx: int,
    j: int,
)
    ensures
        found_in(node, segs, same_among(node, segs, idx, j), false),
    decreases node, node.children@.len() - j,
{
    if 0 <= j < node.children@.len() {
        lemma_match_found_in_tree(node.children@[j], segs, idx, true);
        lemma_found_in_parent(node, j, segs, match_from(node.children@[j], segs, idx, true));
        lemma_same_among_found_in_tree(node, segs, idx, j + 1);
    }
}

/// The nodes of the tree under `node`, `node` first, then the nodes under
/// each child in the order the children are listed (depth-first pre-order).
pub open spec fn preorder(node: TreeNode) -> Seq<TreeNode>
    decreases node, node.children@.len() + 1,
{
    seq![node] + preorder_from(node, 0)
}

/// The nodes under the children of `node` from index `i` on, in depth-first
/// pre-order.
pub open spec fn preorder_from(node: TreeNode, i: int) -> Seq<TreeNode>
    decreases node, node.children@.len() - i,
{
    if 0 <= i < node.children@.len() {
        preorder(node.children@[i]) + preorder_from(node, i + 1)
    } else {
        Seq::<TreeNode>::empty()
    }
}

/// The value of the first of `nodes` that satisfies `seg`, if any.
pub open spec fn first_satisfying(nodes: Seq<TreeNode>, seg: SegmentView) -> Option<TreeView>
    decreases nodes.len(),
{
    if nodes.len() == 0 {
        None
    } else if segment_matches(seg, nodes[0]) {
        Some(tree_view(nodes[0]))
    } else {
        first_satisfying(nodes.drop_first(), seg)
    }
}

/// The first node satisfying `seg` in `a + b` is the first in `a`, or else
/// the first in `b`.
proof fn lemma_first_satisfying_concat(a: Seq<TreeNode>, b: Seq<TreeNode>, seg: SegmentView)
    ensures
        first_satisfying(a + b, seg) == (if first_satisfying(a, seg) is Some {
            first_satisfying(a, seg)
        } else {
            first_satisfying(b, seg)
        }),
    decreases a.len(),
{
    if a.len() > 0 {
        assert((a + b)[0] == a[0]);
        assert((a + b).drop_first() =~= a.drop_first() + b);
        lemma_first_satisfying_concat(a.drop_first(), b, seg);
    } else {
        assert(a + b =~= b);
    }
}

/// The last segment of a chain, when it searches descendants, selects the
/// first node satisfying it in depth-first pre-order, with children visited
/// in the order they are listed: `node` itself first when it is tried
/// (`check_self`), then the nodes below it. A one-segment chain is the case
/// `idx == 0`.
pub proof fn lemma_last_segment_first_in_preorder(
    node: TreeNode,
    segs: Seq<SegmentView>,
    idx: int,
    check_self: bool,
)
    requires
        0 <= idx == segs.len() - 1,
        segs[idx].is_descendant,
    ensures
        match_from(node, segs, idx, check_self) == first_satisfying(
            if check_self {
                preorder(node)
            } else {
                preorder_from(node, 0)
            },
            segs[idx],
        ),
    decreases node, node.children@.len() + 1,
{
    lemma_last_segment_among(node, segs, idx, 0);
    if check_self {
        assert(preorder(node)[0] == node);
        assert(preorder(node).drop_first() =~= preorder_from(node, 0));
    }
}

/// [`lemma_last_segment_first_in_preorder`] for the children of `node` from
/// index `j` on.
proof fn lemma_last_segment_among(node: TreeNode, segs: Seq<SegmentView>, idx: int, j: int)
    requires
        0 <= idx == segs.len() - 1,
        segs[idx].is_descendant,
    ensures
        same_among(node, segs, idx, j) == first_satisfying(preorder_from(node, j), segs[idx]),
    decreases node, node.children@.len() - j,
{
    if 0 <= j < node.children@.len() {
        let child = node.children@[j];
        lemma_last_segment_first_in_preorder(child, segs, idx, true);
        lemma_last_segment_among(node, segs, idx, j + 1);
        lemma_first_satisfying_concat(preorder(child), preorder_from(node, j + 1), segs[idx]);
    }
}

/// After `node` matched the next-to-last segment of a chain, the chain ends
/// at the first node satisfying the last segment, in the order the children
/// are listed: among the direct children from index `j` on for `>`, and in
/// depth-first pre-order below them for `>>`.
pub proof fn lemma_next_segment_first_in_order(
    node: TreeNode,
    segs: Seq<SegmentView>,
    idx: int,
    j: int,
)
    requires
        0 <= idx,
        idx + 1 == segs.len() - 1,
        0 <= j <= node.children@.len(),
    ensures
        next_among(node, segs, idx, j) == first_satisfying(
            if segs[idx + 1].is_descendant {
                preorder_from(node, j)
            } else {
                node.children@.subrange(j, node.children@.len() as int)
            },
            segs[idx + 1],
        ),
    decreases node.children@.len() - j,
{
    let rest = node.children@.subrange(j, node.children@.len() as int);
    if j < node.children@.len() {
        let child = node.children@[j];
        lemma_next_segment_first_in_order(node, segs, idx, j + 1);
        if segs[idx + 1].is_descendant {
            lemma_last_segment_first_in_preorder(child, segs, idx + 1, true);
            lemma_first_satisfying_concat(preorder(child), preorder_from(node, j + 1), segs[idx + 1]);
        } else {
            assert(rest[0] == child);
            assert(rest.drop_first() =~= node.children@.subrange(j + 1, node.children@.len() as int));
        }
    } else {
        assert(rest.len() == 0);
    }
}

/// Whether `a` and `b` are equal when ASCII case is ignored.
fn eq_ignore_case_exec(a: &Vec<char>, b: &Vec<char>) -> (r: bool)
    ensures
        r == eq_ignore_case(a@, b@),
{
    chars_eq(&lowercase_chars(a), &lowercase_chars(b))
}

/// The characters of `s` that are not white space.
fn without_spaces_exec(s: &Vec<char>) -> (r: Vec<char>)
    ensures
        r@ == without_spaces(s@),
{
    let mut r: Vec<char> = Vec::new();
    let mut i: usize = 0;
    while i < s.len()
        invariant
            i <= s@.len(),
            r@ == without_spaces(s@.take(i as int)),
        decreases s@.len() - i,
    {
        assert(s@.take(i + 1).drop_last() =~= s@.take(i as int));
        if !is_space_char(s[i]) {
            r.push(s[i]);
        }
        i = i + 1;
    }
    assert(s@.take(i as int) =~= s@);
    r
}

impl LocatorSegment {
    /// Whether `node` satisfies this segment's role and text selectors.
    pub fn matches_node(&self, node: &TreeNode) -> (b: bool)
        ensures
            b == segment_matches(self.deep_view(), *node),
    {
        match &self.role {
            Some(role) => {
                let wanted = chars_of(role.as_str());
                let have = chars_of(node.role.as_str());
                if !chars_eq(&wanted, &chars_of("root")) && !eq_ignore_case_exec(&have, &wanted) {
                    let compact = without_spaces_exec(&have);
                    if !eq_ignore_case_exec(&compact, &wanted) {
                        return false;
                    }
                }
            },
            None => {},
        }
        let name = chars_of(node.name.as_str());
        match &self.text_exact {
            Some(exact) => {
                if !chars_eq(&name, &chars_of(exact.as_str())) {
                    return false;
                }
            },
            None => {},
        }
        match &self.text_contains {
            Some(part) => {
                if !contains_exec(&name, &chars_of(part.as_str())) {
                    return false;
                }
            },
            None => {},
        }
        true
    }
}

/// The node at which the chain `segments` completes, searched from `node` in
/// depth-first order from segment `seg_idx` on, as [`match_from`] says.
pub fn match_segments(
    node: &TreeNode,
    segments: &Vec<LocatorSegment>,
    seg_idx: usize,
    check_self: bool,
) -> (r: Option<TreeNode>)
    ensures
        opt_tree_view(r) == match_from(*node, segments.deep_view(), seg_idx as int, check_self),
    decreases node,
{
    let ghost segs = segments.deep_view();
    if seg_idx >= segments.len() {
        return None;
    }
    let last_idx = segments.len() - 1;
    let segment = &segments[seg_idx];
    assert(segs[seg_idx as int] == segment.deep_view());
    if check_self && segment.matches_node(node) {
        if seg_idx == last_idx {
            return Some(copy_tree(node));
        }
        let next_idx = seg_idx + 1;
        let next = &segments[next_idx];
        assert(segs[next_idx as int] == next.deep_view());
        let mut j: usize = 0;
        while j < node.children.len()
            invariant
                next_idx == seg_idx + 1,
                next_idx <= last_idx,
                last_idx == segments@.len() - 1,
                segs == segments.deep_view(),
                segs[next_idx as int] == next.deep_view(),
                check_self,
                segment_matches(segs[seg_idx as int], *node),
                j <= node.children@.len(),
                next_among(*node, segs, seg_idx as int, 0) == next_among(
                    *node,
                    segs,
                    seg_idx as int,
                    j as int,
                ),
            decreases node.children@.len() - j,
        {
            let child = &node.children[j];
            if next.is_descendant {
                let found = match_segments(child, segments, next_idx, true);
                if found.is_some() {
                    return found;
                }
            } else if next.matches_node(child) {
                if next_idx == last_idx {
                    return Some(copy_tree(child));
                }
                let found = match_segments(child, segments, next_idx, true);
                if found.is_some() {
                    return found;
                }
            }
            j = j + 1;
        }
    }
    if segment.is_descendant || !check_self {
        assert(match_from(*node, segs, seg_idx as int, check_self) == same_among(
            *node,
            segs,
            seg_idx as int,
            0,
        ));
        let mut j: usize = 0;
        while j < node.children.len()
            invariant
                seg_idx < segments@.len(),
                segs == segments.deep_view(),
                j <= node.children@.len(),
                match_from(*node, segs, seg_idx as int, check_self) == same_among(
                    *node,
                    segs,
                    seg_idx as int,
                    0,
                ),
                same_among(*node, segs, seg_idx as int, 0) == same_among(
                    *node,
                    segs,
                    seg_idx as int,
                    j as int,
                ),
            decreases node.children@.len() - j,
        {
            let found = match_segments(&node.children[j], segments, seg_idx, true);
            if found.is_some() {
                return found;
            }
            j = j + 1;
        }
    }
    None
}

/// Whether the segments are the single plain segment `root`, which selects
/// the application's root node itself.
pub open spec fn root_query(segs: Seq<SegmentView>) -> bool {
    &&& segs.len() == 1
    &&& segs[0].role == Some("root"@)
    &&& segs[0].text_exact is None
    &&& segs[0].text_contains is None
}

/// Whether `segments` is the single plain segment `root`, as [`root_query`]
/// says.
pub fn is_root_query(segments: &Vec<LocatorSegment>) -> (b: bool)
    ensures
        b == root_query(segments.deep_view()),
{
    if segments.len() != 1 {
        return false;
    }
    let seg = &segments[0];
    assert(segments.deep_view()[0] == seg.deep_view());
    let role_is_root = match &seg.role {
        Some(r) => crate::text::str_eq(r.as_str(), "root"),
        None => false,
    };
    role_is_root && seg.text_exact.is_none() && seg.text_contains.is_none()
}

/// How a chain of segments is looked up in an application's tree.
pub enum NodeQuery {
    /// The chain is empty: it selects nothing.
    Nothing,
    /// The chain is `root`: it selects the application's root node.
    Root,
    /// Any other chain: the tree is searched for it.
    Search(Vec<LocatorSegment>),
}

/// The lookup that the chain `segments` calls for: nothing for no
/// segments, the root for the plain segment `root`, and a search of the
/// tree with the same segments otherwise.
pub fn plan_node_query(segments: Vec<LocatorSegment>) -> (q: NodeQuery)
    ensures
        segments@.len() == 0 ==> q is Nothing,
        segments@.len() > 0 && root_query(segments.deep_view()) ==> q is Root,
        segments@.len() > 0 && !root_query(segments.deep_view()) ==> (q matches NodeQuery::Search(
            v,
        ) && v.deep_view() == segments.deep_view()),
{
    if segments.len() == 0 {
        NodeQuery::Nothing
    } else if is_root_query(&segments) {
        NodeQuery::Root
    } else {
        NodeQuery::Search(segments)
    }
}

} // verus!
