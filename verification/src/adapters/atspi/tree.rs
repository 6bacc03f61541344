//! The accessibility tree as plain values, the readable names of roles, and
//! what the tree says about sensitive content.

use vstd::prelude::*;

use crate::adapters::atspi::query::{looks_sensitive, AtspiQuery};
use crate::domain::model::{NodeDescriptor, NodeView};
use crate::text::{
    ascii_lower, ascii_lower_char, chars_of, lower_char, str_eq, string_from_chars,
    to_ascii_lowercase,
};

verus! {

/// A node of the accessibility tree: its role and name as the bus reports
/// them, its optional description, the names of its states, its children,
/// and where the node lives on the bus.
#[derive(Debug)]
pub struct TreeNode {
    pub role: String,
    pub name: String,
    pub description: Option<String>,
    pub states: Vec<String>,
    pub children: Vec<TreeNode>,
    pub bus_name: String,
    pub object_path: String,
}

/// The value of a [`TreeNode`], children included.
pub struct TreeView {
    pub role: Seq<char>,
    pub name: Seq<char>,
    pub description: Option<Seq<char>>,
    pub states: Seq<Seq<char>>,
    pub children: Seq<TreeView>,
    pub bus_name: Seq<char>,
    pub object_path: Seq<char>,
}

/// The value of `node`.
pub open spec fn tree_view(node: TreeNode) -> TreeView
    decreases node, node.children@.len() + 1,
{
    TreeView {
        role: node.role@,
        name: node.name@,
        description: match node.description {
            Some(d) => Some(d@),
            None => None,
        },
        states: node.states@.map_values(|s: String| s@),
        children: child_views(node, node.children@.len() as int),
        bus_name: node.bus_name@,
        object_path: node.object_path@,
    }
}

/// The values of the first `n` children of `node`.
pub open spec fn child_views(node: TreeNode, n: int) -> Seq<TreeView>
    decreases node, n,
{
    if 0 < n <= node.children@.len() {
        child_views(node, n - 1).push(tree_view(node.children@[n - 1]))
    } else {
        Seq::<TreeView>::empty()
    }
}

/// The value of an optional node.
pub open spec fn opt_tree_view(node: Option<TreeNode>) -> Option<TreeView> {
    match node {
        Some(n) => Some(tree_view(n)),
        None => None,
    }
}

/// Nodes whose children have equal values, pairwise, have equal lists of
/// child values.
proof fn lemma_child_views_agree(a: TreeNode, b: TreeNode, n: int)
    requires
        a.children@.len() == b.children@.len(),
        0 <= n <= a.children@.len(),
        forall|k: int|
            0 <= k < n ==> tree_view(#[trigger] a.children@[k]) == tree_view(b.children@[k]),
    ensures
        child_views(a, n) == child_views(b, n),
    decreases n,
{
    if n > 0 {
        lemma_child_views_agree(a, b, n - 1);
    }
}

/// A copy of `node` with the same value.
pub fn copy_tree(node: &TreeNode) -> (r: TreeNode)
    ensures
        tree_view(r) == tree_view(*node),
    decreases node,
{
    let mut states: Vec<String> = Vec::new();
    let mut i: usize = 0;
    while i < node.states.len()
        invariant
            i <= node.states@.len(),
            states@ == node.states@.take(i as int),
        decreases node.states@.len() - i,
    {
        states.push(node.states[i].clone());
        assert(states@ =~= node.states@.take(i + 1));
        i = i + 1;
    }
    assert(states@ =~= node.states@);
    let mut children: Vec<TreeNode> = Vec::new();
    let mut j: usize = 0;
    while j < node.children.len()
        invariant
            j <= node.children@.len(),
            children@.len() == j,
            forall|k: int|
                0 <= k < j ==> tree_view(#[trigger] children@[k]) == tree_view(
                    node.children@[k],
                ),
        decreases node.children@.len() - j,
    {
        let c = copy_tree(&node.children[j]);
        children.push(c);
        j = j + 1;
    }
    let description = match &node.description {
        Some(d) => Some(d.clone()),
        None => None,
    };
    let r = TreeNode {
        role: node.role.clone(),
        name: node.name.clone(),
        description,
        states,
        children,
        bus_name: node.bus_name.clone(),
        object_path: node.object_path.clone(),
    };
    proof {
        lemma_child_views_agree(r, *node, node.children@.len() as int);
        assert(r.states@.map_values(|s: String| s@) =~= node.states@.map_values(|s: String| s@));
    }
    r
}

impl Clone for TreeNode {
    fn clone(&self) -> (r: Self)
        ensures
            tree_view(r) == tree_view(*self),
    {
        copy_tree(self)
    }
}

/// Whether the node has a state called `state`.
pub open spec fn has_state(node: TreeNode, state: Seq<char>) -> bool {
    exists|i: int| 0 <= i < node.states@.len() && (#[trigger] node.states@[i])@ == state
}

/// Whether the node itself holds secret content: it is in the `sensitive`
/// state, its role is `password text`, or its name looks like a secret.
pub open spec fn node_sensitive(node: TreeNode) -> bool {
    ||| has_state(node, "sensitive"@)
    ||| node.role@ == "password text"@
    ||| looks_sensitive(node.name@)
}

/// `name` with a space before each ASCII capital that does not start it, and
/// ASCII letters in lower case: `PushButton` reads `push button`.
pub open spec fn humanized(name: Seq<char>) -> Seq<char>
    decreases name.len(),
{
    if name.len() == 0 {
        Seq::<char>::empty()
    } else {
        let before = humanized(name.drop_last());
        let c = name.last();
        let spaced = if 'A' <= c && c <= 'Z' && before.len() > 0 {
            before.push(' ')
        } else {
            before
        };
        spaced.push(ascii_lower_char(c))
    }
}

/// The name of the role variant with the given number, as `Debug` prints
/// it (`PushButton` for number 42); `None` for a number that names no role.
pub uninterp spec fn role_variant_name(code: u32) -> Option<Seq<char>>;

/// The `Debug` name of the role with number `code`.
///
/// Trusted: calls `atspi::Role::try_from(u32)` and formats the role with
/// `Debug`. The contract claims that the result is the role's variant name,
/// that it exists exactly for the numbers 0 to 129, which `try_from` maps to
/// roles, and that it depends on `code` alone.
#[verifier::external_body]
fn role_debug_name(code: u32) -> (r: Option<String>)
    ensures
        r is Some <==> code <= 129,
        match r {
            Some(s) => role_variant_name(code) == Some(s@),
            None => role_variant_name(code) is None,
        },
{
    match ::atspi::Role::try_from(code) {
        Ok(role) => Some(format!("{role:?}")),
        Err(_) => None,
    }
}

/// The readable form of a role's `Debug` name, as [`humanized`] says.
pub fn humanize_role_name(name: &str) -> (r: String)
    ensures
        r@ == humanized(name@),
{
    let s = chars_of(name);
    let mut out: Vec<char> = Vec::new();
    let mut i: usize = 0;
    while i < s.len()
        invariant
            i <= s@.len(),
            out@ == humanized(s@.take(i as int)),
            out@.len() == 0 <==> i == 0,
        decreases s@.len() - i,
    {
        let c = s[i];
        assert(s@.take(i + 1).drop_last() =~= s@.take(i as int));
        if 'A' <= c && c <= 'Z' && out.len() > 0 {
            out.push(' ');
        }
        out.push(lower_char(c));
        i = i + 1;
    }
    assert(s@.take(i as int) =~= s@);
    string_from_chars(out.as_slice())
}

/// The readable name of the role with number `code` (`push button` for
/// `PushButton`); `None` for a number that names no role.
pub fn format_role(code: u32) -> (r: Option<String>)
    ensures
        r is Some <==> code <= 129,
        match r {
            Some(s) => exists|n: Seq<char>|
                role_variant_name(code) == Some(n) && s@ == humanized(n),
            None => role_variant_name(code) is None,
        },
{
    match role_debug_name(code) {
        Some(name) => Some(humanize_role_name(name.as_str())),
        None => None,
    }
}

/// Whether the node has a state called `state`.
fn node_has_state(node: &TreeNode, state: &str) -> (b: bool)
    ensures
        b == has_state(*node, state@),
{
    let mut i: usize = 0;
    while i < node.states.len()
        invariant
            i <= node.states@.len(),
            forall|k: int| 0 <= k < i ==> (#[trigger] node.states@[k])@ != state@,
        decreases node.states@.len() - i,
    {
        if str_eq(node.states[i].as_str(), state) {
            return true;
        }
        i = i + 1;
    }
    false
}

impl TreeNode {
    /// Whether this node holds secret content, as [`node_sensitive`] says.
    pub fn is_sensitive(&self) -> (b: bool)
        ensures
            b == node_sensitive(*self),
    {
        node_has_state(self, "sensitive") || str_eq(self.role.as_str(), "password text")
            || AtspiQuery::locator_looks_sensitive(self.name.as_str())
    }

    /// The description of this node as found by `locator`: its name as text
    /// (none when the name is empty), sensitive as [`node_sensitive`] says,
    /// and visible when it is in the `visible` or `showing` state.
    pub fn to_node_descriptor(&self, locator: &str) -> (d: NodeDescriptor)
        ensures
            d.deep_view() == (NodeView {
                locator: locator@,
                text: if self.name@.len() == 0 {
                    None
                } else {
                    Some(self.name@)
                },
                visible: has_state(*self, "visible"@) || has_state(*self, "showing"@),
                sensitive: node_sensitive(*self),
            }),
    {
        let mut desc = NodeDescriptor::new(locator);
        desc.text = if self.name.as_str().is_empty() {
            None
        } else {
            Some(self.name.clone())
        };
        desc.sensitive = self.is_sensitive();
        desc.visible = node_has_state(self, "visible") || node_has_state(self, "showing");
        desc
    }
}

/// Whether `n` is `root` or lies below it, judged by value.
pub open spec fn in_subtree(n: TreeNode, root: TreeNode) -> bool
    decreases root, root.children@.len() + 1,
{
    tree_view(n) == tree_view(root) || in_children(n, root, 0)
}

/// Whether `n` lies in the subtree of one of the children of `root` from
/// index `i` on.
pub open spec fn in_children(n: TreeNode, root: TreeNode, i: int) -> bool
    decreases root, root.children@.len() - i,
{
    if 0 <= i < root.children@.len() {
        in_subtree(n, root.children@[i]) || in_children(n, root, i + 1)
    } else {
        false
    }
}

/// What lies below a child lies below its parent.
pub proof fn lemma_below_child(n: TreeNode, root: TreeNode, i: int, j: int)
    requires
        0 <= i <= j < root.children@.len(),
        in_subtree(n, root.children@[j]),
    ensures
        in_children(n, root, i),
    decreases j - i,
{
    if i < j {
        lemma_below_child(n, root, i + 1, j);
    }
}

/// Whether `node` or a node anywhere below it holds secret content.
pub open spec fn subtree_sensitive(node: TreeNode) -> bool
    decreases node, node.children@.len() + 1,
{
    node_sensitive(node) || children_sensitive(node, 0)
}

/// Whether the subtree of one of the children of `node` from index `i` on
/// holds secret content.
pub open spec fn children_sensitive(node: TreeNode, i: int) -> bool
    decreases node, node.children@.len() - i,
{
    if 0 <= i < node.children@.len() {
        subtree_sensitive(node.children@[i]) || children_sensitive(node, i + 1)
    } else {
        false
    }
}

/// Whether `node` or any node below it, at any depth, holds secret content,
/// as [`subtree_sensitive`] says.
pub fn tree_has_any_sensitive(node: &TreeNode) -> (b: bool)
    ensures
        b == subtree_sensitive(*node),
    decreases node,
{
    if node.is_sensitive() {
        return true;
    }
    let mut i: usize = 0;
    while i < node.children.len()
        invariant
            i <= node.children@.len(),
            children_sensitive(*node, 0) == children_sensitive(*node, i as int),
        decreases node.children@.len() - i,
    {
        if tree_has_any_sensitive(&node.children[i]) {
            return true;
        }
        i = i + 1;
    }
    false
}

/// Nodes of equal value are equally sensitive.
pub proof fn lemma_sensitive_by_value(a: TreeNode, b: TreeNode)
    requires
        tree_view(a) == tree_view(b),
    ensures
        node_sensitive(a) == node_sensitive(b),
{
    let sa = a.states@.map_values(|s: String| s@);
    let sb = b.states@.map_values(|s: String| s@);
    assert(sa == sb);
    assert(a.states@.len() == b.states@.len());
    assert forall|state: Seq<char>| has_state(a, state) implies has_state(b, state) by {
        let i = choose|i: int| 0 <= i < a.states@.len() && (#[trigger] a.states@[i])@ == state;
        assert(sa[i] == sb[i]);
        assert(b.states@[i]@ == state);
    }
    assert forall|state: Seq<char>| has_state(b, state) implies has_state(a, state) by {
        let i = choose|i: int| 0 <= i < b.states@.len() && (#[trigger] b.states@[i])@ == state;
        assert(sa[i] == sb[i]);
        assert(a.states@[i]@ == state);
    }
}

/// A node below one of the children from index `i` on lies below one of
/// them.
proof fn lemma_in_children_index(n: TreeNode, root: TreeNode, i: int) -> (j: int)
    requires
        in_children(n, root, i),
    ensures
        i <= j < root.children@.len(),
        in_subtree(n, root.children@[j]),
    decreases root.children@.len() - i,
{
    if in_subtree(n, root.children@[i]) {
        i
    } else {
        lemma_in_children_index(n, root, i + 1)
    }
}

/// A sensitive subtree of a child from index `i` on makes the children
/// sensitive from `i` on.
proof fn lemma_children_sensitive_from(node: TreeNode, i: int, j: int)
    requires
        0 <= i <= j < node.children@.len(),
        subtree_sensitive(node.children@[j]),
    ensures
        children_sensitive(node, i),
    decreases j - i,
{
    if i < j {
        lemma_children_sensitive_from(node, i + 1, j);
    }
}

/// The whole-tree scan finds secret content exactly when some node of the
/// tree, at any depth, holds it: a sensitive state, the `password text`
/// role, or a name that looks like a secret.
pub proof fn lemma_subtree_sensitive_iff(node: TreeNode)
    ensures
        subtree_sensitive(node) <==> exists|n: TreeNode|
            #[trigger] in_subtree(n, node) && node_sensitive(n),
    decreases node, node.children@.len() + 1,
{
    if subtree_sensitive(node) {
        if node_sensitive(node) {
            assert(in_subtree(node, node));
        } else {
            let j = lemma_children_sensitive_index(node, 0);
            lemma_subtree_sensitive_iff(node.children@[j]);
            let n = choose|n: TreeNode| #[trigger] in_subtree(n, node.children@[j]) && node_sensitive(n);
            lemma_below_child(n, node, 0, j);
            assert(in_subtree(n, node));
        }
    }
    if exists|n: TreeNode| #[trigger] in_subtree(n, node) && node_sensitive(n) {
        let n = choose|n: TreeNode| #[trigger] in_subtree(n, node) && node_sensitive(n);
        if tree_view(n) == tree_view(node) {
            lemma_sensitive_by_value(n, node);
        } else {
            let j = lemma_in_children_index(n, node, 0);
            lemma_subtree_sensitive_iff(node.children@[j]);
            lemma_children_sensitive_from(node, 0, j);
        }
    }
}

/// The index of a child from `i` on whose subtree is sensitive.
proof fn lemma_children_sensitive_index(node: TreeNode, i: int) -> (j: int)
    requires
        children_sensitive(node, i),
    ensures
        i <= j < node.children@.len(),
        subtree_sensitive(node.children@[j]),
    decreases node.children@.len() - i,
{
    if subtree_sensitive(node.children@[i]) {
        i
    } else {
        lemma_children_sensitive_index(node, i + 1)
    }
}

/// The JSON escape of one character inside a string: `"` and `\` get a
/// backslash, the control characters below U+0020 their short form (`\n`,
/// `\r`, `\t`, `\b`, `\f`) or `\u00XX`, and every other character stands
/// for itself.
pub open spec fn json_escape(c: char) -> Seq<char> {
    if c == '"' {
        "\\\""@
    } else if c == '\\' {
        "\\\\"@
    } else if c == '\n' {
        "\\n"@
    } else if c == '\r' {
        "\\r"@
    } else if c == '\t' {
        "\\t"@
    } else if c == '\u{8}' {
        "\\b"@
    } else if c == '\u{c}' {
        "\\f"@
    } else if (c as u32) < 0x20 {
        "\\u00"@ + seq![hex_digit((c as u32) / 16), hex_digit((c as u32) % 16)]
    } else {
        seq![c]
    }
}

/// The lower-case hexadecimal digit for `d` below 16.
pub open spec fn hex_digit(d: u32) -> char {
    if d < 10 {
        ((d + 48) as u8) as char
    } else {
        ((d + 87) as u8) as char
    }
}

/// The characters of `s` with each one escaped for JSON.
pub open spec fn json_escaped(s: Seq<char>) -> Seq<char>
    decreases s.len(),
{
    if s.len() == 0 {
        Seq::<char>::empty()
    } else {
        json_escaped(s.drop_last()) + json_escape(s.last())
    }
}

/// `s` as a JSON string literal.
pub open spec fn json_str(s: Seq<char>) -> Seq<char> {
    "\""@ + json_escaped(s) + "\""@
}

/// The first `n` strings of `items` as JSON string literals, separated by
/// commas.
pub open spec fn json_str_items(items: Seq<String>, n: int) -> Seq<char>
    decreases n,
{
    if n <= 0 || n > items.len() {
        Seq::<char>::empty()
    } else if n == 1 {
        json_str(items[0]@)
    } else {
        json_str_items(items, n - 1) + ","@ + json_str(items[n - 1]@)
    }
}

/// The JSON form of a node: its role, name, description (left out when it
/// has none), states and children (left out when it has none), in that
/// order and without white space; where the node lives on the bus is left
/// out.
pub open spec fn tree_json(node: TreeNode) -> Seq<char>
    decreases node, node.children@.len() + 1,
{
    "{\"role\":"@ + json_str(node.role@) + ",\"name\":"@ + json_str(node.name@) + match node.description {
        Some(d) => ",\"description\":"@ + json_str(d@),
        None => Seq::<char>::empty(),
    } + ",\"states\":["@ + json_str_items(node.states@, node.states@.len() as int) + "]"@
        + if node.children@.len() == 0 {
        Seq::<char>::empty()
    } else {
        ",\"children\":["@ + children_json(node, node.children@.len() as int) + "]"@
    } + "}"@
}

/// The JSON forms of the first `n` children of `node`, separated by commas.
pub open spec fn children_json(node: TreeNode, n: int) -> Seq<char>
    decreases node, n,
{
    if n <= 0 || n > node.children@.len() {
        Seq::<char>::empty()
    } else if n == 1 {
        tree_json(node.children@[0])
    } else {
        children_json(node, n - 1) + ","@ + tree_json(node.children@[n - 1])
    }
}

/// Appends the JSON escape of `c` to `out`.
fn push_json_escape(out: &mut Vec<char>, c: char)
    ensures
        final(out)@ == old(out)@ + json_escape(c),
{
    proof {
        reveal_strlit("\\\"");
        reveal_strlit("\\\\");
        reveal_strlit("\\n");
        reveal_strlit("\\r");
        reveal_strlit("\\t");
        reveal_strlit("\\b");
        reveal_strlit("\\f");
        reveal_strlit("\\u00");
    }
    let ghost before = out@;
    if c == '"' {
        out.push('\\');
        out.push('"');
    } else if c == '\\' {
        out.push('\\');
        out.push('\\');
    } else if c == '\n' {
        out.push('\\');
        out.push('n');
    } else if c == '\r' {
        out.push('\\');
        out.push('r');
    } else if c == '\t' {
        out.push('\\');
        out.push('t');
    } else if c == '\u{8}' {
        out.push('\\');
        out.push('b');
    } else if c == '\u{c}' {
        out.push('\\');
        out.push('f');
    } else if (c as u32) < 0x20 {
        let code = c as u32;
        out.push('\\');
        out.push('u');
        out.push('0');
        out.push('0');
        out.push(hex_digit_exec(code / 16));
        out.push(hex_digit_exec(code % 16));
    } else {
        out.push(c);
    }
    assert(out@ =~= before + json_escape(c));
}

/// [`hex_digit`], computed.
fn hex_digit_exec(d: u32) -> (c: char)
    requires
        d < 16,
    ensures
        c == hex_digit(d),
{
    if d < 10 {
        ((d + 48) as u8) as char
    } else {
        ((d + 87) as u8) as char
    }
}

/// Appends `s` as a JSON string literal to `out`.
fn push_json_str(out: &mut Vec<char>, s: &str)
    ensures
        final(out)@ == old(out)@ + json_str(s@),
{
    let chars = chars_of(s);
    let ghost start = out@;
    out.push('"');
    proof {
        reveal_strlit("\"");
        assert(chars@.take(0) =~= Seq::<char>::empty());
        assert(out@ =~= start + "\""@ + json_escaped(chars@.take(0)));
    }
    let mut i: usize = 0;
    while i < chars.len()
        invariant
            i <= chars@.len(),
            chars@ == s@,
            out@ == start + "\""@ + json_escaped(chars@.take(i as int)),
        decreases chars@.len() - i,
    {
        proof {
            reveal_strlit("\"");
        }
        assert(chars@.take(i + 1).drop_last() =~= chars@.take(i as int));
        push_json_escape(out, chars[i]);
        assert(out@ =~= start + "\""@ + json_escaped(chars@.take(i + 1)));
        i = i + 1;
    }
    assert(chars@.take(i as int) =~= s@);
    out.push('"');
    proof {
        reveal_strlit("\"");
    }
    assert(out@ =~= start + json_str(s@));
}

/// Appends the literal `s` to `out`.
fn push_str(out: &mut Vec<char>, s: &str)
    ensures
        final(out)@ == old(out)@ + s@,
{
    let chars = chars_of(s);
    let ghost start = out@;
    let mut i: usize = 0;
    while i < chars.len()
        invariant
            i <= chars@.len(),
            chars@ == s@,
            out@ == start + chars@.take(i as int),
        decreases chars@.len() - i,
    {
        out.push(chars[i]);
        assert(out@ =~= start + chars@.take(i + 1));
        i = i + 1;
    }
    assert(chars@.take(i as int) =~= s@);
}

/// The JSON form of the description of a node, with its leading comma.
pub open spec fn description_json(d: Option<String>) -> Seq<char> {
    match d {
        Some(d) => ",\"description\":"@ + json_str(d@),
        None => Seq::<char>::empty(),
    }
}

/// The JSON form of the children of a node, with its leading comma; empty
/// when it has none.
pub open spec fn children_part(node: TreeNode) -> Seq<char> {
    if node.children@.len() == 0 {
        Seq::<char>::empty()
    } else {
        ",\"children\":["@ + children_json(node, node.children@.len() as int) + "]"@
    }
}

/// [`tree_json`] in parts.
proof fn lemma_tree_json_parts(node: TreeNode)
    ensures
        tree_json(node) == "{\"role\":"@ + json_str(node.role@) + ",\"name\":"@ + json_str(
            node.name@,
        ) + description_json(node.description) + ",\"states\":["@ + json_str_items(
            node.states@,
            node.states@.len() as int,
        ) + "]"@ + children_part(node) + "}"@,
{
}

/// The characters of the JSON form of `node`.
fn tree_json_chars(node: &TreeNode) -> (out: Vec<char>)
    ensures
        out@ == tree_json(*node),
    decreases node,
{
    let mut out: Vec<char> = Vec::new();
    push_str(&mut out, "{\"role\":");
    push_json_str(&mut out, node.role.as_str());
    push_str(&mut out, ",\"name\":");
    push_json_str(&mut out, node.name.as_str());
    assert(out@ =~= "{\"role\":"@ + json_str(node.role@) + ",\"name\":"@ + json_str(node.name@));
    let mut desc: Vec<char> = Vec::new();
    match &node.description {
        Some(d) => {
            push_str(&mut desc, ",\"description\":");
            push_json_str(&mut desc, d.as_str());
        },
        None => {},
    }
    assert(desc@ =~= description_json(node.description));
    let mut states: Vec<char> = Vec::new();
    let mut i: usize = 0;
    while i < node.states.len()
        invariant
            i <= node.states@.len(),
            states@ == json_str_items(node.states@, i as int),
        decreases node.states@.len() - i,
    {
        if i > 0 {
            push_str(&mut states, ",");
        }
        push_json_str(&mut states, node.states[i].as_str());
        assert(states@ =~= json_str_items(node.states@, i + 1));
        i = i + 1;
    }
    let mut kids: Vec<char> = Vec::new();
    if node.children.len() > 0 {
        push_str(&mut kids, ",\"children\":[");
        let ghost kids_start = kids@;
        let mut j: usize = 0;
        while j < node.children.len()
            invariant
                j <= node.children@.len(),
                kids@ == kids_start + children_json(*node, j as int),
            decreases node.children@.len() - j,
        {
            if j > 0 {
                push_str(&mut kids, ",");
            }
            let mut child = tree_json_chars(&node.children[j]);
            kids.append(&mut child);
            assert(kids@ =~= kids_start + children_json(*node, j + 1));
            j = j + 1;
        }
        push_str(&mut kids, "]");
    }
    assert(kids@ =~= children_part(*node));
    out.append(&mut desc);
    push_str(&mut out, ",\"states\":[");
    out.append(&mut states);
    push_str(&mut out, "]");
    out.append(&mut kids);
    push_str(&mut out, "}");
    proof {
        lemma_tree_json_parts(*node);
    }
    out
}

/// The JSON form of `node`, as [`tree_json`] says.
pub fn tree_to_json(node: &TreeNode) -> (s: String)
    ensures
        s@ == tree_json(*node),
{
    let out = tree_json_chars(node);
    string_from_chars(out.as_slice())
}


/// The name of the state variant whose flag is `flag`, as `Debug` prints it
/// (`Focused`, `HasTooltip`); `None` for a value that is not the flag of
/// one state.
pub uninterp spec fn state_variant_name(flag: u64) -> Option<Seq<char>>;

/// The `Debug` name of the state whose flag is `flag`.
///
/// Trusted: calls `atspi::StateSet::from_bits`, takes the first state of
/// the set and formats it with `Debug`. The contract claims that the result
/// is the name that [`state_variant_name`] gives for `flag`, which depends on
/// `flag` alone.
#[verifier::external_body]
fn state_debug_name(flag: u64) -> (r: Option<String>)
    ensures
        match r {
            Some(s) => state_variant_name(flag) == Some(s@),
            None => state_variant_name(flag) is None,
        },
{
    match ::atspi::StateSet::from_bits(flag) {
        Ok(set) => set.iter().next().map(|state| format!("{state:?}")),
        Err(_) => None,
    }
}

/// The lower-case names of the states among the flags `1 << 1` to
/// `1 << (k - 1)` that are set in `bits`, in the order of their flags.
pub open spec fn state_names_below(bits: u64, k: nat) -> Seq<Seq<char>>
    decreases k,
{
    if k <= 1 {
        Seq::<Seq<char>>::empty()
    } else {
        let before = state_names_below(bits, (k - 1) as nat);
        let flag = 1u64 << ((k - 1) as u64);
        if bits & flag != 0 && state_variant_name(flag) is Some {
            before.push(ascii_lower(state_variant_name(flag).unwrap()))
        } else {
            before
        }
    }
}

/// The lower-case names of the states set in `bits`, from `active` (flag
/// `1 << 1`) to `read only` (flag `1 << 43`), in that order.
pub open spec fn state_names(bits: u64) -> Seq<Seq<char>> {
    state_names_below(bits, 44)
}

/// A state listed among the first flags stays listed when more flags are
/// looked at.
proof fn lemma_state_names_below_lists(bits: u64, k: nat, j: u64)
    requires
        1 <= j,
        j < k <= 44,
        bits & (1u64 << j) != 0,
        state_variant_name(1u64 << j) is Some,
    ensures
        state_names_below(bits, k).contains(ascii_lower(state_variant_name(1u64 << j).unwrap())),
    decreases k,
{
    let x = ascii_lower(state_variant_name(1u64 << j).unwrap());
    let before = state_names_below(bits, (k - 1) as nat);
    if (k - 1) as u64 == j {
        assert(state_names_below(bits, k) == before.push(x));
        assert(state_names_below(bits, k)[before.len() as int] == x);
    } else {
        lemma_state_names_below_lists(bits, (k - 1) as nat, j);
        let i = choose|i: int| 0 <= i < before.len() && before[i] == x;
        assert(state_names_below(bits, k)[i] == x);
    }
}

/// Every name listed among the first flags is the lower-case name of a state
/// whose flag is set.
proof fn lemma_state_names_below_from_flags(bits: u64, k: nat, x: Seq<char>)
    requires
        k <= 44,
        state_names_below(bits, k).contains(x),
    ensures
        exists|j: u64|
            1 <= j < k && bits & (1u64 << j) != 0 && #[trigger] state_variant_name(1u64 << j)
                is Some && x == ascii_lower(state_variant_name(1u64 << j).unwrap()),
    decreases k,
{
    let before = state_names_below(bits, (k - 1) as nat);
    let j = (k - 1) as u64;
    if bits & (1u64 << j) != 0 && state_variant_name(1u64 << j) is Some && x == ascii_lower(
        state_variant_name(1u64 << j).unwrap(),
    ) {
    } else {
        let i = choose|i: int|
            0 <= i < state_names_below(bits, k).len() && state_names_below(bits, k)[i] == x;
        if bits & (1u64 << j) != 0 && state_variant_name(1u64 << j) is Some {
            assert(i < before.len());
            assert(before[i] == x);
        } else {
            assert(before[i] == x);
        }
        lemma_state_names_below_from_flags(bits, (k - 1) as nat, x);
    }
}

/// The listed states are exactly the named states whose flags, from
/// `1 << 1` to `1 << 43`, are set in `bits`: each such state's lower-case
/// name is listed, and each listed name is one of them.
pub proof fn lemma_state_names_exact(bits: u64)
    ensures
        forall|j: u64|
            1 <= j <= 43 && bits & (1u64 << j) != 0 && #[trigger] state_variant_name(1u64 << j)
                is Some ==> state_names(bits).contains(
                ascii_lower(state_variant_name(1u64 << j).unwrap()),
            ),
        forall|x: Seq<char>|
            #[trigger] state_names(bits).contains(x) ==> exists|j: u64|
                1 <= j <= 43 && bits & (1u64 << j) != 0 && #[trigger] state_variant_name(1u64 << j)
                    is Some && x == ascii_lower(state_variant_name(1u64 << j).unwrap()),
{
    assert forall|j: u64|
        1 <= j <= 43 && bits & (1u64 << j) != 0 && #[trigger] state_variant_name(1u64 << j)
            is Some implies state_names(bits).contains(
        ascii_lower(state_variant_name(1u64 << j).unwrap()),
    ) by {
        lemma_state_names_below_lists(bits, 44, j);
    }
    assert forall|x: Seq<char>| #[trigger] state_names(bits).contains(x) implies exists|j: u64|
        1 <= j <= 43 && bits & (1u64 << j) != 0 && #[trigger] state_variant_name(1u64 << j) is Some
            && x == ascii_lower(state_variant_name(1u64 << j).unwrap()) by {
        lemma_state_names_below_from_flags(bits, 44, x);
    }
}

/// The lower-case names of the states whose flags are set in `bits`, as
/// [`state_names`] says.
pub fn format_states(bits: u64) -> (r: Vec<String>)
    ensures
        r.deep_view() == state_names(bits),
{
    let mut names: Vec<String> = Vec::new();
    let mut k: u64 = 1;
    while k < 44
        invariant
            1 <= k <= 44,
            names.deep_view() == state_names_below(bits, k as nat),
        decreases 44 - k,
    {
        let flag: u64 = 1u64 << k;
        if bits & flag != 0 {
            match state_debug_name(flag) {
                Some(name) => {
                    let lowered = to_ascii_lowercase(name.as_str());
                    let ghost before = names.deep_view();
                    names.push(lowered);
                    assert(names.deep_view() =~= before.push(lowered@));
                },
                None => {},
            }
        }
        k = k + 1;
    }
    names
}

/// Whether a walk limited to `max_depth` levels (-1 for no limit) goes on
/// below a node at `current_depth`.
pub fn should_descend(max_depth: i32, current_depth: i32) -> (b: bool)
    ensures
        b == (max_depth == -1 || current_depth < max_depth),
{
    max_depth == -1 || current_depth < max_depth
}

} // verus!
