//! An in-memory backend that serves a fixed set of applications and nodes
//! and records what it is asked to do.

use vstd::prelude::*;

use crate::domain::command::{
    backend_steps, execution_follows, exposed_locator, locator_refusal, node_result, steps_through,
    text_result, BackendCall, CommandBackend, OutputView, RequestView,
};
use crate::domain::execution_context::resolution;
use crate::domain::model::{
    direction_name, AppDescriptor, AppView, NodeDescriptor, NodeView, ScrollDirection,
};
use crate::error::{AtspiCliError, ErrorView};
use crate::text::{chars_of, decimal, decimal_string, str_eq, trim, trimmed_chars};

verus! {

/// `k` is the first index of `s` whose entry has key `kv`.
pub open spec fn first_index<T, K>(s: Seq<T>, key: spec_fn(T) -> K, kv: K, k: int) -> bool {
    &&& 0 <= k < s.len()
    &&& key(s[k]) == kv
    &&& forall|m: int| 0 <= m < k ==> key(#[trigger] s[m]) != kv
}

/// The first entry of `s` with key `kv`, if any.
pub open spec fn lookup<T, K>(s: Seq<T>, key: spec_fn(T) -> K, kv: K) -> Option<T> {
    if exists|k: int| first_index(s, key, kv, k) {
        Some(s[choose|k: int| first_index(s, key, kv, k)])
    } else {
        None
    }
}

proof fn lemma_first_index_unique<T, K>(s: Seq<T>, key: spec_fn(T) -> K, kv: K, a: int, b: int)
    requires
        first_index(s, key, kv, a),
        first_index(s, key, kv, b),
    ensures
        a == b,
{
    if a < b {
        assert(key(s[a]) != kv);
    } else if b < a {
        assert(key(s[b]) != kv);
    }
}

/// An entry with key `kv` means a first entry with that key exists.
proof fn lemma_first_index_exists<T, K>(s: Seq<T>, key: spec_fn(T) -> K, kv: K, m: int)
    requires
        0 <= m < s.len(),
        key(s[m]) == kv,
    ensures
        exists|k: int| first_index(s, key, kv, k),
    decreases m,
{
    if forall|j: int| 0 <= j < m ==> key(#[trigger] s[j]) != kv {
        assert(first_index(s, key, kv, m));
    } else {
        let j = choose|j: int| 0 <= j < m && !(key(#[trigger] s[j]) != kv);
        lemma_first_index_exists(s, key, kv, j);
    }
}

/// Two sequences with the same keys everywhere have the same first indices.
proof fn lemma_same_keys<T, K>(a: Seq<T>, b: Seq<T>, key: spec_fn(T) -> K, kv: K)
    requires
        a.len() == b.len(),
        forall|m: int| 0 <= m < a.len() ==> key(#[trigger] a[m]) == key(b[m]),
    ensures
        forall|j: int| first_index(a, key, kv, j) <==> first_index(b, key, kv, j),
{
    assert forall|j: int| first_index(a, key, kv, j) <==> first_index(b, key, kv, j) by {
        if 0 <= j < a.len() {
            assert forall|m: int| #![trigger a[m]] #![trigger b[m]] 0 <= m <= j implies key(a[m]) == key(b[m]) by {}
        }
    }
}

/// Replacing the first entry with key `kv` by another entry with that key
/// changes what `kv` finds and nothing else.
proof fn lemma_lookup_update<T, K>(s: Seq<T>, key: spec_fn(T) -> K, kv: K, k: int, x: T)
    requires
        first_index(s, key, kv, k),
        key(x) == kv,
    ensures
        lookup(s.update(k, x), key, kv) == Some(x),
        forall|other: K| other != kv ==> lookup(s.update(k, x), key, other) == lookup(s, key, other),
{
    let new = s.update(k, x);
    assert(first_index(new, key, kv, k));
    let c = choose|c: int| first_index(new, key, kv, c);
    lemma_first_index_unique(new, key, kv, k, c);
    assert forall|other: K| other != kv implies lookup(new, key, other) == lookup(s, key, other) by {
        lemma_same_keys(new, s, key, other);
        if exists|j: int| first_index(s, key, other, j) {
            let j1 = choose|j: int| first_index(s, key, other, j);
            let j2 = choose|j: int| first_index(new, key, other, j);
            lemma_first_index_unique(s, key, other, j1, j2);
        }
    }
}

/// Appending an entry whose key finds nothing makes the key find it and
/// changes nothing else.
proof fn lemma_lookup_push<T, K>(s: Seq<T>, key: spec_fn(T) -> K, x: T)
    requires
        lookup(s, key, key(x)) is None,
    ensures
        lookup(s.push(x), key, key(x)) == Some(x),
        forall|other: K| other != key(x) ==> lookup(s.push(x), key, other) == lookup(s, key, other),
{
    let new = s.push(x);
    let kx = key(x);
    assert forall|m: int| 0 <= m < s.len() implies key(#[trigger] s[m]) != key(x) by {
        if key(s[m]) == key(x) {
            lemma_first_index_exists(s, key, key(x), m);
        }
    }
    assert(first_index(new, key, kx, s.len() as int));
    let c = choose|c: int| first_index(new, key, kx, c);
    lemma_first_index_unique(new, key, kx, s.len() as int, c);
    assert forall|other: K| other != key(x) implies lookup(new, key, other) == lookup(s, key, other) by {
        assert forall|j: int| first_index(new, key, other, j) <==> first_index(s, key, other, j) by {
            if 0 <= j < s.len() {
                assert forall|m: int| #![trigger new[m]] #![trigger s[m]] 0 <= m <= j implies key(new[m]) == key(s[m]) by {}
            }
        }
        if exists|j: int| first_index(s, key, other, j) {
            let j1 = choose|j: int| first_index(s, key, other, j);
            let j2 = choose|j: int| first_index(new, key, other, j);
            lemma_first_index_unique(s, key, other, j1, j2);
        }
    }
}

/// Nodes are found by their locator.
pub open spec fn node_key() -> spec_fn(NodeView) -> Seq<char> {
    |n: NodeView| n.locator
}

/// Properties are found by locator and property name.
pub open spec fn property_key() -> spec_fn(PropertyView) -> (Seq<char>, Seq<char>) {
    |p: PropertyView| (p.locator, p.key)
}

/// Captures are found by their output path.
pub open spec fn capture_key() -> spec_fn((Seq<char>, Seq<char>)) -> Seq<char> {
    |c: (Seq<char>, Seq<char>)| c.0
}

/// A property value registered for a node.
pub struct PropertyView {
    pub locator: Seq<char>,
    pub key: Seq<char>,
    pub value: Seq<char>,
}

/// A node that appears once the backend's clock reaches `ready_at`.
pub struct DelayedView {
    pub node: NodeView,
    pub ready_at: u64,
}

/// An in-memory backend for tests and demonstrations: it knows a list of
/// applications and a set of nodes, answers from them, and records an event
/// for every action it performs.
///
/// Time is simulated: nodes added with a delay appear when a wait lasts long
/// enough for the backend's clock to reach them.
pub struct InMemoryBackend {
    apps: Vec<AppDescriptor>,
    nodes: Vec<NodeDescriptor>,
    properties: Vec<(String, String, String)>,
    events: Vec<String>,
    focus_failures: Vec<String>,
    delayed: Vec<(NodeDescriptor, u64)>,
    clock_ms: u64,
    captures: Vec<(String, String)>,
}

impl InMemoryBackend {
    /// The applications, in the order they were added.
    pub closed spec fn apps_view(&self) -> Seq<AppView> {
        self.apps.deep_view()
    }

    /// The nodes, in the order they were first added.
    pub closed spec fn nodes_view(&self) -> Seq<NodeView> {
        self.nodes.deep_view()
    }

    /// The node found by `locator`, if any.
    pub open spec fn node(&self, locator: Seq<char>) -> Option<NodeView> {
        lookup(self.nodes_view(), node_key(), locator)
    }

    /// Whether some known node is sensitive.
    pub open spec fn any_sensitive(&self) -> bool {
        exists|i: int| 0 <= i < self.nodes_view().len() && (#[trigger] self.nodes_view()[i]).sensitive
    }

    pub closed spec fn properties_view(&self) -> Seq<PropertyView> {
        self.properties@.map_values(
            |p: (String, String, String)| PropertyView { locator: p.0@, key: p.1@, value: p.2@ },
        )
    }

    /// The value registered for property `key` of the node found by `locator`.
    pub open spec fn property(&self, locator: Seq<char>, key: Seq<char>) -> Option<Seq<char>> {
        match lookup(self.properties_view(), property_key(), (locator, key)) {
            Some(p) => Some(p.value),
            None => None,
        }
    }

    /// The events recorded so far, oldest first.
    pub closed spec fn events_view(&self) -> Seq<Seq<char>> {
        self.events.deep_view()
    }

    /// The locators whose focusing is set to fail.
    pub closed spec fn focus_view(&self) -> Seq<Seq<char>> {
        self.focus_failures.deep_view()
    }

    /// Whether focusing the node found by `locator` is set to fail.
    pub open spec fn focus_fails(&self, locator: Seq<char>) -> bool {
        self.focus_view().contains(locator)
    }

    pub closed spec fn captures_view(&self) -> Seq<(Seq<char>, Seq<char>)> {
        self.captures@.map_values(|c: (String, String)| (c.0@, c.1@))
    }

    /// What was captured to `path`, if anything.
    pub open spec fn capture_at(&self, path: Seq<char>) -> Option<Seq<char>> {
        match lookup(self.captures_view(), capture_key(), path) {
            Some(c) => Some(c.1),
            None => None,
        }
    }

    pub closed spec fn delayed_view(&self) -> Seq<DelayedView> {
        self.delayed@.map_values(
            |d: (NodeDescriptor, u64)| DelayedView { node: d.0.deep_view(), ready_at: d.1 },
        )
    }

    /// The simulated time, in milliseconds.
    pub closed spec fn clock(&self) -> u64 {
        self.clock_ms
    }

    /// Whether the backend holds nothing: no applications, nodes,
    /// properties, events, focus failures, delayed nodes or captures, and
    /// its clock reads zero.
    pub open spec fn is_fresh(&self) -> bool {
        &&& self.apps_view() == Seq::<AppView>::empty()
        &&& self.nodes_view() == Seq::<NodeView>::empty()
        &&& self.properties_view() == Seq::<PropertyView>::empty()
        &&& self.events_view() == Seq::<Seq<char>>::empty()
        &&& self.focus_view() == Seq::<Seq<char>>::empty()
        &&& self.delayed_view() == Seq::<DelayedView>::empty()
        &&& self.clock() == 0
        &&& self.captures_view() == Seq::<(Seq<char>, Seq<char>)>::empty()
    }

    /// A backend with no applications, nodes or events.
    pub fn empty() -> (b: Self)
        ensures
            b.is_fresh(),
            b.apps_view() == Seq::<AppView>::empty(),
            forall|l: Seq<char>| b.node(l) is None,
            b.events_view() == Seq::<Seq<char>>::empty(),
    {
        let b = InMemoryBackend {
            apps: Vec::new(),
            nodes: Vec::new(),
            properties: Vec::new(),
            events: Vec::new(),
            focus_failures: Vec::new(),
            delayed: Vec::new(),
            clock_ms: 0,
            captures: Vec::new(),
        };
        assert(b.events.deep_view() =~= Seq::<Seq<char>>::empty());
        assert(b.apps.deep_view() =~= Seq::<AppView>::empty());
        assert(b.nodes_view() =~= Seq::<NodeView>::empty());
        assert(b.properties_view() =~= Seq::<PropertyView>::empty());
        assert(b.focus_view() =~= Seq::<Seq<char>>::empty());
        assert(b.delayed_view() =~= Seq::<DelayedView>::empty());
        assert(b.captures_view() =~= Seq::<(Seq<char>, Seq<char>)>::empty());
        b
    }

    /// Registers a running application.
    pub fn add_app(&mut self, app: AppDescriptor)
        ensures
            final(self).apps_view() == old(self).apps_view().push(app.deep_view()),
            final(self).nodes_view() == old(self).nodes_view(),
            final(self).properties_view() == old(self).properties_view(),
            final(self).events_view() == old(self).events_view(),
            final(self).focus_view() == old(self).focus_view(),
            final(self).delayed_view() == old(self).delayed_view(),
            final(self).clock() == old(self).clock(),
            final(self).captures_view() == old(self).captures_view(),
    {
        self.apps.push(app);
        assert(self.apps.deep_view() =~= old(self).apps.deep_view().push(app.deep_view()));
    }

    fn find_node(&self, locator: &str) -> (r: Option<usize>)
        ensures
            match r {
                Some(k) => first_index(self.nodes.deep_view(), node_key(), locator@, k as int),
                None => self.node(locator@) is None,
            },
    {
        let mut i: usize = 0;
        while i < self.nodes.len()
            invariant
                i <= self.nodes@.len(),
                forall|m: int| 0 <= m < i ==> (#[trigger] self.nodes.deep_view()[m]).locator != locator@,
            decreases self.nodes@.len() - i,
        {
            if str_eq(self.nodes[i].locator.as_str(), locator) {
                return Some(i);
            }
            i = i + 1;
        }
        proof {
            if exists|k: int| first_index(self.nodes.deep_view(), node_key(), locator@, k) {
                let k = choose|k: int| first_index(self.nodes.deep_view(), node_key(), locator@, k);
                assert(self.nodes.deep_view()[k].locator != locator@);
            }
        }
        None
    }

    /// Registers `node` under its locator, replacing any node already found
    /// by that locator.
    pub fn add_node(&mut self, node: NodeDescriptor)
        ensures
            final(self).node(node.locator@) == Some(node.deep_view()),
            forall|l: Seq<char>| l != node.locator@ ==> final(self).node(l) == old(self).node(l),
            final(self).apps_view() == old(self).apps_view(),
            final(self).properties_view() == old(self).properties_view(),
            final(self).events_view() == old(self).events_view(),
            final(self).focus_view() == old(self).focus_view(),
            final(self).delayed_view() == old(self).delayed_view(),
            final(self).clock() == old(self).clock(),
            final(self).captures_view() == old(self).captures_view(),
    {
        let ghost before = self.nodes.deep_view();
        let ghost nv = node.deep_view();
        match self.find_node(node.locator.as_str()) {
            Some(k) => {
                self.nodes.set(k, node);
                proof {
                    assert(self.nodes.deep_view() =~= before.update(k as int, nv));
                    lemma_lookup_update(before, node_key(), nv.locator, k as int, nv);
                }
            },
            None => {
                self.nodes.push(node);
                proof {
                    assert(self.nodes.deep_view() =~= before.push(nv));
                    lemma_lookup_push(before, node_key(), nv);
                }
            },
        }
    }
}

/// `"true"` or `"false"`.
pub open spec fn bool_text(b: bool) -> Seq<char> {
    if b {
        "true"@
    } else {
        "false"@
    }
}

/// The JSON description of a node that a snapshot returns.
pub open spec fn snapshot_json(n: NodeView) -> Seq<char> {
    "{\"locator\":\""@ + n.locator + "\",\"visible\":"@ + bool_text(n.visible) + ",\"text\":"@
        + match n.text {
        Some(t) => "\""@ + t + "\""@,
        None => "null"@,
    } + "}"@
}

/// What reading the node found by `locator` gives.
pub open spec fn read_outcome(node: Option<NodeView>, locator: Seq<char>) -> Result<
    NodeView,
    ErrorView,
> {
    match node {
        Some(n) => Ok(n),
        None => Err(ErrorView::NodeNotFound(locator)),
    }
}

/// What reading property `property` of the node found by `locator` gives:
/// a registered value first, then the built-in `locator`, `text` and
/// `visible` properties.
pub open spec fn property_outcome(
    node: Option<NodeView>,
    registered: Option<Seq<char>>,
    locator: Seq<char>,
    property: Seq<char>,
) -> Result<Seq<char>, ErrorView> {
    match node {
        None => Err(ErrorView::NodeNotFound(locator)),
        Some(n) => match registered {
            Some(v) => Ok(v),
            None => if property == "locator"@ {
                Ok(locator)
            } else if property == "text"@ {
                Ok(
                    match n.text {
                        Some(t) => t,
                        None => Seq::empty(),
                    },
                )
            } else if property == "visible"@ {
                Ok(bool_text(n.visible))
            } else {
                Err(ErrorView::InvalidArgument("Unsupported property '"@ + property + "'"@))
            },
        },
    }
}

fn bool_string(b: bool) -> (s: String)
    ensures
        s@ == bool_text(b),
{
    if b {
        String::from_str("true")
    } else {
        String::from_str("false")
    }
}

impl InMemoryBackend {
    fn node_or_missing(&self, locator: &str) -> (r: Result<NodeDescriptor, AtspiCliError>)
        ensures
            node_result(r) == read_outcome(self.node(locator@), locator@),
    {
        match self.find_node(locator) {
            Some(k) => {
                let n = self.nodes[k].clone();
                proof {
                    let c = choose|c: int| first_index(self.nodes.deep_view(), node_key(), locator@, c);
                    lemma_first_index_unique(self.nodes.deep_view(), node_key(), locator@, k as int, c);
                }
                Ok(n)
            },
            None => Err(AtspiCliError::NodeNotFound(String::from_str(locator))),
        }
    }

    fn record(&mut self, event: String)
        ensures
            final(self).same_but_events(&*old(self), seq![event@]),
            final(self).events_view() == old(self).events_view().push(event@),
    {
        let ghost ev = event@;
        self.events.push(event);
        assert(self.events.deep_view() =~= old(self).events.deep_view().push(ev));
        assert(self.events_view() =~= old(self).events_view() + seq![ev]);
    }

    /// Registers `value` as property `key` of the node found by `locator`,
    /// replacing an earlier value.
    pub fn set_property(&mut self, locator: &str, key: &str, value: &str)
        ensures
            final(self).property(locator@, key@) == Some(value@),
            forall|l: Seq<char>, k: Seq<char>|
                (l, k) != (locator@, key@) ==> final(self).property(l, k) == old(self).property(l, k),
            final(self).apps_view() == old(self).apps_view(),
            final(self).nodes_view() == old(self).nodes_view(),
            final(self).events_view() == old(self).events_view(),
            final(self).focus_view() == old(self).focus_view(),
            final(self).delayed_view() == old(self).delayed_view(),
            final(self).clock() == old(self).clock(),
            final(self).captures_view() == old(self).captures_view(),
    {
        let ghost before = self.properties_view();
        let entry = (String::from_str(locator), String::from_str(key), String::from_str(value));
        let ghost pv = PropertyView { locator: locator@, key: key@, value: value@ };
        let mut i: usize = 0;
        while i < self.properties.len()
            invariant
                i <= self.properties@.len(),
                before == self.properties_view(),
                self.properties == old(self).properties,
                self.nodes == old(self).nodes,
                self.apps == old(self).apps,
                self.events == old(self).events,
                self.focus_failures == old(self).focus_failures,
                self.delayed == old(self).delayed,
                self.clock_ms == old(self).clock_ms,
                self.captures == old(self).captures,
                pv == (PropertyView { locator: locator@, key: key@, value: value@ }),
                entry.0@ == locator@,
                entry.1@ == key@,
                entry.2@ == value@,
                forall|m: int|
                    0 <= m < i ==> (property_key())(#[trigger] before[m]) != (locator@, key@),
            decreases self.properties@.len() - i,
        {
            if str_eq(self.properties[i].0.as_str(), locator) && str_eq(
                self.properties[i].1.as_str(),
                key,
            ) {
                assert(before[i as int] == PropertyView {
                    locator: self.properties@[i as int].0@,
                    key: self.properties@[i as int].1@,
                    value: self.properties@[i as int].2@,
                });
                assert(first_index(before, property_key(), (locator@, key@), i as int));
                let ghost e = entry;
                self.properties.set(i, entry);
                proof {
                    assert(self.properties@ == old(self).properties@.update(i as int, e));

                    assert(self.properties_view() =~= before.update(i as int, pv));
                    lemma_lookup_update(before, property_key(), (locator@, key@), i as int, pv);
                }
                return;
            }
            i = i + 1;
        }
        proof {
            if exists|k: int| first_index(before, property_key(), (locator@, key@), k) {
                let k = choose|k: int| first_index(before, property_key(), (locator@, key@), k);
                assert((property_key())(before[k]) != (locator@, key@));
            }
        }
        let ghost e = entry;
        self.properties.push(entry);
        proof {
            assert(self.properties@ == old(self).properties@.push(e));
            assert(self.properties_view() =~= before.push(pv));
            lemma_lookup_push(before, property_key(), pv);
        }
    }

    /// Makes focusing the node found by `locator` fail.
    pub fn set_focus_failure(&mut self, locator: &str)
        ensures
            final(self).focus_fails(locator@),
            forall|l: Seq<char>| l != locator@ ==> final(self).focus_fails(l) == old(self).focus_fails(l),
            final(self).apps_view() == old(self).apps_view(),
            final(self).nodes_view() == old(self).nodes_view(),
            final(self).properties_view() == old(self).properties_view(),
            final(self).events_view() == old(self).events_view(),
            final(self).delayed_view() == old(self).delayed_view(),
            final(self).clock() == old(self).clock(),
            final(self).captures_view() == old(self).captures_view(),
    {
        let ghost before = self.focus_failures.deep_view();
        self.focus_failures.push(String::from_str(locator));
        assert(self.focus_failures.deep_view() =~= before.push(locator@));
        assert(self.focus_failures.deep_view()[before.len() as int] == locator@);
        assert forall|l: Seq<char>| l != locator@ implies self.focus_failures.deep_view().contains(l)
            == before.contains(l) by {
            if before.contains(l) {
                let i = choose|i: int| 0 <= i < before.len() && before[i] == l;
                assert(self.focus_failures.deep_view()[i] == l);
            }
            if self.focus_failures.deep_view().contains(l) {
                let i = choose|i: int|
                    0 <= i < self.focus_failures.deep_view().len() && self.focus_failures.deep_view()[i] == l;
                assert(i < before.len());
                assert(before[i] == l);
            }
        }
    }

    /// Returns the recorded events, oldest first, and forgets them.
    pub fn take_events(&mut self) -> (events: Vec<String>)
        ensures
            events.deep_view() == old(self).events_view(),
            final(self).events_view() == Seq::<Seq<char>>::empty(),
            final(self).same_but_events_kept(&*old(self)),
    {
        let mut taken: Vec<String> = Vec::new();
        std::mem::swap(&mut taken, &mut self.events);
        assert(self.events.deep_view() =~= Seq::<Seq<char>>::empty());
        taken
    }

    /// Registers `node` to appear `delay_ms` milliseconds of simulated time
    /// from now.
    pub fn add_delayed_node(&mut self, node: NodeDescriptor, delay_ms: u64)
        ensures
            final(self).delayed_view() == old(self).delayed_view().push(
                DelayedView { node: node.deep_view(), ready_at: old(self).clock().saturating_add(delay_ms) },
            ),
            forall|l: Seq<char>| final(self).node(l) == old(self).node(l),
            final(self).apps_view() == old(self).apps_view(),
            final(self).nodes_view() == old(self).nodes_view(),
            final(self).properties_view() == old(self).properties_view(),
            final(self).events_view() == old(self).events_view(),
            final(self).focus_view() == old(self).focus_view(),
            final(self).clock() == old(self).clock(),
            final(self).captures_view() == old(self).captures_view(),
    {
        let ready_at = self.clock_ms.saturating_add(delay_ms);
        self.delayed.push((node, ready_at));
        assert(self.delayed_view() =~= old(self).delayed_view().push(
            DelayedView { node: node.deep_view(), ready_at },
        ));
    }

    /// What was captured to `path`, if anything.
    pub fn capture(&self, path: &str) -> (r: Option<String>)
        ensures
            match self.capture_at(path@) {
                Some(c) => r matches Some(s) && s@ == c,
                None => r is None,
            },
    {
        let ghost cv = self.captures_view();
        let mut i: usize = 0;
        while i < self.captures.len()
            invariant
                i <= self.captures@.len(),
                cv == self.captures_view(),
                forall|m: int| 0 <= m < i ==> (capture_key())(#[trigger] cv[m]) != path@,
            decreases self.captures@.len() - i,
        {
            if str_eq(self.captures[i].0.as_str(), path) {
                proof {
                    assert(first_index(cv, capture_key(), path@, i as int));
                    let c = choose|c: int| first_index(cv, capture_key(), path@, c);
                    lemma_first_index_unique(cv, capture_key(), path@, i as int, c);
                }
                return Some(self.captures[i].1.clone());
            }
            i = i + 1;
        }
        proof {
            if exists|k: int| first_index(cv, capture_key(), path@, k) {
                let k = choose|k: int| first_index(cv, capture_key(), path@, k);
                assert((capture_key())(cv[k]) != path@);
            }
        }
        None
    }

    fn store_capture(&mut self, path: &str, content: &str)
        ensures
            final(self).capture_at(path@) == Some(content@),
            forall|p: Seq<char>| p != path@ ==> final(self).capture_at(p) == old(self).capture_at(p),
            final(self).apps == old(self).apps,
            final(self).nodes == old(self).nodes,
            final(self).properties == old(self).properties,
            final(self).events == old(self).events,
            final(self).focus_failures == old(self).focus_failures,
            final(self).delayed == old(self).delayed,
            final(self).clock_ms == old(self).clock_ms,
    {
        let ghost before = self.captures_view();
        let ghost cv = content@;
        let ghost entry_view = (path@, content@);
        let entry = (String::from_str(path), String::from_str(content));
        let mut i: usize = 0;
        while i < self.captures.len()
            invariant
                i <= self.captures@.len(),
                before == self.captures_view(),
                self.captures == old(self).captures,
                self.apps == old(self).apps,
                self.nodes == old(self).nodes,
                self.properties == old(self).properties,
                self.events == old(self).events,
                self.focus_failures == old(self).focus_failures,
                self.delayed == old(self).delayed,
                self.clock_ms == old(self).clock_ms,
                entry_view == (path@, cv),
                cv == content@,
                entry.1@ == cv,
                entry.0@ == path@,
                forall|m: int| 0 <= m < i ==> (capture_key())(#[trigger] before[m]) != path@,
            decreases self.captures@.len() - i,
        {
            if str_eq(self.captures[i].0.as_str(), path) {
                assert(before[i as int] == (self.captures@[i as int].0@, self.captures@[i as int].1@));
                assert(first_index(before, capture_key(), path@, i as int));
                let ghost e = entry;
                self.captures.set(i, entry);
                proof {
                    assert(self.captures@ == old(self).captures@.update(i as int, e));
                    assert(self.captures_view() =~= before.update(i as int, entry_view));
                    lemma_lookup_update(before, capture_key(), path@, i as int, entry_view);
                    assert(lookup(self.captures_view(), capture_key(), path@) == Some(entry_view));
                    assert(self.capture_at(path@) == Some(cv));
                }
                return;
            }
            i = i + 1;
        }
        proof {
            if exists|k: int| first_index(before, capture_key(), path@, k) {
                let k = choose|k: int| first_index(before, capture_key(), path@, k);
                assert((capture_key())(before[k]) != path@);
            }
        }
        let ghost e = entry;
        self.captures.push(entry);
        proof {
            assert(self.captures@ == old(self).captures@.push(e));
            assert(self.captures_view() =~= before.push(entry_view));
            lemma_lookup_push(before, capture_key(), entry_view);
            assert((capture_key())(entry_view) == path@);
            assert(lookup(self.captures_view(), capture_key(), path@) == Some(entry_view));
            assert(self.capture_at(path@) == Some(cv));
        }
    }
}

/// The simulated time reached by waiting `timeout_ms` from `clock`.
pub open spec fn clock_after(clock: u64, timeout_ms: u64) -> u64 {
    if clock + timeout_ms > u64::MAX {
        u64::MAX
    } else {
        (clock + timeout_ms) as u64
    }
}

/// Some delayed node with `locator` appears within `timeout_ms` from `clock`.
pub open spec fn appears_within(
    delayed: Seq<DelayedView>,
    locator: Seq<char>,
    clock: u64,
    timeout_ms: u64,
) -> bool {
    exists|i: int|
        0 <= i < delayed.len() && (#[trigger] delayed[i]).node.locator == locator
            && delayed[i].ready_at <= clock_after(clock, timeout_ms)
}

impl InMemoryBackend {
    /// Everything but the events is as in `other`.
    pub open spec fn same_but_events_kept(&self, other: &Self) -> bool {
        &&& self.apps_view() == other.apps_view()
        &&& self.nodes_view() == other.nodes_view()
        &&& self.properties_view() == other.properties_view()
        &&& self.focus_view() == other.focus_view()
        &&& self.delayed_view() == other.delayed_view()
        &&& self.clock() == other.clock()
        &&& self.captures_view() == other.captures_view()
    }

    /// The backend holds what `other` holds.
    pub open spec fn same_state(&self, other: &Self) -> bool {
        &&& self.same_but_events_kept(other)
        &&& self.events_view() == other.events_view()
    }

    /// Only the events differ from `other`, by `added` at the end.
    pub open spec fn same_but_events(&self, other: &Self, added: Seq<Seq<char>>) -> bool {
        &&& self.same_but_events_kept(other)
        &&& self.events_view() == other.events_view() + added
    }

    fn copy_apps(&self) -> (v: Vec<AppDescriptor>)
        ensures
            v.deep_view() == self.apps_view(),
    {
        let mut v: Vec<AppDescriptor> = Vec::new();
        let mut i: usize = 0;
        while i < self.apps.len()
            invariant
                i <= self.apps@.len(),
                v.deep_view() == self.apps.deep_view().take(i as int),
            decreases self.apps@.len() - i,
        {
            let ghost prev = v.deep_view();
            let a = self.apps[i].clone();
            v.push(a);
            assert(v.deep_view() =~= prev.push(self.apps.deep_view()[i as int]));
            assert(self.apps.deep_view().take(i + 1) =~= self.apps.deep_view().take(i as int).push(
                self.apps.deep_view()[i as int],
            ));
            i = i + 1;
        }
        assert(self.apps.deep_view().take(i as int) =~= self.apps.deep_view());
        v
    }

    fn scan_sensitive(&self) -> (b: bool)
        ensures
            b == self.any_sensitive(),
    {
        let mut i: usize = 0;
        while i < self.nodes.len()
            invariant
                i <= self.nodes@.len(),
                forall|m: int| 0 <= m < i ==> !(#[trigger] self.nodes_view()[m]).sensitive,
            decreases self.nodes@.len() - i,
        {
            assert(self.nodes_view()[i as int] == self.nodes@[i as int].deep_view());
            if self.nodes[i].sensitive {
                return true;
            }
            i = i + 1;
        }
        false
    }

    fn property_value(&self, locator: &str, property: &str) -> (r: Option<String>)
        ensures
            match self.property(locator@, property@) {
                Some(v) => r matches Some(s) && s@ == v,
                None => r is None,
            },
    {
        let ghost pv = self.properties_view();
        let mut i: usize = 0;
        while i < self.properties.len()
            invariant
                i <= self.properties@.len(),
                pv == self.properties_view(),
                forall|m: int|
                    0 <= m < i ==> (property_key())(#[trigger] pv[m]) != (locator@, property@),
            decreases self.properties@.len() - i,
        {
            if str_eq(self.properties[i].0.as_str(), locator) && str_eq(
                self.properties[i].1.as_str(),
                property,
            ) {
                proof {
                    assert(first_index(pv, property_key(), (locator@, property@), i as int));
                    let c = choose|c: int| first_index(pv, property_key(), (locator@, property@), c);
                    lemma_first_index_unique(pv, property_key(), (locator@, property@), i as int, c);
                }
                return Some(self.properties[i].2.clone());
            }
            i = i + 1;
        }
        proof {
            if exists|k: int| first_index(pv, property_key(), (locator@, property@), k) {
                let k = choose|k: int| first_index(pv, property_key(), (locator@, property@), k);
                assert((property_key())(pv[k]) != (locator@, property@));
            }
        }
        None
    }

    fn find_delayed(&self, locator: &str, limit: u64) -> (r: Option<usize>)
        ensures
            match r {
                Some(i) => i < self.delayed@.len() && self.delayed_view()[i as int].node.locator == locator@
                    && self.delayed_view()[i as int].ready_at <= limit,
                None => !(exists|i: int|
                    0 <= i < self.delayed_view().len() && (#[trigger] self.delayed_view()[i]).node.locator
                        == locator@ && self.delayed_view()[i].ready_at <= limit),
            },
    {
        let ghost dv = self.delayed_view();
        let mut i: usize = 0;
        while i < self.delayed.len()
            invariant
                i <= self.delayed@.len(),
                dv == self.delayed_view(),
                forall|m: int| 0 <= m < i ==> !((#[trigger] dv[m]).node.locator == locator@ && dv[m].ready_at <= limit),
            decreases self.delayed@.len() - i,
        {
            if str_eq(self.delayed[i].0.locator.as_str(), locator) && self.delayed[i].1 <= limit {
                return Some(i);
            }
            i = i + 1;
        }
        None
    }
}

fn event2(a: &str, b: &str) -> (s: String)
    ensures
        s@ == a@ + b@,
{
    crate::text::concat2(a, b)
}

impl InMemoryBackend {
    /// An action on the node found by `locator` answered `res` and left
    /// `after`: with no such node it fails and changes nothing; otherwise it
    /// succeeds and records `event`.
    pub open spec fn acted_on(
        &self,
        locator: Seq<char>,
        res: Result<(), ErrorView>,
        after: &Self,
        event: Seq<char>,
    ) -> bool {
        match self.node(locator) {
            None => res == Err::<(), ErrorView>(ErrorView::NodeNotFound(locator))
                && after.same_state(self),
            Some(_) => res == Ok::<(), ErrorView>(()) && after.same_but_events(self, seq![event]),
        }
    }

    /// A wait for `locator` of `timeout_ms` answered `res` and left `after`.
    pub open spec fn waited(
        &self,
        locator: Seq<char>,
        timeout_ms: u64,
        res: Result<(), ErrorView>,
        after: &Self,
    ) -> bool {
        &&& res is Ok <==> (self.node(locator) is Some || appears_within(
            self.delayed_view(),
            locator,
            self.clock(),
            timeout_ms,
        ))
        &&& res is Ok ==> after.node(locator) is Some
        &&& res is Err ==> res == Err::<(), ErrorView>(ErrorView::Timeout { locator, timeout_ms })
        &&& after.events_view() == self.events_view()
        &&& after.apps_view() == self.apps_view()
        &&& forall|l: Seq<char>| l != locator ==> after.node(l) == self.node(l)
        &&& forall|l: Seq<char>, k: Seq<char>| after.property(l, k) == self.property(l, k)
        &&& forall|l: Seq<char>| after.focus_fails(l) == self.focus_fails(l)
    }

    /// Writing `text` to the node found by `locator` (after clearing it when
    /// `clear_first`) answered `res` and left `after`.
    pub open spec fn typed(
        &self,
        locator: Seq<char>,
        text: Seq<char>,
        clear_first: bool,
        res: Result<(), ErrorView>,
        after: &Self,
    ) -> bool {
        match self.node(locator) {
            None => res == Err::<(), ErrorView>(ErrorView::NodeNotFound(locator))
                && after.same_state(self),
            Some(n) => {
                &&& res == Ok::<(), ErrorView>(())
                &&& after.node(locator) == Some((NodeView { text: Some(text), ..n }))
                &&& forall|l: Seq<char>| l != locator ==> after.node(l) == self.node(l)
                &&& after.events_view() == self.events_view() + if clear_first {
                    seq!["clear:"@ + locator, "input:"@ + locator + ":"@ + text]
                } else {
                    seq!["input:"@ + locator + ":"@ + text]
                }
                &&& after.apps_view() == self.apps_view()
                &&& forall|l: Seq<char>, k: Seq<char>| after.property(l, k) == self.property(l, k)
                &&& forall|l: Seq<char>| after.focus_fails(l) == self.focus_fails(l)
            },
        }
    }

    /// A screenshot of the node found by `locator` (of the whole window when
    /// there is none) into `output` answered `res` and left `after`.
    pub open spec fn captured(
        &self,
        locator: Option<Seq<char>>,
        output: Seq<char>,
        res: Result<(), ErrorView>,
        after: &Self,
    ) -> bool {
        match locator {
            Some(l) if self.node(l) is None => res == Err::<(), ErrorView>(
                ErrorView::NodeNotFound(l),
            ) && after.same_state(self),
            _ => {
                &&& res == Ok::<(), ErrorView>(())
                &&& after.capture_at(output) == Some(
                    match locator {
                        Some(l) => "screenshot:"@ + l,
                        None => "screenshot:window"@,
                    },
                )
                &&& after.events_view() == self.events_view().push("screenshot:"@ + output)
                &&& forall|l: Seq<char>| after.node(l) == self.node(l)
                &&& after.apps_view() == self.apps_view()
                &&& forall|l: Seq<char>, k: Seq<char>| after.property(l, k) == self.property(l, k)
                &&& forall|l: Seq<char>| after.focus_fails(l) == self.focus_fails(l)
            },
        }
    }
}

impl CommandBackend for InMemoryBackend {
    /// Each call answers from the backend's state and changes it as the
    /// method's own contract says.
    open spec fn call_post(&self, call: BackendCall, after: &Self) -> bool {
        match call {
            BackendCall::ListApps(res) => res == Ok::<Seq<AppView>, ErrorView>(self.apps_view())
                && after.same_state(self),
            BackendCall::ReadNode(l, res) => res == read_outcome(self.node(l), l)
                && after.same_state(self),
            BackendCall::HasSensitiveNodes(_, res) => res == Ok::<bool, ErrorView>(
                self.any_sensitive(),
            ) && after.same_state(self),
            BackendCall::Snapshot(l, _, res) => match self.node(l) {
                None => res == Err::<Seq<char>, ErrorView>(ErrorView::NodeNotFound(l))
                    && after.same_state(self),
                Some(n) => res == Ok::<Seq<char>, ErrorView>(snapshot_json(n))
                    && after.same_but_events(self, seq!["snapshot:"@ + n.locator]),
            },
            BackendCall::GetProperty(l, p, res) => res == property_outcome(
                self.node(l),
                self.property(l, p),
                l,
                p,
            ) && after.same_state(self),
            BackendCall::WaitFor(l, ms, res) => self.waited(l, ms, res, after),
            BackendCall::Click(l, times, res) => self.acted_on(
                l,
                res,
                after,
                "click:"@ + l + ":"@ + decimal(times as nat),
            ),
            BackendCall::Hover(l, res) => self.acted_on(l, res, after, "hover:"@ + l),
            BackendCall::Focus(l, res) => if self.node(l) is Some && self.focus_fails(l) {
                res == Err::<(), ErrorView>(
                    ErrorView::Internal("Focus failed for locator '"@ + l + "'"@),
                ) && after.same_state(self)
            } else {
                self.acted_on(l, res, after, "focus:"@ + l)
            },
            BackendCall::InputText(l, text, clear, res) => self.typed(l, text, clear, res, after),
            BackendCall::PressKey(k, res) => if trim(k).len() == 0 {
                res == Err::<(), ErrorView>(ErrorView::InvalidArgument("Key cannot be empty"@))
                    && after.same_state(self)
            } else {
                res == Ok::<(), ErrorView>(()) && after.same_but_events(self, seq!["press:"@ + k])
            },
            BackendCall::ScrollTo(l, res) => self.acted_on(l, res, after, "scroll-to:"@ + l),
            BackendCall::Scroll(d, a, res) => res == Ok::<(), ErrorView>(())
                && after.same_but_events(
                self,
                seq!["scroll:"@ + direction_name(d) + ":"@ + decimal(a as nat)],
            ),
            BackendCall::Screenshot(loc, out, res) => self.captured(loc, out, res, after),
        }
    }

    fn list_apps(&mut self) -> (r: Result<Vec<AppDescriptor>, AtspiCliError>)
        ensures
            r matches Ok(v) && v.deep_view() == old(self).apps_view(),
            final(self).same_state(&*old(self)),
    {
        let v = self.copy_apps();
        let r = Ok(v);
        r
    }

    fn read_node(&mut self, locator: &str) -> (r: Result<NodeDescriptor, AtspiCliError>)
        ensures
            node_result(r) == read_outcome(old(self).node(locator@), locator@),
            final(self).same_state(&*old(self)),
    {
        let r = self.node_or_missing(locator);
        r
    }

    fn has_sensitive_nodes(&mut self, app: &AppDescriptor) -> (r: Result<bool, AtspiCliError>)
        ensures
            r == Ok::<bool, AtspiCliError>(old(self).any_sensitive()),
            final(self).same_state(&*old(self)),
    {
        let r = Ok(self.scan_sensitive());
        r
    }

    fn snapshot(&mut self, locator: &str, depth: i32) -> (r: Result<String, AtspiCliError>)
        ensures
            match old(self).node(locator@) {
                None => r matches Err(e) && e.deep_view() == ErrorView::NodeNotFound(locator@)
                    && final(self).same_state(&*old(self)),
                Some(n) => r matches Ok(s) && s@ == snapshot_json(n) && final(self).same_but_events(
                    &*old(self),
                    seq!["snapshot:"@ + n.locator],
                ),
            },
    {
        let r = match self.node_or_missing(locator) {
            Err(e) => Err(e),
            Ok(node) => {
                let event = event2("snapshot:", node.locator.as_str());
                self.record(event);
                let mut json = String::from_str("{\"locator\":\"");
                json.append(node.locator.as_str());
                json.append("\",\"visible\":");
                let vis = bool_string(node.visible);
                json.append(vis.as_str());
                json.append(",\"text\":");
                match &node.text {
                    Some(t) => {
                        json.append("\"");
                        json.append(t.as_str());
                        json.append("\"");
                    },
                    None => {
                        json.append("null");
                    },
                }
                json.append("}");
                Ok(json)
            },
        };
        proof {
            if r is Ok {
                assert(self.events_view() =~= old(self).events_view() + seq![
                    "snapshot:"@ + old(self).node(locator@).unwrap().locator,
                ]);
                let json = r->Ok_0;
                assert(json@ =~= snapshot_json(old(self).node(locator@).unwrap()));
            }
        }
        r
    }

    fn get_property(&mut self, locator: &str, property: &str) -> (r: Result<String, AtspiCliError>)
        ensures
            text_result(r) == property_outcome(
                old(self).node(locator@),
                old(self).property(locator@, property@),
                locator@,
                property@,
            ),
            final(self).same_state(&*old(self)),
    {
        let r = match self.node_or_missing(locator) {
            Err(e) => Err(e),
            Ok(node) => match self.property_value(locator, property) {
                Some(v) => Ok(v),
                None => {
                    if str_eq(property, "locator") {
                        Ok(String::from_str(locator))
                    } else if str_eq(property, "text") {
                        match node.text {
                            Some(t) => Ok(t),
                            None => Ok(String::new()),
                        }
                    } else if str_eq(property, "visible") {
                        Ok(bool_string(node.visible))
                    } else {
                        let mut m = String::from_str("Unsupported property '");
                        m.append(property);
                        m.append("'");
                        Err(AtspiCliError::InvalidArgument(m))
                    }
                },
            },
        };
        r
    }

    fn wait_for(&mut self, locator: &str, timeout_ms: u64) -> (r: Result<(), AtspiCliError>)
        ensures
            r is Ok <==> (old(self).node(locator@) is Some || appears_within(
                old(self).delayed_view(),
                locator@,
                old(self).clock(),
                timeout_ms,
            )),
            r is Ok ==> final(self).node(locator@) is Some,
            r matches Err(e) ==> e.deep_view() == (ErrorView::Timeout {
                locator: locator@,
                timeout_ms,
            }),
            final(self).events_view() == old(self).events_view(),
            final(self).apps_view() == old(self).apps_view(),
            forall|l: Seq<char>| l != locator@ ==> final(self).node(l) == old(self).node(l),
    {
        let r = if self.find_node(locator).is_some() {
            Ok(())
        } else {
            let limit = self.clock_ms.saturating_add(timeout_ms);
            match self.find_delayed(locator, limit) {
                Some(i) => {
                    assert(self.delayed_view()[i as int] == DelayedView {
                        node: self.delayed@[i as int].0.deep_view(),
                        ready_at: self.delayed@[i as int].1,
                    });
                    let ready_at = self.delayed[i].1;
                    let node = self.delayed[i].0.clone();
                    assert(node.deep_view().locator == locator@);
                    if ready_at > self.clock_ms {
                        self.clock_ms = ready_at;
                    }
                    self.add_node(node);
                    assert(forall|l: Seq<char>| l != locator@ ==> self.node(l) == old(self).node(l));
                    Ok(())
                },
                None => {
                    self.clock_ms = limit;
                    Err(
                        AtspiCliError::Timeout {
                            locator: String::from_str(locator),
                            timeout_ms,
                        },
                    )
                },
            }
        };
        assert(forall|l: Seq<char>| l != locator@ ==> self.node(l) == old(self).node(l));
        r
    }

    fn click(&mut self, locator: &str, times: u8) -> (r: Result<(), AtspiCliError>)
        ensures
            match old(self).node(locator@) {
                None => r matches Err(e) && e.deep_view() == ErrorView::NodeNotFound(locator@)
                    && final(self).same_state(&*old(self)),
                Some(n) => r is Ok && final(self).same_but_events(
                    &*old(self),
                    seq!["click:"@ + locator@ + ":"@ + decimal(times as nat)],
                ),
            },
    {
        let r = match self.node_or_missing(locator) {
            Err(e) => Err(e),
            Ok(_) => {
                let mut event = String::from_str("click:");
                event.append(locator);
                event.append(":");
                let n = decimal_string(times as u128);
                event.append(n.as_str());
                let ghost ev = event@;
                self.record(event);
                assert(self.events_view() =~= old(self).events_view() + seq![ev]);
                Ok(())
            },
        };
        r
    }

    fn hover(&mut self, locator: &str) -> (r: Result<(), AtspiCliError>)
        ensures
            match old(self).node(locator@) {
                None => r matches Err(e) && e.deep_view() == ErrorView::NodeNotFound(locator@)
                    && final(self).same_state(&*old(self)),
                Some(n) => r is Ok && final(self).same_but_events(
                    &*old(self),
                    seq!["hover:"@ + locator@],
                ),
            },
    {
        let r = match self.node_or_missing(locator) {
            Err(e) => Err(e),
            Ok(_) => {
                let event = event2("hover:", locator);
                let ghost ev = event@;
                self.record(event);
                assert(self.events_view() =~= old(self).events_view() + seq![ev]);
                Ok(())
            },
        };
        r
    }

    fn focus(&mut self, locator: &str) -> (r: Result<(), AtspiCliError>)
        ensures
            match old(self).node(locator@) {
                None => r matches Err(e) && e.deep_view() == ErrorView::NodeNotFound(locator@)
                    && final(self).same_state(&*old(self)),
                Some(n) => if old(self).focus_fails(locator@) {
                    r matches Err(e) && e.deep_view() == ErrorView::Internal(
                        "Focus failed for locator '"@ + locator@ + "'"@,
                    ) && final(self).same_state(&*old(self))
                } else {
                    r is Ok && final(self).same_but_events(&*old(self), seq!["focus:"@ + locator@])
                },
            },
    {
        let r = match self.node_or_missing(locator) {
            Err(e) => Err(e),
            Ok(_) => {
                let mut fails = false;
                let mut i: usize = 0;
                while i < self.focus_failures.len()
                    invariant_except_break
                        !fails,
                    invariant
                        i <= self.focus_failures@.len(),
                        forall|m: int| 0 <= m < i ==> (#[trigger] self.focus_failures.deep_view()[m]) != locator@,
                    ensures
                        fails ==> self.focus_failures.deep_view().contains(locator@),
                        !fails ==> !self.focus_failures.deep_view().contains(locator@),
                    decreases self.focus_failures@.len() - i,
                {
                    if str_eq(self.focus_failures[i].as_str(), locator) {
                        fails = true;
                        assert(self.focus_failures.deep_view()[i as int] == locator@);
                        break;
                    }
                    i = i + 1;
                }
                if fails {
                    let mut m = String::from_str("Focus failed for locator '");
                    m.append(locator);
                    m.append("'");
                    Err(AtspiCliError::Internal(m))
                } else {
                    let event = event2("focus:", locator);
                    let ghost ev = event@;
                    self.record(event);
                    assert(self.events_view() =~= old(self).events_view() + seq![ev]);
                    Ok(())
                }
            },
        };
        r
    }

    fn input_text(&mut self, locator: &str, text: &str, clear_first: bool) -> (r: Result<
        (),
        AtspiCliError,
    >)
        ensures
            match old(self).node(locator@) {
                None => r matches Err(e) && e.deep_view() == ErrorView::NodeNotFound(locator@)
                    && final(self).same_state(&*old(self)),
                Some(n) => {
                    &&& r is Ok
                    &&& final(self).node(locator@) == Some((NodeView { text: Some(text@), ..n }))
                    &&& forall|l: Seq<char>| l != locator@ ==> final(self).node(l) == old(self).node(l)
                    &&& final(self).events_view() == old(self).events_view() + if clear_first {
                        seq!["clear:"@ + locator@, "input:"@ + locator@ + ":"@ + text@]
                    } else {
                        seq!["input:"@ + locator@ + ":"@ + text@]
                    }
                    &&& final(self).apps_view() == old(self).apps_view()
                    &&& forall|l: Seq<char>, k: Seq<char>|
                        final(self).property(l, k) == old(self).property(l, k)
                },
            },
    {
        let r = match self.find_node(locator) {
            None => Err(AtspiCliError::NodeNotFound(String::from_str(locator))),
            Some(k) => {
                let ghost before = self.nodes.deep_view();
                let ghost old_events = self.events_view();
                proof {
                    let c = choose|c: int| first_index(before, node_key(), locator@, c);
                    lemma_first_index_unique(before, node_key(), locator@, k as int, c);
                }
                let mut updated = self.nodes[k].clone();
                updated.text = Some(String::from_str(text));
                let ghost nv = updated.deep_view();
                self.nodes.set(k, updated);
                proof {
                    assert(self.nodes.deep_view() =~= before.update(k as int, nv));
                    lemma_lookup_update(before, node_key(), locator@, k as int, nv);
                }
                if clear_first {
                    let event = event2("clear:", locator);
                    self.record(event);
                }
                let mut event = String::from_str("input:");
                event.append(locator);
                event.append(":");
                event.append(text);
                self.record(event);
                assert(self.events_view() =~= old_events + if clear_first {
                    seq!["clear:"@ + locator@, "input:"@ + locator@ + ":"@ + text@]
                } else {
                    seq!["input:"@ + locator@ + ":"@ + text@]
                });
                Ok(())
            },
        };
        r
    }

    fn press_key(&mut self, key: &str) -> (r: Result<(), AtspiCliError>)
        ensures
            if trim(key@).len() == 0 {
                r matches Err(e) && e.deep_view() == ErrorView::InvalidArgument(
                    "Key cannot be empty"@,
                ) && final(self).same_state(&*old(self))
            } else {
                r is Ok && final(self).same_but_events(&*old(self), seq!["press:"@ + key@])
            },
    {
        let chars = chars_of(key);
        let trimmed = trimmed_chars(&chars);
        let r = if trimmed.len() == 0 {
            Err(AtspiCliError::InvalidArgument(String::from_str("Key cannot be empty")))
        } else {
            let event = event2("press:", key);
            let ghost ev = event@;
            self.record(event);
            assert(self.events_view() =~= old(self).events_view() + seq![ev]);
            Ok(())
        };
        r
    }

    fn scroll_to(&mut self, locator: &str) -> (r: Result<(), AtspiCliError>)
        ensures
            match old(self).node(locator@) {
                None => r matches Err(e) && e.deep_view() == ErrorView::NodeNotFound(locator@)
                    && final(self).same_state(&*old(self)),
                Some(n) => r is Ok && final(self).same_but_events(
                    &*old(self),
                    seq!["scroll-to:"@ + locator@],
                ),
            },
    {
        let r = match self.node_or_missing(locator) {
            Err(e) => Err(e),
            Ok(_) => {
                let event = event2("scroll-to:", locator);
                let ghost ev = event@;
                self.record(event);
                assert(self.events_view() =~= old(self).events_view() + seq![ev]);
                Ok(())
            },
        };
        r
    }

    fn scroll(&mut self, direction: ScrollDirection, amount: u32) -> (r: Result<(), AtspiCliError>)
        ensures
            r is Ok,
            final(self).same_but_events(
                &*old(self),
                seq!["scroll:"@ + direction_name(direction) + ":"@ + decimal(amount as nat)],
            ),
    {
        let mut event = String::from_str("scroll:");
        let name = direction.name();
        event.append(name.as_str());
        event.append(":");
        let n = decimal_string(amount as u128);
        event.append(n.as_str());
        let ghost ev = event@;
        self.record(event);
        assert(self.events_view() =~= old(self).events_view() + seq![ev]);
        let r = Ok(());
        r
    }

    fn screenshot(&mut self, locator: Option<&str>, output: &str) -> (r: Result<
        (),
        AtspiCliError,
    >)
        ensures
            match locator {
                Some(l) if old(self).node(l@) is None => r matches Err(e) && e.deep_view()
                    == ErrorView::NodeNotFound(l@) && final(self).same_state(&*old(self)),
                _ => {
                    &&& r is Ok
                    &&& final(self).capture_at(output@) == Some(
                        match locator {
                            Some(l) => "screenshot:"@ + l@,
                            None => "screenshot:window"@,
                        },
                    )
                    &&& final(self).events_view() == old(self).events_view().push(
                        "screenshot:"@ + output@,
                    )
                    &&& forall|l: Seq<char>| final(self).node(l) == old(self).node(l)
                },
            },
    {
        let checked = match locator {
            Some(l) => match self.node_or_missing(l) {
                Err(e) => Err(e),
                Ok(_) => Ok(()),
            },
            None => Ok(()),
        };
        let r = match checked {
            Err(e) => Err(e),
            Ok(()) => {
                let content = match locator {
                    Some(l) => event2("screenshot:", l),
                    None => String::from_str("screenshot:window"),
                };
                self.store_capture(output, content.as_str());
                let event = event2("screenshot:", output);
                self.record(event);
                Ok(())
            },
        };
        r
    }
}

impl Default for InMemoryBackend {
    /// A backend with no applications, nodes or events.
    fn default() -> (b: Self)
        ensures
            b.is_fresh(),
            b.apps_view() == Seq::<AppView>::empty(),
            forall|l: Seq<char>| b.node(l) is None,
            b.events_view() == Seq::<Seq<char>>::empty(),
    {
        InMemoryBackend::empty()
    }
}

impl InMemoryBackend {
    /// A backend with one application, `demo-app` (pid 4242), and two nodes:
    /// `root` and `button[text=Save]`, whose text is `Save`; nothing else.
    pub fn demo() -> (b: Self)
        ensures
            b.apps_view() == seq![AppView { name: "demo-app"@, pid: 4242 }],
            b.properties_view() == Seq::<PropertyView>::empty(),
            b.events_view() == Seq::<Seq<char>>::empty(),
            b.focus_view() == Seq::<Seq<char>>::empty(),
            b.delayed_view() == Seq::<DelayedView>::empty(),
            b.clock() == 0,
            b.captures_view() == Seq::<(Seq<char>, Seq<char>)>::empty(),
            b.node("root"@) == Some(
                NodeView { locator: "root"@, text: None, visible: true, sensitive: false },
            ),
            b.node("button[text=Save]"@) == Some(
                NodeView {
                    locator: "button[text=Save]"@,
                    text: Some("Save"@),
                    visible: true,
                    sensitive: false,
                },
            ),
    {
        let mut b = InMemoryBackend::empty();
        b.add_app(AppDescriptor::new("demo-app", 4242));
        b.add_node(NodeDescriptor::new("root"));
        let mut button = NodeDescriptor::new("button[text=Save]");
        button.text = Some(String::from_str("Save"));
        proof {
            reveal_strlit("root");
            reveal_strlit("button[text=Save]");
            assert("root"@.len() != "button[text=Save]"@.len());
        }
        b.add_node(button);
        b
    }
}

/// On the in-memory backend, a full-window screenshot of an application
/// that has a sensitive node is refused with a sensitive-node policy error,
/// and the backend is left as it was: nothing is captured and no event is
/// recorded.
pub proof fn lemma_full_screenshot_refused_in_memory(
    before: InMemoryBackend,
    after: InMemoryBackend,
    name: Option<Seq<char>>,
    pid: Option<u32>,
    output: Seq<char>,
    t: Seq<BackendCall>,
    r: Result<OutputView, ErrorView>,
)
    requires
        execution_follows(name, pid, RequestView::Screenshot { locator: None, output }, t, r),
        backend_steps(before, after, t),
        before.any_sensitive(),
        resolution(name, pid, before.apps_view()) is Ok,
    ensures
        r matches Err(ErrorView::SensitiveNodePolicy(_)),
        after.same_state(&before),
{
    let states = choose|states: Seq<InMemoryBackend>|
        #[trigger] steps_through(states, t) && states[0] == before && states.last() == after;
    assert(states[0].call_post(t[0], &states[1]));
    let rest = t.skip(1);
    assert(rest[0] == t[1]);
    assert(states[1].call_post(t[1], &states[2]));
    assert(states[1].nodes_view() == before.nodes_view());
    assert(states[1].any_sensitive());
}

/// On the in-memory backend, reading, snapshotting or capturing a sensitive
/// node found by a valid locator is refused with a sensitive-node policy
/// error, and the backend is left as it was.
pub proof fn lemma_sensitive_read_refused_in_memory(
    before: InMemoryBackend,
    after: InMemoryBackend,
    name: Option<Seq<char>>,
    pid: Option<u32>,
    request: RequestView,
    locator: Seq<char>,
    t: Seq<BackendCall>,
    r: Result<OutputView, ErrorView>,
)
    requires
        execution_follows(name, pid, request, t, r),
        backend_steps(before, after, t),
        request is Snapshot || request is Get || (request matches RequestView::Screenshot {
            locator: Some(_),
            ..
        }),
        exposed_locator(request) == locator,
        locator_refusal(locator) is None,
        before.node(locator) matches Some(n) && n.sensitive,
        resolution(name, pid, before.apps_view()) is Ok,
    ensures
        r matches Err(ErrorView::SensitiveNodePolicy(_)),
        after.same_state(&before),
{
    let states = choose|states: Seq<InMemoryBackend>|
        #[trigger] steps_through(states, t) && states[0] == before && states.last() == after;
    assert(states[0].call_post(t[0], &states[1]));
    let rest = t.skip(1);
    assert(rest[0] == t[1]);
    assert(states[1].call_post(t[1], &states[2]));
    assert(states[1].nodes_view() == before.nodes_view());
}

/// On the in-memory backend, `input` on a node found by a valid locator
/// succeeds even when focusing it fails, and the node then holds the text.
pub proof fn lemma_input_written_in_memory(
    before: InMemoryBackend,
    after: InMemoryBackend,
    name: Option<Seq<char>>,
    pid: Option<u32>,
    locator: Seq<char>,
    text: Seq<char>,
    t: Seq<BackendCall>,
    r: Result<OutputView, ErrorView>,
)
    requires
        execution_follows(name, pid, RequestView::Input { locator, text }, t, r),
        backend_steps(before, after, t),
        locator_refusal(locator) is None,
        before.node(locator) is Some,
        resolution(name, pid, before.apps_view()) is Ok,
    ensures
        r == Ok::<OutputView, ErrorView>(OutputView::Empty),
        after.node(locator) == Some((NodeView { text: Some(text), ..before.node(locator).unwrap() })),
        forall|l: Seq<char>, k: Seq<char>| after.property(l, k) == before.property(l, k),
{
    let states = choose|states: Seq<InMemoryBackend>|
        #[trigger] steps_through(states, t) && states[0] == before && states.last() == after;
    assert(states[0].call_post(t[0], &states[1]));
    let rest = t.skip(1);
    assert(rest[0] == t[1]);
    assert(rest[1] == t[2]);
    assert(states[1].call_post(t[1], &states[2]));
    assert(states[2].call_post(t[2], &states[3]));
    assert(states[2].nodes_view() == before.nodes_view());
}

/// On the in-memory backend, listing applications answers the applications
/// it holds, whatever the target, and changes nothing.
pub proof fn lemma_list_apps_in_memory(
    before: InMemoryBackend,
    after: InMemoryBackend,
    name: Option<Seq<char>>,
    pid: Option<u32>,
    t: Seq<BackendCall>,
    r: Result<OutputView, ErrorView>,
)
    requires
        execution_follows(name, pid, RequestView::ListApps, t, r),
        backend_steps(before, after, t),
    ensures
        r == Ok::<OutputView, ErrorView>(OutputView::AppList(before.apps_view())),
        after.same_state(&before),
{
    let states = choose|states: Seq<InMemoryBackend>|
        #[trigger] steps_through(states, t) && states[0] == before && states.last() == after;
    assert(states[0].call_post(t[0], &states[1]));
}

/// On the in-memory backend, a click on a valid locator succeeds and records
/// `click:<locator>:<count>` when a node is found by it (once for `click`,
/// twice for `dblclick`), and fails as not found, changing nothing, when none
/// is.
pub proof fn lemma_click_in_memory(
    before: InMemoryBackend,
    after: InMemoryBackend,
    name: Option<Seq<char>>,
    pid: Option<u32>,
    request: RequestView,
    locator: Seq<char>,
    count: u8,
    t: Seq<BackendCall>,
    r: Result<OutputView, ErrorView>,
)
    requires
        execution_follows(name, pid, request, t, r),
        backend_steps(before, after, t),
        (request == (RequestView::Click { locator }) && count == 1) || (request == (
            RequestView::Dblclick { locator }
        ) && count == 2),
        locator_refusal(locator) is None,
        resolution(name, pid, before.apps_view()) is Ok,
    ensures
        before.node(locator) is Some ==> r == Ok::<OutputView, ErrorView>(OutputView::Empty)
            && after.same_but_events(&before, seq!["click:"@ + locator + ":"@ + decimal(count as nat)]),
        before.node(locator) is None ==> r == Err::<OutputView, ErrorView>(
            ErrorView::NodeNotFound(locator),
        ) && after.same_state(&before),
{
    let states = choose|states: Seq<InMemoryBackend>|
        #[trigger] steps_through(states, t) && states[0] == before && states.last() == after;
    assert(states[0].call_post(t[0], &states[1]));
    let rest = t.skip(1);
    assert(rest[0] == t[1]);
    assert(states[1].call_post(t[1], &states[2]));
    assert(states[1].nodes_view() == before.nodes_view());
    let res = choose|res: Result<(), ErrorView>| rest[0] == BackendCall::Click(locator, count, res);
    assert(t[1] == BackendCall::Click(locator, count, res));
}

/// With no registered value, the `visible` property reads `true` exactly
/// when the node is visible and `false` exactly when it is not.
pub proof fn lemma_visible_property_reflects_node(n: NodeView, locator: Seq<char>)
    ensures
        property_outcome(Some(n), None, locator, "visible"@) matches Ok(v) && (v == "true"@
            <==> n.visible) && (v == "false"@ <==> !n.visible),
{
    reveal_strlit("visible");
    reveal_strlit("locator");
    reveal_strlit("text");
    reveal_strlit("true");
    reveal_strlit("false");
    assert("visible"@[0] != "locator"@[0]);
    assert("visible"@.len() != "text"@.len());
    assert("true"@.len() != "false"@.len());
}

/// What a node reads back as its `text` property is the text last written
/// to it, unless a `text` property was registered for it explicitly.
pub proof fn lemma_written_text_reads_back(
    b: InMemoryBackend,
    locator: Seq<char>,
    text: Seq<char>,
    n: NodeView,
)
    requires
        b.node(locator) == Some((NodeView { text: Some(text), ..n })),
        b.property(locator, "text"@) is None,
    ensures
        property_outcome(b.node(locator), b.property(locator, "text"@), locator, "text"@) == Ok::<
            Seq<char>,
            ErrorView,
        >(text),
{
    reveal_strlit("text");
    reveal_strlit("locator");
    assert("locator"@ != "text"@) by {
        assert("locator"@.len() != "text"@.len());
    }
}

} // verus!
