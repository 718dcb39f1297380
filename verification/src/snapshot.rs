//! Snapshots: an accessibility tree captured node by node and rendered as an XML
//! document for XPath queries.
use crate::atspi::{
    self, emitted_states, extents_from_reply, role_or_unknown, sanitize_attr_key, tag_of_role, xml_escape, BusFailure,
    State, StateSet,
};
use crate::geometry::{self, Rect};
use crate::text;
use std::collections::VecDeque;
use vstd::prelude::*;
use vstd::string::*;

verus! {

/// Depth cap: a node deeper than this is emitted without its children, which
/// bounds the rendering of a cyclic tree.
pub const MAX_DEPTH: usize = 20;

/// How many nodes are read from the bus at the same time.
pub const WALK_CONCURRENCY: usize = 8;

/// A `(bus, path)` pair, the identity of an accessible.
pub type Key = (Seq<char>, Seq<char>);

/// The identity that a pair of strings stands for.
pub open spec fn key_of(k: (String, String)) -> Key {
    (k.0@, k.1@)
}

/// The identities that pairs of strings stand for.
pub open spec fn keys_of(v: Seq<(String, String)>) -> Seq<Key> {
    v.map_values(|k: (String, String)| key_of(k))
}

/// Data captured of one node.
#[derive(Debug, Clone)]
pub struct RawNode {
    /// Identity of the node, also its key among the captured nodes.
    pub bus: String,
    pub path: String,
    /// Distance from the root at first discovery.
    pub depth: usize,
    /// Role as the toolkit reports it.
    pub raw_role: String,
    pub name: String,
    pub description: String,
    pub states: StateSet,
    /// Toolkit attributes, in the order in which they are emitted.
    pub attrs: Vec<(String, String)>,
    pub bounds: Option<Rect>,
    /// Whether the toolkit reported any child, resolvable or not.
    pub had_children: bool,
    /// Resolvable children, in document order.
    pub children: Vec<(String, String)>,
}

/// The mathematical value of a [`RawNode`].
#[verifier::ext_equal]
pub struct NodeView {
    pub bus: Seq<char>,
    pub path: Seq<char>,
    pub depth: nat,
    pub raw_role: Seq<char>,
    pub name: Seq<char>,
    pub description: Seq<char>,
    pub states: Set<State>,
    pub attrs: Seq<(Seq<char>, Seq<char>)>,
    pub bounds: Option<Rect>,
    pub had_children: bool,
    pub children: Seq<Key>,
}

impl View for RawNode {
    type V = NodeView;

    open spec fn view(&self) -> NodeView {
        NodeView {
            bus: self.bus@,
            path: self.path@,
            depth: self.depth as nat,
            raw_role: self.raw_role@,
            name: self.name@,
            description: self.description@,
            states: self.states@,
            attrs: keys_of(self.attrs@),
            bounds: self.bounds,
            had_children: self.had_children,
            children: keys_of(self.children@),
        }
    }
}

// ── Captured nodes by identity ──────────────────────────────────────────────

/// Captured nodes, found by their identity.
pub struct NodeMap {
    entries: Vec<((String, String), RawNode)>,
}

/// The value last entered under `key`.
pub open spec fn last_entered(entries: Seq<((String, String), RawNode)>, key: Key) -> Option<
    NodeView,
>
    decreases entries.len(),
{
    if entries.len() == 0 {
        None
    } else if key_of(entries.last().0) == key {
        Some(entries.last().1@)
    } else {
        last_entered(entries.drop_last(), key)
    }
}

impl View for NodeMap {
    type V = Map<Key, NodeView>;

    closed spec fn view(&self) -> Map<Key, NodeView> {
        Map::new(
            |k: Key| last_entered(self.entries@, k) is Some,
            |k: Key| last_entered(self.entries@, k)->0,
        )
    }
}

fn same_key(a: &(String, String), b: &(String, String)) -> (r: bool)
    ensures
        r == (key_of(*a) == key_of(*b)),
{
    a.0 == b.0 && a.1 == b.1
}

impl NodeMap {
    /// No node.
    pub fn new() -> (r: Self)
        ensures
            r@ == Map::<Key, NodeView>::empty(),
    {
        let r = NodeMap { entries: Vec::new() };
        assert(r@ =~= Map::<Key, NodeView>::empty());
        r
    }

    /// Enters `node` under `key`, in place of what was there.
    pub fn insert(&mut self, key: (String, String), node: RawNode)
        ensures
            final(self)@ == old(self)@.insert(key_of(key), node@),
    {
        let ghost before = self.entries@;
        self.entries.push((key, node));
        assert(self.entries@.drop_last() =~= before);
        assert(self@ =~= old(self)@.insert(key_of(key), node@));
    }

    /// The node under `key`.
    pub fn get(&self, key: &(String, String)) -> (r: Option<&RawNode>)
        ensures
            match r {
                Some(n) => self@.dom().contains(key_of(*key)) && self@[key_of(*key)] == n@,
                None => !self@.dom().contains(key_of(*key)),
            },
    {
        let mut n: usize = self.entries.len();
        assert(self.entries@.take(n as int) =~= self.entries@);
        while n > 0
            invariant
                n <= self.entries.len(),
                last_entered(self.entries@, key_of(*key)) == last_entered(
                    self.entries@.take(n as int),
                    key_of(*key),
                ),
            decreases n,
        {
            let ghost here = self.entries@.take(n as int);
            assert(here.drop_last() =~= self.entries@.take(n - 1));
            assert(here.last() == self.entries@[n - 1]);
            if same_key(&self.entries[n - 1].0, key) {
                return Some(&self.entries[n - 1].1);
            }
            n = n - 1;
        }
        None
    }

    /// Whether there is a node under `key`.
    pub fn contains_key(&self, key: &(String, String)) -> (r: bool)
        ensures
            r == self@.dom().contains(key_of(*key)),
    {
        self.get(key).is_some()
    }
}

// ── Rendering ───────────────────────────────────────────────────────────────

/// ` key="value"`, with the value escaped.
pub open spec fn attribute(key: Seq<char>, value: Seq<char>) -> Seq<char> {
    " "@ + key + "=\""@ + atspi::escaped(value) + "\""@
}

/// An attribute that is left out where its value is empty.
pub open spec fn optional_attribute(key: Seq<char>, value: Seq<char>) -> Seq<char> {
    if value.len() == 0 {
        Seq::empty()
    } else {
        attribute(key, value)
    }
}

/// A `key="true"` attribute for each set state among the first `n` emitted ones.
pub open spec fn state_attributes(states: Set<State>, n: nat) -> Seq<char>
    decreases n,
{
    if n == 0 {
        Seq::empty()
    } else {
        let front = state_attributes(states, (n - 1) as nat);
        let s = atspi::emitted()[n - 1];
        if states.contains(s) {
            front + (" "@ + s.attr() + "=\"true\""@)
        } else {
            front
        }
    }
}

/// The bounds of a node, where it has any.
pub open spec fn bounds_attribute(bounds: Option<Rect>) -> Seq<char> {
    match bounds {
        Some(r) => " bbox=\""@ + geometry::bbox_text(r) + "\""@,
        None => Seq::empty(),
    }
}

/// The toolkit attributes of a node, under their sanitized names.
pub open spec fn toolkit_attributes(attrs: Seq<(Seq<char>, Seq<char>)>) -> Seq<char>
    decreases attrs.len(),
{
    if attrs.len() == 0 {
        Seq::empty()
    } else {
        let front = toolkit_attributes(attrs.drop_last());
        match atspi::sanitized(attrs.last().0) {
            Some(k) => front + attribute(k, attrs.last().1),
            None => front,
        }
    }
}

/// The `_ref` attribute, which carries the identity of a node.
pub open spec fn reference(bus: Seq<char>, path: Seq<char>) -> Seq<char> {
    " _ref=\""@ + atspi::escaped(bus) + "|"@ + atspi::escaped(path) + "\""@
}

/// Two spaces per level.
pub open spec fn indent(depth: nat) -> Seq<char> {
    Seq::new(2 * depth, |i: int| ' ')
}

/// The opening tag of a node, up to but without its end.
pub open spec fn opening(n: NodeView, depth: nat) -> Seq<char> {
    indent(depth) + "<"@ + atspi::tag(n.raw_role) + attribute("role"@, n.raw_role)
        + optional_attribute("name"@, n.name) + optional_attribute("description"@, n.description)
        + state_attributes(n.states, 17) + bounds_attribute(n.bounds) + toolkit_attributes(n.attrs)
        + reference(n.bus, n.path)
}

/// The closing tag of a node.
pub open spec fn closing(role: Seq<char>, depth: nat) -> Seq<char> {
    indent(depth) + "</"@ + atspi::tag(role) + ">\n"@
}

/// The rendering of the subtree at `key`; nothing where no node was captured.
pub open spec fn node_text(nodes: Map<Key, NodeView>, key: Key, depth: nat) -> Seq<char>
    decreases 22 - depth, 0nat,
{
    if !nodes.dom().contains(key) {
        Seq::empty()
    } else {
        let n = nodes[key];
        if depth > MAX_DEPTH || !n.had_children {
            opening(n, depth) + "/>\n"@
        } else {
            opening(n, depth) + ">\n"@ + children_text(nodes, n.children, depth + 1) + closing(
                n.raw_role,
                depth,
            )
        }
    }
}

/// The renderings of `children`, one after the other.
pub open spec fn children_text(nodes: Map<Key, NodeView>, children: Seq<Key>, depth: nat) -> Seq<
    char,
>
    decreases 22 - depth, children.len(),
{
    if children.len() == 0 {
        Seq::empty()
    } else {
        children_text(nodes, children.drop_last(), depth) + node_text(nodes, children.last(), depth)
    }
}

/// The declaration that a snapshot document begins with.
pub open spec fn declaration() -> Seq<char> {
    "<?xml version=\"1.0\" encoding=\"UTF-8\"?>\n"@
}

pub(crate) fn push_attribute(out: &mut String, key: &str, value: &str)
    ensures
        final(out)@ == old(out)@ + attribute(key@, value@),
{
    let mut t = " ".to_string();
    t.append(key);
    t.append("=\"");
    t.append(xml_escape(value).as_str());
    t.append("\"");
    out.append(t.as_str());
}

pub(crate) fn push_optional_attribute(out: &mut String, key: &str, value: &str)
    ensures
        final(out)@ == old(out)@ + optional_attribute(key@, value@),
{
    if value.unicode_len() > 0 {
        push_attribute(out, key, value);
    } else {
        assert(out@ =~= old(out)@ + optional_attribute(key@, value@));
    }
}

pub(crate) fn push_states(out: &mut String, states: &StateSet)
    ensures
        final(out)@ == old(out)@ + state_attributes(states@, 17),
{
    let all = emitted_states();
    let mut acc = String::new();
    let mut i: usize = 0;
    while i < all.len()
        invariant
            all@ == atspi::emitted(),
            all.len() == 17,
            i <= all.len(),
            acc@ == state_attributes(states@, i as nat),
        decreases all.len() - i,
    {
        let s = all[i];
        if states.contains(s) {
            let mut t = " ".to_string();
            t.append(s.attr_name());
            t.append("=\"true\"");
            acc.append(t.as_str());
        }
        i = i + 1;
    }
    out.append(acc.as_str());
}

fn push_bounds(out: &mut String, bounds: &Option<Rect>)
    ensures
        final(out)@ == old(out)@ + bounds_attribute(*bounds),
{
    match bounds {
        Some(r) => {
            let mut t = " bbox=\"".to_string();
            t.append(r.to_bbox_string().as_str());
            t.append("\"");
            out.append(t.as_str());
        },
        None => {
            assert(out@ =~= old(out)@ + bounds_attribute(*bounds));
        },
    }
}

fn push_toolkit_attributes(out: &mut String, attrs: &Vec<(String, String)>)
    ensures
        final(out)@ == old(out)@ + toolkit_attributes(keys_of(attrs@)),
{
    let mut acc = String::new();
    let mut i: usize = 0;
    assert(keys_of(attrs@).take(0) =~= Seq::empty());
    while i < attrs.len()
        invariant
            i <= attrs.len(),
            acc@ == toolkit_attributes(keys_of(attrs@).take(i as int)),
        decreases attrs.len() - i,
    {
        let ghost next = keys_of(attrs@).take(i + 1);
        assert(next.drop_last() =~= keys_of(attrs@).take(i as int));
        assert(next.last() == key_of(attrs@[i as int]));
        match sanitize_attr_key(attrs[i].0.as_str()) {
            Some(k) => {
                push_attribute(&mut acc, k.as_str(), attrs[i].1.as_str());
            },
            None => {},
        }
        i = i + 1;
    }
    assert(keys_of(attrs@).take(i as int) =~= keys_of(attrs@));
    out.append(acc.as_str());
}

pub(crate) fn push_reference(out: &mut String, bus: &str, path: &str)
    ensures
        final(out)@ == old(out)@ + reference(bus@, path@),
{
    let mut t = " _ref=\"".to_string();
    t.append(xml_escape(bus).as_str());
    t.append("|");
    t.append(xml_escape(path).as_str());
    t.append("\"");
    out.append(t.as_str());
}

pub(crate) fn indentation(depth: usize) -> (r: String)
    ensures
        r@ == indent(depth as nat),
{
    let mut out = String::new();
    let mut i: usize = 0;
    assert(out@ =~= indent(0));
    while i < depth
        invariant
            i <= depth,
            out@ == indent(i as nat),
        decreases depth - i,
    {
        out.push(' ');
        out.push(' ');
        assert(out@ =~= indent((i + 1) as nat));
        i = i + 1;
    }
    out
}

fn opening_tag(node: &RawNode, depth: usize) -> (r: String)
    ensures
        r@ == opening(node@, depth as nat),
{
    let mut t = indentation(depth);
    t.append("<");
    t.append(tag_of_role(node.raw_role.as_str()).as_str());
    push_attribute(&mut t, "role", node.raw_role.as_str());
    push_optional_attribute(&mut t, "name", node.name.as_str());
    push_optional_attribute(&mut t, "description", node.description.as_str());
    push_states(&mut t, &node.states);
    push_bounds(&mut t, &node.bounds);
    push_toolkit_attributes(&mut t, &node.attrs);
    push_reference(&mut t, node.bus.as_str(), node.path.as_str());
    t
}

pub(crate) fn push_closing(out: &mut String, role: &str, depth: usize)
    ensures
        final(out)@ == old(out)@ + closing(role@, depth as nat),
{
    let mut t = indentation(depth);
    t.append("</");
    t.append(tag_of_role(role).as_str());
    t.append(">\n");
    out.append(t.as_str());
}

/// Renders the subtree at `key` behind what `output` holds, in document order.
pub fn serialize_node(nodes: &NodeMap, key: &(String, String), depth: usize, output: &mut String)
    ensures
        final(output)@ == old(output)@ + node_text(nodes@, key_of(*key), depth as nat),
    decreases 22 - depth,
{
    match nodes.get(key) {
        None => {
            assert(output@ =~= old(output)@ + node_text(nodes@, key_of(*key), depth as nat));
        },
        Some(node) => {
            let mut t = opening_tag(node, depth);
            if depth > MAX_DEPTH || !node.had_children {
                t.append("/>\n");
            } else {
                t.append(">\n");
                let mut inner = String::new();
                let ghost children = keys_of(node.children@);
                let mut i: usize = 0;
                assert(children.take(0) =~= Seq::empty());
                while i < node.children.len()
                    invariant
                        depth <= MAX_DEPTH,
                        i <= node.children.len(),
                        children == keys_of(node.children@),
                        inner@ == children_text(
                            nodes@,
                            children.take(i as int),
                            (depth + 1) as nat,
                        ),
                    decreases node.children.len() - i,
                {
                    serialize_node(nodes, &node.children[i], depth + 1, &mut inner);
                    assert(children.take(i + 1).drop_last() =~= children.take(i as int));
                    assert(children.take(i + 1).last() == key_of(node.children@[i as int]));
                    i = i + 1;
                }
                assert(children.take(i as int) =~= children);
                t.append(inner.as_str());
                push_closing(&mut t, node.raw_role.as_str(), depth);
            }
            output.append(t.as_str());
        },
    }
}

/// The snapshot document of captured nodes, rooted at `root`: the declaration
/// alone where the root was not captured.
pub fn snapshot_document(nodes: &NodeMap, root: &(String, String)) -> (r: String)
    ensures
        r@ == declaration() + node_text(nodes@, key_of(*root), 0),
{
    let mut out = "<?xml version=\"1.0\" encoding=\"UTF-8\"?>\n".to_string();
    serialize_node(nodes, root, 0, &mut out);
    out
}

// ── Capture ─────────────────────────────────────────────────────────────────

/// What the bus answered when one node was read; `None` stands for a read that
/// failed.
#[derive(Debug)]
pub struct NodeReplies {
    pub role: Option<String>,
    pub name: Option<String>,
    pub description: Option<String>,
    pub states: Option<StateSet>,
    pub attrs: Option<Vec<(String, String)>>,
    /// Window-relative extents.
    pub extents: Result<(i32, i32, i32, i32), BusFailure>,
    /// References to the children: bus name, where the reference carries one,
    /// and path.
    pub children: Option<Vec<(Option<String>, String)>>,
}

/// The characters of a text that was read, none where the read failed.
pub open spec fn text_or_empty(s: Option<String>) -> Seq<char> {
    match s {
        Some(t) => t@,
        None => Seq::empty(),
    }
}

/// The references that carry a bus name.
pub open spec fn resolvable(refs: Seq<(Option<String>, String)>) -> Seq<Key>
    decreases refs.len(),
{
    if refs.len() == 0 {
        Seq::empty()
    } else {
        let front = resolvable(refs.drop_last());
        match refs.last().0 {
            Some(bus) => front.push((bus@, refs.last().1@)),
            None => front,
        }
    }
}

/// The node that replies amount to. A failed read counts as empty, except that a
/// failed role read is `"unknown"`; children beyond the depth cap do not count.
pub open spec fn assembled(
    bus: Seq<char>,
    path: Seq<char>,
    depth: nat,
    replies: NodeReplies,
) -> NodeView {
    let refs = match replies.children {
        Some(c) => if depth <= MAX_DEPTH {
            c@
        } else {
            Seq::empty()
        },
        None => Seq::empty(),
    };
    NodeView {
        bus,
        path,
        depth,
        raw_role: match replies.role {
            Some(s) => s@,
            None => "unknown"@,
        },
        name: text_or_empty(replies.name),
        description: text_or_empty(replies.description),
        states: match replies.states {
            Some(s) => s@,
            None => Set::empty(),
        },
        attrs: match replies.attrs {
            Some(a) => keys_of(a@),
            None => Seq::empty(),
        },
        bounds: match atspi::extents(replies.extents) {
            Ok(b) => b,
            Err(_) => None,
        },
        had_children: refs.len() > 0,
        children: resolvable(refs),
    }
}

fn or_empty(s: Option<String>) -> (r: String)
    ensures
        r@ == text_or_empty(s),
{
    match s {
        Some(t) => t,
        None => String::new(),
    }
}

fn resolvable_children(refs: &Vec<(Option<String>, String)>) -> (r: Vec<(String, String)>)
    ensures
        keys_of(r@) == resolvable(refs@),
{
    let mut out: Vec<(String, String)> = Vec::new();
    let mut i: usize = 0;
    assert(keys_of(out@) =~= resolvable(refs@.take(0)));
    while i < refs.len()
        invariant
            i <= refs.len(),
            keys_of(out@) == resolvable(refs@.take(i as int)),
        decreases refs.len() - i,
    {
        assert(refs@.take(i + 1).drop_last() =~= refs@.take(i as int));
        assert(refs@.take(i + 1).last() == refs@[i as int]);
        let ghost before = out@;
        match &refs[i].0 {
            Some(bus) => {
                out.push((bus.clone(), refs[i].1.clone()));
                assert(keys_of(out@) =~= keys_of(before).push((bus@, refs@[i as int].1@)));
            },
            None => {},
        }
        i = i + 1;
    }
    assert(refs@.take(i as int) =~= refs@);
    out
}

/// Whether a node at `depth` is asked for its children.
pub fn asks_for_children(depth: usize) -> (r: bool)
    ensures
        r == (depth <= MAX_DEPTH),
{
    depth <= MAX_DEPTH
}

/// Makes a node of what the bus answered. One failed read does not spoil the
/// node.
pub fn assemble_node(bus: String, path: String, depth: usize, replies: NodeReplies) -> (r: RawNode)
    ensures
        r@ == assembled(bus@, path@, depth as nat, replies),
        r.bus@ == bus@,
        r.path@ == path@,
        r.depth == depth,
        replies.name matches Some(t) ==> r.name@ == t@,
        replies.name is None ==> r.name@.len() == 0,
        replies.description matches Some(t) ==> r.description@ == t@,
        replies.description is None ==> r.description@.len() == 0,
        replies.role matches Some(t) ==> r.raw_role@ == t@,
{
    let bounds = match extents_from_reply(replies.extents) {
        Ok(b) => b,
        Err(_) => None,
    };
    let refs = match replies.children {
        Some(c) => if asks_for_children(depth) {
            c
        } else {
            Vec::new()
        },
        None => Vec::new(),
    };
    let node = RawNode {
        bus,
        path,
        depth,
        raw_role: role_or_unknown(replies.role),
        name: or_empty(replies.name),
        description: or_empty(replies.description),
        states: match replies.states {
            Some(s) => s,
            None => StateSet::empty(),
        },
        attrs: match replies.attrs {
            Some(a) => a,
            None => Vec::new(),
        },
        bounds,
        had_children: refs.len() > 0,
        children: resolvable_children(&refs),
    };
    assert(node@ =~= assembled(node.bus@, node.path@, depth as nat, replies));
    node
}

/// The state of a walk over the tree: which nodes were captured, which identities
/// were ever queued, what waits to be read, and how many reads are under way.
pub struct SubtreeWalk {
    nodes: NodeMap,
    seen: Vec<(String, String)>,
    queue: VecDeque<(String, String, usize)>,
    in_flight: usize,
}

/// The mathematical value of a [`SubtreeWalk`].
#[verifier::ext_equal]
pub struct WalkView {
    pub nodes: Map<Key, NodeView>,
    pub seen: Set<Key>,
    pub queue: Seq<(Key, nat)>,
    pub in_flight: nat,
}

impl View for SubtreeWalk {
    type V = WalkView;

    closed spec fn view(&self) -> WalkView {
        WalkView {
            nodes: self.nodes@,
            seen: keys_of(self.seen@).to_set(),
            queue: queued(self.queue@),
            in_flight: self.in_flight as nat,
        }
    }
}

spec fn queued(q: Seq<(String, String, usize)>) -> Seq<(Key, nat)> {
    q.map_values(|e: (String, String, usize)| ((e.0@, e.1@), e.2 as nat))
}

impl WalkView {
    /// Whether every waiting identity is known and none waits twice.
    pub open spec fn valid(self) -> bool {
        &&& forall|i: int|
            0 <= i < self.queue.len() ==> self.seen.contains((#[trigger] self.queue[i]).0)
        &&& forall|i: int, j: int|
            0 <= i < j < self.queue.len() ==> (#[trigger] self.queue[i]).0 != (
            #[trigger] self.queue[j]).0
    }

    /// Whether `key` waits to be read.
    pub open spec fn waiting(self, key: Key) -> bool {
        exists|i: int| 0 <= i < self.queue.len() && (#[trigger] self.queue[i]).0 == key
    }

    /// The walk with the unknown ones of `children` queued, each at `depth`.
    pub open spec fn with_children(self, children: Seq<Key>, depth: nat) -> WalkView
        decreases children.len(),
    {
        if children.len() == 0 {
            self
        } else {
            let front = self.with_children(children.drop_last(), depth);
            let k = children.last();
            if front.seen.contains(k) {
                front
            } else {
                WalkView { seen: front.seen.insert(k), queue: front.queue.push((k, depth)), ..front }
            }
        }
    }

    /// The walk after one read ended, with the node it gave, if any.
    pub open spec fn after_read(self, node: Option<NodeView>) -> WalkView {
        let ended = WalkView { in_flight: (self.in_flight - 1) as nat, ..self };
        match node {
            None => ended,
            Some(n) => {
                let w = ended.with_children(n.children, n.depth + 1);
                WalkView { nodes: w.nodes.insert((n.bus, n.path), n), ..w }
            },
        }
    }
}

impl SubtreeWalk {
    /// A walk that begins at the given root.
    pub fn new(root_bus: &str, root_path: &str) -> (r: Self)
        ensures
            r@ == (WalkView {
                nodes: Map::empty(),
                seen: set![(root_bus@, root_path@)],
                queue: seq![((root_bus@, root_path@), 0nat)],
                in_flight: 0,
            }),
            r@.valid(),
    {
        let mut seen: Vec<(String, String)> = Vec::new();
        seen.push((root_bus.to_string(), root_path.to_string()));
        let mut queue: VecDeque<(String, String, usize)> = VecDeque::new();
        queue.push_back((root_bus.to_string(), root_path.to_string(), 0));
        let r = SubtreeWalk { nodes: NodeMap::new(), seen, queue, in_flight: 0 };
        proof {
            let k: Key = (root_bus@, root_path@);
            assert(keys_of(seen@) =~= seq![k]);
            assert(keys_of(seen@).to_set() =~= set![k]) by {
                assert(keys_of(seen@)[0] == k);
            }
            assert(queued(queue@) =~= seq![(k, 0nat)]);
        }
        r
    }

    /// The next node to read: `None` while enough reads are under way or nothing
    /// waits.
    pub fn next(&mut self) -> (r: Option<(String, String, usize)>)
        requires
            old(self)@.valid(),
        ensures
            final(self)@.valid(),
            ({
                let before = old(self)@;
                if before.in_flight < WALK_CONCURRENCY && before.queue.len() > 0 {
                    &&& r matches Some(e) && ((e.0@, e.1@), e.2 as nat) == before.queue[0]
                    &&& final(self)@ == WalkView {
                        queue: before.queue.skip(1),
                        in_flight: before.in_flight + 1,
                        ..before
                    }
                } else {
                    &&& r is None
                    &&& final(self)@ == before
                }
            }),
    {
        if self.in_flight >= WALK_CONCURRENCY {
            return None;
        }
        let ghost q = self.queue@;
        match self.queue.pop_front() {
            None => None,
            Some(e) => {
                self.in_flight = self.in_flight + 1;
                proof {
                    assert(queued(self.queue@) =~= queued(q).skip(1));
                    assert(queued(q)[0] == ((e.0@, e.1@), e.2 as nat));
                    assert forall|i: int| 0 <= i < self@.queue.len() implies self@.seen.contains(
                        (#[trigger] self@.queue[i]).0,
                    ) by {
                        assert(self@.queue[i] == old(self)@.queue[i + 1]);
                    }
                    assert forall|i: int, j: int| 0 <= i < j < self@.queue.len() implies (
                    #[trigger] self@.queue[i]).0 != (#[trigger] self@.queue[j]).0 by {
                        assert(self@.queue[i] == old(self)@.queue[i + 1]);
                        assert(self@.queue[j] == old(self)@.queue[j + 1]);
                    }
                }
                Some(e)
            },
        }
    }

    /// Whether nothing is under way any more. With nothing left for [`next`] the
    /// walk is over.
    ///
    /// [`next`]: SubtreeWalk::next
    pub fn idle(&self) -> (r: bool)
        ensures
            r == (self@.in_flight == 0),
    {
        self.in_flight == 0
    }

    fn knows(&self, key: &(String, String)) -> (r: bool)
        ensures
            r == self@.seen.contains(key_of(*key)),
    {
        let mut i: usize = 0;
        while i < self.seen.len()
            invariant
                i <= self.seen.len(),
                forall|k: int| 0 <= k < i ==> key_of(self.seen@[k]) != key_of(*key),
            decreases self.seen.len() - i,
        {
            if same_key(&self.seen[i], key) {
                assert(keys_of(self.seen@)[i as int] == key_of(*key));
                return true;
            }
            i = i + 1;
        }
        assert forall|k: int| 0 <= k < keys_of(self.seen@).len() implies keys_of(self.seen@)[k]
            != key_of(*key) by {}
        false
    }

    /// Takes in the result of one read: the node, or `None` where it could not be
    /// read. Children met for the first time are queued.
    pub fn record(&mut self, fetched: Option<RawNode>)
        requires
            old(self)@.valid(),
            old(self)@.in_flight > 0,
            fetched matches Some(n) ==> n.depth < usize::MAX,
        ensures
            final(self)@.valid(),
            final(self)@ == old(self)@.after_read(
                match fetched {
                    Some(n) => Some(n@),
                    None => None,
                },
            ),
    {
        self.in_flight = self.in_flight - 1;
        assert(self@ == WalkView { in_flight: (old(self)@.in_flight - 1) as nat, ..old(self)@ });
        assert(self@.valid()) by {
            assert(self@.queue == old(self)@.queue);
            assert(self@.seen == old(self)@.seen);
        }
        match fetched {
            None => {},
            Some(node) => {
                let ghost start = self@;
                let ghost children = keys_of(node.children@);
                let mut i: usize = 0;
                assert(children.take(0) =~= Seq::empty());
                while i < node.children.len()
                    invariant
                        i <= node.children.len(),
                        node.depth < usize::MAX,
                        children == keys_of(node.children@),
                        start.valid(),
                        self@ == start.with_children(children.take(i as int), node.depth as nat + 1),
                        self@.valid(),
                    decreases node.children.len() - i,
                {
                    let ghost before = self@;
                    let key = (node.children[i].0.clone(), node.children[i].1.clone());
                    let ghost k = key_of(key);
                    proof {
                        assert(children.take(i + 1).drop_last() =~= children.take(i as int));
                        assert(children.take(i + 1).last() == k);
                    }
                    if !self.knows(&key) {
                        let ghost seen = self.seen@;
                        let ghost queue = self.queue@;
                        self.queue.push_back((key.0.clone(), key.1.clone(), node.depth + 1));
                        self.seen.push(key);
                        proof {
                            assert(keys_of(self.seen@) =~= keys_of(seen).push(k));
                            assert(keys_of(self.seen@).to_set() =~= before.seen.insert(k)) by {
                                lemma_push_to_set(keys_of(seen), k);
                            }
                            assert(queued(self.queue@) =~= queued(queue).push(
                                (k, node.depth as nat + 1),
                            ));
                            lemma_queue_stays_valid(before, k, node.depth as nat + 1, self@);
                        }
                    }
                    i = i + 1;
                }
                assert(children.take(i as int) =~= children);
                let ghost walked = self@;
                self.nodes.insert((node.bus.clone(), node.path.clone()), node);
                assert(self@.valid()) by {
                    assert(self@.queue == walked.queue);
                    assert(self@.seen == walked.seen);
                }
            },
        }
    }

    /// The captured nodes.
    pub fn into_nodes(self) -> (r: NodeMap)
        ensures
            r@ == self@.nodes,
    {
        self.nodes
    }
}

proof fn lemma_push_to_set(s: Seq<Key>, k: Key)
    ensures
        s.push(k).to_set() == s.to_set().insert(k),
{
    s.lemma_push_to_set_commute(k);
}

proof fn lemma_queue_stays_valid(before: WalkView, k: Key, depth: nat, after: WalkView)
    requires
        before.valid(),
        !before.seen.contains(k),
        after.seen == before.seen.insert(k),
        after.queue == before.queue.push((k, depth)),
    ensures
        after.valid(),
{
    assert forall|i: int| 0 <= i < after.queue.len() implies after.seen.contains(
        (#[trigger] after.queue[i]).0,
    ) by {
        if i < before.queue.len() {
            assert(after.queue[i] == before.queue[i]);
        }
    }
    assert forall|i: int, j: int| 0 <= i < j < after.queue.len() implies (
    #[trigger] after.queue[i]).0 != (#[trigger] after.queue[j]).0 by {
        assert(after.queue[i] == before.queue[i]);
        if j < before.queue.len() {
            assert(after.queue[j] == before.queue[j]);
        }
    }
}

/// Each accessible is read at most once: an identity that was queued before and
/// no longer waits is never queued again, whatever the nodes read later report.
pub proof fn law_walk_reads_once(w: WalkView, node: Option<NodeView>, key: Key)
    requires
        w.seen.contains(key),
        !w.waiting(key),
    ensures
        w.after_read(node).seen.contains(key),
        !w.after_read(node).waiting(key),
{
    match node {
        Some(n) => {
            let ended = WalkView { in_flight: (w.in_flight - 1) as nat, ..w };
            assert forall|i: int| 0 <= i < ended.queue.len() implies (#[trigger] ended.queue[i]).0
                != key by {
                assert(w.queue[i].0 != key);
            }
            lemma_children_keep_known(ended, n.children, n.depth + 1, key);
            let c = ended.with_children(n.children, n.depth + 1);
            let r = w.after_read(node);
            assert forall|i: int| 0 <= i < r.queue.len() implies (#[trigger] r.queue[i]).0
                != key by {
                assert(c.queue[i].0 != key);
            }
        },
        None => {
            let r = w.after_read(node);
            assert forall|i: int| 0 <= i < r.queue.len() implies (#[trigger] r.queue[i]).0
                != key by {
                assert(w.queue[i].0 != key);
            }
        },
    }
}

proof fn lemma_children_keep_known(w: WalkView, children: Seq<Key>, depth: nat, key: Key)
    requires
        w.seen.contains(key),
        forall|i: int| 0 <= i < w.queue.len() ==> (#[trigger] w.queue[i]).0 != key,
    ensures
        ({
            let r = w.with_children(children, depth);
            &&& r.seen.contains(key)
            &&& forall|i: int| 0 <= i < r.queue.len() ==> (#[trigger] r.queue[i]).0 != key
        }),
    decreases children.len(),
{
    if children.len() > 0 {
        lemma_children_keep_known(w, children.drop_last(), depth, key);
        let front = w.with_children(children.drop_last(), depth);
        let r = w.with_children(children, depth);
        assert forall|i: int| 0 <= i < r.queue.len() implies (#[trigger] r.queue[i]).0 != key by {
            if i < front.queue.len() {
                assert(r.queue[i] == front.queue[i]);
            }
        }
    }
}

/// Beyond the depth cap a node is emitted without children, whatever the captured
/// nodes say: a tree that leads back into itself renders to a finite document.
pub proof fn law_depth_cap(nodes: Map<Key, NodeView>, key: Key, depth: nat)
    requires
        nodes.dom().contains(key),
        depth > MAX_DEPTH,
    ensures
        node_text(nodes, key, depth) == opening(nodes[key], depth) + "/>\n"@,
{
}

/// A child that could not be read contributes nothing.
pub proof fn law_missing_node_is_skipped(nodes: Map<Key, NodeView>, key: Key, depth: nat)
    requires
        !nodes.dom().contains(key),
    ensures
        node_text(nodes, key, depth) == Seq::<char>::empty(),
{
}

// ── Reading elements ────────────────────────────────────────────────────────

/// The attributes that a text begins with: each a space, a name, an equals sign and a value
/// in double quotes, whose entities are decoded.
pub open spec fn attributes_in(s: Seq<char>) -> Seq<(Seq<char>, Seq<char>)>
    decreases s.len(),
{
    if s.len() == 0 || s[0] != ' ' {
        Seq::empty()
    } else {
        match text::split_once(s.skip(1), '=') {
            None => Seq::empty(),
            Some((k, quoted)) => if quoted.len() == 0 || quoted[0] != '"' {
                Seq::empty()
            } else {
                match text::split_once(quoted.skip(1), '"') {
                    None => Seq::empty(),
                    Some((v, rest)) => if rest.len() < s.len() {
                        seq![(k, atspi::unescaped(v))] + attributes_in(rest)
                    } else {
                        Seq::empty()
                    },
                }
            },
        }
    }
}

/// The name and the attributes of the first element in a text.
pub open spec fn element_head(s: Seq<char>) -> Option<
    (Seq<char>, Seq<(Seq<char>, Seq<char>)>),
> {
    match text::split_once(s, '<') {
        None => None,
        Some((_, inner)) => match text::split_once(inner, ' ') {
            None => None,
            Some((name, attrs)) => Some((name, attributes_in(seq![' '] + attrs))),
        },
    }
}

/// The value of the first attribute of a name.
pub open spec fn value_of(attrs: Seq<(Seq<char>, Seq<char>)>, key: Seq<char>) -> Option<Seq<char>>
    decreases attrs.len(),
{
    if attrs.len() == 0 {
        None
    } else if attrs[0].0 == key {
        Some(attrs[0].1)
    } else {
        value_of(attrs.skip(1), key)
    }
}

/// The attribute of a name that the first element in a text carries.
pub open spec fn carried(element: Seq<char>, key: Seq<char>) -> Option<Seq<char>> {
    match element_head(element) {
        Some((_, attrs)) => value_of(attrs, key),
        None => None,
    }
}

/// Whether a text holds no control character but tabs and line ends.
pub open spec fn printable(s: Seq<char>) -> bool {
    forall|i: int|
        0 <= i < s.len() ==> #[trigger] s[i] as u32 >= 0x20 || s[i] == '\t' || s[i] == '\n' || s[i]
            == '\r'
}

pub(crate) proof fn lemma_value_joined(
    a: Seq<(Seq<char>, Seq<char>)>,
    b: Seq<(Seq<char>, Seq<char>)>,
    key: Seq<char>,
)
    ensures
        value_of(a + b, key) == (if value_of(a, key) is Some {
            value_of(a, key)
        } else {
            value_of(b, key)
        }),
    decreases a.len(),
{
    if a.len() == 0 {
        assert(a + b =~= b);
    } else {
        assert((a + b).skip(1) =~= a.skip(1) + b);
        lemma_value_joined(a.skip(1), b, key);
    }
}

pub(crate) proof fn lemma_value_of_one(k: Seq<char>, v: Seq<char>, key: Seq<char>)
    ensures
        value_of(seq![(k, v)], key) == (if k == key {
            Some(v)
        } else {
            None
        }),
{
    reveal_with_fuel(value_of, 2);
    assert(seq![(k, v)].skip(1) =~= Seq::empty());
}

/// An attribute in front of a text is read first.
pub(crate) proof fn lemma_attribute_reads(k: Seq<char>, v: Seq<char>, rest: Seq<char>)
    requires
        !k.contains('='),
    ensures
        attributes_in(attribute(k, v) + rest) == seq![(k, atspi::unescaped(atspi::escaped(v)))]
            + attributes_in(rest),
{
    reveal_strlit(" ");
    reveal_strlit("=\"");
    reveal_strlit("\"");
    let e = atspi::escaped(v);
    let s = attribute(k, v) + rest;
    let quoted = seq!['"'] + e + seq!['"'] + rest;
    assert(s.skip(1) =~= k + seq!['='] + quoted);
    let inner = s.skip(1);
    assert forall|i: int| 0 <= i < k.len() implies inner[i] != '=' by {
        assert(k.contains(k[i]));
    }
    text::lemma_first_index_is(inner, '=', k.len() as int);
    assert(inner.take(k.len() as int) =~= k);
    assert(inner.skip(k.len() as int + 1) =~= quoted);
    let value = quoted.skip(1);
    assert(value =~= e + seq!['"'] + rest);
    atspi::law_escaped_stays_inside(v);
    assert forall|i: int| 0 <= i < e.len() implies value[i] != '"' by {
        assert(value[i] == e[i]);
    }
    text::lemma_first_index_is(value, '"', e.len() as int);
    assert(value.take(e.len() as int) =~= e);
    assert(value.skip(e.len() as int + 1) =~= rest);
}

proof fn lemma_plain_is_kept(t: Seq<char>)
    requires
        forall|i: int|
            0 <= i < t.len() ==> {
                let c = #[trigger] t[i];
                c as u32 >= 0x20 && c != '<' && c != '>' && c != '&' && c != '"' && c != '\''
            },
    ensures
        atspi::escaped(t) == t,
    decreases t.len(),
{
    if t.len() > 0 {
        let front = t.drop_last();
        assert forall|i: int| 0 <= i < front.len() implies {
            let c = #[trigger] front[i];
            c as u32 >= 0x20 && c != '<' && c != '>' && c != '&' && c != '"' && c != '\''
        } by {
            assert(front[i] == t[i]);
        }
        lemma_plain_is_kept(front);
        let c = t[t.len() - 1];
        assert(c as u32 >= 0x20 && c != '<' && c != '>' && c != '&' && c != '"' && c != '\'');
        assert(atspi::escaped(t) =~= t);
    }
}

/// The attributes of set states among the first `n`.
pub(crate) open spec fn state_list(states: Set<State>, n: nat) -> Seq<(Seq<char>, Seq<char>)>
    decreases n,
{
    if n == 0 {
        Seq::empty()
    } else {
        let front = state_list(states, (n - 1) as nat);
        let s = atspi::emitted()[n - 1];
        if states.contains(s) {
            front.push((s.attr(), "true"@))
        } else {
            front
        }
    }
}

pub(crate) proof fn lemma_states_read(states: Set<State>, n: nat, rest: Seq<char>)
    requires
        n <= 17,
    ensures
        attributes_in(state_attributes(states, n) + rest) == state_list(states, n) + attributes_in(
            rest,
        ),
    decreases n,
{
    if n == 0 {
        assert(state_attributes(states, n) + rest =~= rest);
        assert(state_list(states, n) + attributes_in(rest) =~= attributes_in(rest));
    } else {
        let s = atspi::emitted()[n - 1];
        let front = state_attributes(states, (n - 1) as nat);
        if states.contains(s) {
            reveal_strlit("true");
            reveal_strlit("=\"true\"");
            reveal_strlit("=\"");
            reveal_strlit("\"");
            reveal_strlit(" ");
            lemma_plain_is_kept("true"@);
            let piece = attribute(s.attr(), "true"@);
            assert(piece =~= " "@ + s.attr() + "=\"true\""@);
            assert(state_attributes(states, n) + rest =~= front + (piece + rest));
            lemma_states_read(states, (n - 1) as nat, piece + rest);
            lemma_state_attr_plain(s);
            lemma_attribute_reads(s.attr(), "true"@, rest);
            atspi::law_only_controls_are_dropped("true"@);
            let list = state_list(states, (n - 1) as nat);
            assert(list + (seq![(s.attr(), "true"@)] + attributes_in(rest)) =~= list.push(
                (s.attr(), "true"@),
            ) + attributes_in(rest));
        } else {
            lemma_states_read(states, (n - 1) as nat, rest);
        }
    }
}

proof fn lemma_state_attr_plain(s: State)
    ensures
        !s.attr().contains('='),
{
    reveal_strlit("showing");
    reveal_strlit("visible");
    reveal_strlit("enabled");
    reveal_strlit("sensitive");
    reveal_strlit("focused");
    reveal_strlit("focusable");
    reveal_strlit("selected");
    reveal_strlit("selectable");
    reveal_strlit("checked");
    reveal_strlit("checkable");
    reveal_strlit("active");
    reveal_strlit("editable");
    reveal_strlit("expandable");
    reveal_strlit("expanded");
    reveal_strlit("collapsed");
    reveal_strlit("pressed");
    reveal_strlit("modal");
}

pub(crate) proof fn lemma_state_value(states: Set<State>, n: nat, key: Seq<char>)
    requires
        n <= 17,
    ensures
        !atspi::state_attr(key) ==> value_of(state_list(states, n), key) is None,
        forall|i: int|
            0 <= i < n && (#[trigger] atspi::emitted()[i]).attr() == key ==> value_of(
                state_list(states, n),
                key,
            ) == (if states.contains(atspi::emitted()[i]) {
                Some("true"@)
            } else {
                None
            }),
        (forall|i: int| 0 <= i < n ==> (#[trigger] atspi::emitted()[i]).attr() != key) ==> value_of(
            state_list(states, n),
            key,
        ) is None,
    decreases n,
{
    if n > 0 {
        lemma_state_value(states, (n - 1) as nat, key);
        let s = atspi::emitted()[n - 1];
        let front = state_list(states, (n - 1) as nat);
        atspi::law_every_state_is_emitted_once(s, s);
        if states.contains(s) {
            assert(front.push((s.attr(), "true"@)) =~= front + seq![(s.attr(), "true"@)]);
            lemma_value_joined(front, seq![(s.attr(), "true"@)], key);
            lemma_value_of_one(s.attr(), "true"@, key);
        }
        assert forall|i: int| 0 <= i < n && (#[trigger] atspi::emitted()[i]).attr()
            == key implies value_of(state_list(states, n), key) == (if states.contains(
            atspi::emitted()[i],
        ) {
            Some("true"@)
        } else {
            None
        }) by {
            atspi::law_every_state_is_emitted_once(atspi::emitted()[i], s);
            if i == n - 1 {
                assert forall|j: int| 0 <= j < n - 1 implies (#[trigger] atspi::emitted()[j]).attr()
                    != key by {
                    atspi::law_every_state_is_emitted_once(atspi::emitted()[j], s);
                    assert(atspi::emitted()[j] != atspi::emitted()[n - 1]);
                }
            } else {
                assert(atspi::emitted()[i] != atspi::emitted()[n - 1]);
            }
        }
        if forall|i: int| 0 <= i < n ==> (#[trigger] atspi::emitted()[i]).attr() != key {
            assert forall|i: int| 0 <= i < n - 1 implies (#[trigger] atspi::emitted()[i]).attr()
                != key by {}
            assert(atspi::emitted()[n - 1].attr() != key);
        }
        if !atspi::state_attr(key) {
            assert(atspi::emitted()[n - 1].attr() != key);
        }
    }
}

/// The attributes that toolkit attributes are emitted as.
spec fn toolkit_list(attrs: Seq<(Seq<char>, Seq<char>)>) -> Seq<(Seq<char>, Seq<char>)>
    decreases attrs.len(),
{
    if attrs.len() == 0 {
        Seq::empty()
    } else {
        let front = toolkit_list(attrs.drop_last());
        match atspi::sanitized(attrs.last().0) {
            Some(k) => front.push((k, atspi::unescaped(atspi::escaped(attrs.last().1)))),
            None => front,
        }
    }
}

proof fn lemma_toolkit_read(attrs: Seq<(Seq<char>, Seq<char>)>, rest: Seq<char>)
    ensures
        attributes_in(toolkit_attributes(attrs) + rest) == toolkit_list(attrs) + attributes_in(
            rest,
        ),
    decreases attrs.len(),
{
    if attrs.len() == 0 {
        assert(toolkit_attributes(attrs) + rest =~= rest);
        assert(toolkit_list(attrs) + attributes_in(rest) =~= attributes_in(rest));
    } else {
        let front = toolkit_attributes(attrs.drop_last());
        let (key, v) = attrs.last();
        atspi::law_sanitized_is_attribute_name(key);
        match atspi::sanitized(key) {
            Some(k) => {
                assert forall|i: int| 0 <= i < k.len() implies k[i] != '=' by {
                    assert(atspi::attr_char(k[i]) == k[i]);
                }
                let piece = attribute(k, v);
                assert(toolkit_attributes(attrs) + rest =~= front + (piece + rest));
                lemma_toolkit_read(attrs.drop_last(), piece + rest);
                lemma_attribute_reads(k, v, rest);
                let list = toolkit_list(attrs.drop_last());
                let value = atspi::unescaped(atspi::escaped(v));
                assert(list + (seq![(k, value)] + attributes_in(rest)) =~= list.push((k, value))
                    + attributes_in(rest));
            },
            None => {
                lemma_toolkit_read(attrs.drop_last(), rest);
            },
        }
    }
}

proof fn lemma_toolkit_value(attrs: Seq<(Seq<char>, Seq<char>)>, key: Seq<char>, at: int)
    ensures
        key == "role"@ || key == "name"@ || key == "_ref"@ ==> value_of(
            toolkit_list(attrs),
            key,
        ) is None,
        (forall|j: int| 0 <= j < attrs.len() ==> atspi::sanitized((#[trigger] attrs[j]).0) != Some(key))
            ==> value_of(toolkit_list(attrs), key) is None,
        0 <= at < attrs.len() && atspi::sanitized(attrs[at].0) == Some(key) && (forall|j: int|
            0 <= j < at ==> atspi::sanitized((#[trigger] attrs[j]).0) != Some(key)) ==> value_of(
            toolkit_list(attrs),
            key,
        ) == Some(atspi::unescaped(atspi::escaped(attrs[at].1))),
    decreases attrs.len(),
{
    if attrs.len() > 0 {
        let rest = attrs.drop_last();
        lemma_toolkit_value(rest, key, at);
        let front = toolkit_list(rest);
        atspi::law_builtin_names(attrs.last().0);
        match atspi::sanitized(attrs.last().0) {
            Some(k) => {
                let value = atspi::unescaped(atspi::escaped(attrs.last().1));
                assert(front.push((k, value)) =~= front + seq![(k, value)]);
                lemma_value_joined(front, seq![(k, value)], key);
                lemma_value_of_one(k, value, key);
            },
            None => {},
        }
        if forall|j: int| 0 <= j < attrs.len() ==> atspi::sanitized((#[trigger] attrs[j]).0) != Some(key) {
            assert forall|j: int| 0 <= j < rest.len() implies atspi::sanitized(
                (#[trigger] rest[j]).0,
            ) != Some(key) by {
                assert(rest[j] == attrs[j]);
            }
            assert(atspi::sanitized(attrs[attrs.len() - 1].0) != Some(key));
        }
        if 0 <= at < attrs.len() && atspi::sanitized(attrs[at].0) == Some(key) && (forall|j: int|
            0 <= j < at ==> atspi::sanitized((#[trigger] attrs[j]).0) != Some(key)) {
            assert forall|j: int| 0 <= j < at implies atspi::sanitized((#[trigger] rest[j]).0)
                != Some(key) by {
                assert(rest[j] == attrs[j]);
            }
            if at < rest.len() {
                assert(rest[at] == attrs[at]);
            }
        }
    }
}

pub(crate) open spec fn optional_list(key: Seq<char>, value: Seq<char>) -> Seq<(Seq<char>, Seq<char>)> {
    if value.len() == 0 {
        Seq::empty()
    } else {
        seq![(key, atspi::unescaped(atspi::escaped(value)))]
    }
}

pub(crate) proof fn lemma_optional_reads(key: Seq<char>, value: Seq<char>, rest: Seq<char>)
    requires
        !key.contains('='),
    ensures
        attributes_in(optional_attribute(key, value) + rest) == optional_list(key, value)
            + attributes_in(rest),
{
    if value.len() == 0 {
        assert(optional_attribute(key, value) + rest =~= rest);
        assert(optional_list(key, value) + attributes_in(rest) =~= attributes_in(rest));
    } else {
        lemma_attribute_reads(key, value, rest);
    }
}

spec fn bounds_list(bounds: Option<Rect>) -> Seq<(Seq<char>, Seq<char>)> {
    match bounds {
        Some(r) => seq![("bbox"@, geometry::bbox_text(r))],
        None => Seq::empty(),
    }
}

proof fn lemma_bounds_read(bounds: Option<Rect>, rest: Seq<char>)
    ensures
        attributes_in(bounds_attribute(bounds) + rest) == bounds_list(bounds) + attributes_in(rest),
{
    match bounds {
        Some(r) => {
            let t = geometry::bbox_text(r);
            lemma_bbox_is_plain(r);
            lemma_plain_is_kept(t);
            atspi::law_only_controls_are_dropped(t);
            reveal_strlit(" bbox=\"");
            reveal_strlit("bbox");
            reveal_strlit("=\"");
            reveal_strlit("\"");
            reveal_strlit(" ");
            assert(bounds_attribute(bounds) =~= attribute("bbox"@, t));
            lemma_attribute_reads("bbox"@, t, rest);
        },
        None => {
            assert(bounds_attribute(bounds) + rest =~= rest);
            assert(bounds_list(bounds) + attributes_in(rest) =~= attributes_in(rest));
        },
    }
}

proof fn lemma_bbox_is_plain(r: Rect)
    ensures
        forall|i: int|
            0 <= i < geometry::bbox_text(r).len() ==> {
                let c = #[trigger] geometry::bbox_text(r)[i];
                '0' <= c <= '9' || c == '-' || c == ','
            },
{
    reveal_strlit(",");
    lemma_number_is_plain(r.x as int);
    lemma_number_is_plain(r.y as int);
    lemma_number_is_plain(r.width as int);
    lemma_number_is_plain(r.height as int);
    let a = text::decimal_int(r.x as int);
    let b = text::decimal_int(r.y as int);
    let c = text::decimal_int(r.width as int);
    let d = text::decimal_int(r.height as int);
    let t = geometry::bbox_text(r);
    assert forall|i: int| 0 <= i < t.len() implies {
        let c = #[trigger] t[i];
        '0' <= c <= '9' || c == '-' || c == ','
    } by {
        let (p, q, s) = (a.len() as int, a.len() + 1 + b.len(), a.len() + 1 + b.len() + 1 + c.len());
        if i < p {
            assert(t[i] == a[i]);
        } else if i == p {
        } else if i < q {
            assert(t[i] == b[i - p - 1]);
        } else if i == q {
        } else if i < s {
            assert(t[i] == c[i - q - 1]);
        } else if i == s {
        } else {
            assert(t[i] == d[i - s - 1]);
        }
    }
}

proof fn lemma_number_is_plain(n: int)
    ensures
        forall|i: int|
            0 <= i < text::decimal_int(n).len() ==> {
                let c = #[trigger] text::decimal_int(n)[i];
                '0' <= c <= '9' || c == '-'
            },
{
    let t = text::decimal_int(n);
    let m = if n < 0 {
        (-n) as nat
    } else {
        n as nat
    };
    text::law_numeral_is_decimal(m, 0);
    assert forall|i: int| 0 <= i < t.len() implies {
        let c = #[trigger] t[i];
        '0' <= c <= '9' || c == '-'
    } by {
        if n < 0 && i > 0 {
            assert(t[i] == text::decimal(m)[i - 1]);
        }
    }
}

pub(crate) proof fn lemma_reference_reads(bus: Seq<char>, path: Seq<char>, rest: Seq<char>)
    ensures
        attributes_in(reference(bus, path) + rest) == seq![
            (
                "_ref"@,
                atspi::unescaped(atspi::escaped(bus + "|"@ + path)),
            ),
        ] + attributes_in(rest),
{
    reveal_strlit("|");
    reveal_strlit("_ref");
    reveal_strlit(" _ref=\"");
    reveal_strlit("=\"");
    reveal_strlit("\"");
    reveal_strlit(" ");
    lemma_plain_is_kept("|"@);
    atspi::law_escaping_goes_by_character(bus, "|"@, '|');
    atspi::law_escaping_goes_by_character(bus + "|"@, path, '|');
    let whole = bus + "|"@ + path;
    assert(reference(bus, path) =~= attribute("_ref"@, whole));
    lemma_attribute_reads("_ref"@, whole, rest);
}

/// The head of an element is read off the text of its indentation, name and attributes.
pub(crate) proof fn lemma_head_reads(depth: nat, name: Seq<char>, attrs: Seq<char>)
    requires
        atspi::tag_shaped(name),
        attrs.len() > 0,
        attrs[0] == ' ',
    ensures
        element_head(indent(depth) + "<"@ + name + attrs) == Some((name, attributes_in(attrs))),
{
    reveal_strlit("<");
    let s = indent(depth) + "<"@ + name + attrs;
    text::lemma_first_index_is(s, '<', 2 * depth as int);
    let inner = s.skip(2 * depth as int + 1);
    assert(inner =~= name + attrs);
    assert forall|i: int| 0 <= i < name.len() implies inner[i] != ' ' by {
        assert(inner[i] == name[i]);
        if i > 0 {
            assert(atspi::alphanumeric(name[i]) || name[i] == '_' || name[i] == '-');
        }
    }
    text::lemma_first_index_is(inner, ' ', name.len() as int);
    assert(inner.take(name.len() as int) =~= name);
    assert(inner.skip(name.len() as int + 1) =~= attrs.skip(1));
    assert(seq![' '] + attrs.skip(1) =~= attrs);
}

spec fn attribute_list(n: NodeView) -> Seq<(Seq<char>, Seq<char>)> {
    seq![("role"@, atspi::unescaped(atspi::escaped(n.raw_role)))] + (optional_list("name"@, n.name)
        + (optional_list("description"@, n.description) + (state_list(n.states, 17) + (bounds_list(
        n.bounds,
    ) + (toolkit_list(n.attrs) + seq![
        ("_ref"@, atspi::unescaped(atspi::escaped(n.bus + "|"@ + n.path))),
    ])))))
}

pub(crate) proof fn lemma_attribute_begins(k: Seq<char>, v: Seq<char>)
    ensures
        attribute(k, v).len() > 0,
        attribute(k, v)[0] == ' ',
{
    reveal_strlit(" ");
}

pub(crate) proof fn lemma_behind(a: Seq<char>, b: Seq<char>, c: Seq<char>)
    ensures
        (a + b) + c == a + (b + c),
{
    assert((a + b) + c =~= a + (b + c));
}

proof fn lemma_opening_reads(n: NodeView, depth: nat, rest: Seq<char>)
    requires
        rest.len() == 0 || rest[0] != ' ',
    ensures
        element_head(opening(n, depth) + rest) == Some((atspi::tag(n.raw_role), attribute_list(n))),
{
    reveal_strlit("role");
    reveal_strlit("name");
    reveal_strlit("description");
    let r6 = reference(n.bus, n.path) + rest;
    let r5 = toolkit_attributes(n.attrs) + r6;
    let r4 = bounds_attribute(n.bounds) + r5;
    let r3 = state_attributes(n.states, 17) + r4;
    let r2 = optional_attribute("description"@, n.description) + r3;
    let r1 = optional_attribute("name"@, n.name) + r2;
    let attrs = attribute("role"@, n.raw_role) + r1;
    let name = atspi::tag(n.raw_role);
    let h0 = indent(depth) + "<"@ + name;
    let h1 = h0 + attribute("role"@, n.raw_role);
    let h2 = h1 + optional_attribute("name"@, n.name);
    let h3 = h2 + optional_attribute("description"@, n.description);
    let h4 = h3 + state_attributes(n.states, 17);
    let h5 = h4 + bounds_attribute(n.bounds);
    let h6 = h5 + toolkit_attributes(n.attrs);
    lemma_behind(h6, reference(n.bus, n.path), rest);
    lemma_behind(h5, toolkit_attributes(n.attrs), r6);
    lemma_behind(h4, bounds_attribute(n.bounds), r5);
    lemma_behind(h3, state_attributes(n.states, 17), r4);
    lemma_behind(h2, optional_attribute("description"@, n.description), r3);
    lemma_behind(h1, optional_attribute("name"@, n.name), r2);
    lemma_behind(h0, attribute("role"@, n.raw_role), r1);
    assert(opening(n, depth) + rest == h0 + attrs);
    atspi::law_tag_is_element_name(n.raw_role);
    assert(attrs.len() > 0 && attrs[0] == ' ') by {
        lemma_attribute_begins("role"@, n.raw_role);
    }
    lemma_head_reads(depth, name, attrs);
    lemma_attribute_reads("role"@, n.raw_role, r1);
    lemma_optional_reads("name"@, n.name, r2);
    lemma_optional_reads("description"@, n.description, r3);
    lemma_states_read(n.states, 17, r4);
    lemma_bounds_read(n.bounds, r5);
    lemma_toolkit_read(n.attrs, r6);
    lemma_reference_reads(n.bus, n.path, rest);
    assert(attributes_in(rest) =~= Seq::empty());
    let reference_list = seq![("_ref"@, atspi::unescaped(atspi::escaped(n.bus + "|"@ + n.path)))];
    assert(reference_list + attributes_in(rest) =~= reference_list);
}

proof fn lemma_carried(n: NodeView, depth: nat, rest: Seq<char>, key: Seq<char>)
    requires
        rest.len() == 0 || rest[0] != ' ',
    ensures
        ({
            let c = carried(opening(n, depth) + rest, key);
            let role = seq![("role"@, atspi::unescaped(atspi::escaped(n.raw_role)))];
            let reference_list = seq![
                ("_ref"@, atspi::unescaped(atspi::escaped(n.bus + "|"@ + n.path))),
            ];
            c == (if value_of(role, key) is Some {
                value_of(role, key)
            } else if value_of(optional_list("name"@, n.name), key) is Some {
                value_of(optional_list("name"@, n.name), key)
            } else if value_of(optional_list("description"@, n.description), key) is Some {
                value_of(optional_list("description"@, n.description), key)
            } else if value_of(state_list(n.states, 17), key) is Some {
                value_of(state_list(n.states, 17), key)
            } else if value_of(bounds_list(n.bounds), key) is Some {
                value_of(bounds_list(n.bounds), key)
            } else if value_of(toolkit_list(n.attrs), key) is Some {
                value_of(toolkit_list(n.attrs), key)
            } else {
                value_of(reference_list, key)
            })
        }),
{
    lemma_opening_reads(n, depth, rest);
    let role = seq![("role"@, atspi::unescaped(atspi::escaped(n.raw_role)))];
    let l6 = seq![("_ref"@, atspi::unescaped(atspi::escaped(n.bus + "|"@ + n.path)))];
    let l5 = toolkit_list(n.attrs) + l6;
    let l4 = bounds_list(n.bounds) + l5;
    let l3 = state_list(n.states, 17) + l4;
    let l2 = optional_list("description"@, n.description) + l3;
    let l1 = optional_list("name"@, n.name) + l2;
    lemma_value_joined(role, l1, key);
    lemma_value_joined(optional_list("name"@, n.name), l2, key);
    lemma_value_joined(optional_list("description"@, n.description), l3, key);
    lemma_value_joined(state_list(n.states, 17), l4, key);
    lemma_value_joined(bounds_list(n.bounds), l5, key);
    lemma_value_joined(toolkit_list(n.attrs), l6, key);
}

proof fn lemma_lists(n: NodeView, key: Seq<char>)
    ensures
        value_of(seq![("role"@, atspi::unescaped(atspi::escaped(n.raw_role)))], key) is Some <==> key
            == "role"@,
        value_of(optional_list("name"@, n.name), key) == (if key == "name"@ && n.name.len() > 0 {
            Some(atspi::unescaped(atspi::escaped(n.name)))
        } else {
            None
        }),
        value_of(optional_list("description"@, n.description), key) == (if key == "description"@
            && n.description.len() > 0 {
            Some(atspi::unescaped(atspi::escaped(n.description)))
        } else {
            None
        }),
        value_of(bounds_list(n.bounds), key) == (if key == "bbox"@ && n.bounds is Some {
            Some(geometry::bbox_text(n.bounds->0))
        } else {
            None
        }),
        value_of(seq![("role"@, atspi::unescaped(atspi::escaped(n.raw_role)))], key) is Some
            ==> value_of(seq![("role"@, atspi::unescaped(atspi::escaped(n.raw_role)))], key)
            == Some(atspi::unescaped(atspi::escaped(n.raw_role))),
{
    lemma_value_of_one("role"@, atspi::unescaped(atspi::escaped(n.raw_role)), key);
    lemma_value_of_one("name"@, atspi::unescaped(atspi::escaped(n.name)), key);
    lemma_value_of_one("description"@, atspi::unescaped(atspi::escaped(n.description)), key);
    if n.bounds is Some {
        lemma_value_of_one("bbox"@, geometry::bbox_text(n.bounds->0), key);
    }
}

pub(crate) proof fn lemma_builtins_differ()
    ensures
        "role"@ != "name"@,
        "role"@ != "description"@,
        "role"@ != "bbox"@,
        "role"@ != "_ref"@,
        "name"@ != "description"@,
        "name"@ != "bbox"@,
        "name"@ != "_ref"@,
        "description"@ != "bbox"@,
        "description"@ != "_ref"@,
        "bbox"@ != "_ref"@,
{
    reveal_strlit("role");
    reveal_strlit("name");
    reveal_strlit("description");
    reveal_strlit("bbox");
    reveal_strlit("_ref");
    assert("role"@[0] == 'r' && "name"@[0] == 'n' && "description"@[0] == 'd' && "bbox"@[0] == 'b'
        && "_ref"@[0] == '_');
}

// ── Laws on snapshots ───────────────────────────────────────────────────────

/// An element carries the name of its node as `name`, and no `name` where the node has none;
/// its description, where it has one, as `description`; its role as `role`; and its identity
/// as `_ref`, the bus before the path.
pub proof fn law_element_carries_its_node(n: NodeView, depth: nat, rest: Seq<char>)
    requires
        rest.len() == 0 || rest[0] != ' ',
        printable(n.raw_role),
        printable(n.name),
        printable(n.description),
        printable(n.bus),
        printable(n.path),
    ensures
        ({
            let e = opening(n, depth) + rest;
            &&& element_head(e) matches Some((name, _)) && name == atspi::tag(n.raw_role)
            &&& carried(e, "role"@) == Some(n.raw_role)
            &&& n.name.len() > 0 ==> carried(e, "name"@) == Some(n.name)
            &&& n.name.len() == 0 ==> carried(e, "name"@) is None
            &&& n.description.len() > 0 ==> carried(e, "description"@) == Some(n.description)
            &&& carried(e, "_ref"@) == Some(n.bus.push('|') + n.path)
        }),
{
    reveal_strlit("|");
    let whole = n.bus + "|"@ + n.path;
    assert(whole =~= n.bus.push('|') + n.path);
    assert(printable(whole)) by {
        assert forall|i: int| 0 <= i < whole.len() implies #[trigger] whole[i] as u32 >= 0x20
            || whole[i] == '\t' || whole[i] == '\n' || whole[i] == '\r' by {
            if i < n.bus.len() {
                assert(whole[i] == n.bus[i]);
            } else if i > n.bus.len() {
                assert(whole[i] == n.path[i - n.bus.len() - 1]);
            }
        }
    }
    atspi::law_only_controls_are_dropped(n.raw_role);
    atspi::law_only_controls_are_dropped(n.name);
    atspi::law_only_controls_are_dropped(n.description);
    atspi::law_only_controls_are_dropped(whole);
    lemma_opening_reads(n, depth, rest);
    lemma_builtins_differ();
    lemma_key_lookup(n, depth, rest, "role"@);
    lemma_key_lookup(n, depth, rest, "name"@);
    lemma_key_lookup(n, depth, rest, "description"@);
    lemma_key_lookup(n, depth, rest, "_ref"@);
    lemma_value_of_one("_ref"@, atspi::unescaped(atspi::escaped(whole)), "_ref"@);
    lemma_value_of_one("_ref"@, atspi::unescaped(atspi::escaped(whole)), "name"@);
}

proof fn lemma_key_lookup(n: NodeView, depth: nat, rest: Seq<char>, key: Seq<char>)
    requires
        rest.len() == 0 || rest[0] != ' ',
    ensures
        ({
            let c = carried(opening(n, depth) + rest, key);
            let reference_list = seq![
                ("_ref"@, atspi::unescaped(atspi::escaped(n.bus + "|"@ + n.path))),
            ];
            c == (if key == "role"@ {
                Some(atspi::unescaped(atspi::escaped(n.raw_role)))
            } else if key == "name"@ && n.name.len() > 0 {
                Some(atspi::unescaped(atspi::escaped(n.name)))
            } else if key == "description"@ && n.description.len() > 0 {
                Some(atspi::unescaped(atspi::escaped(n.description)))
            } else if value_of(state_list(n.states, 17), key) is Some {
                value_of(state_list(n.states, 17), key)
            } else if key == "bbox"@ && n.bounds is Some {
                Some(geometry::bbox_text(n.bounds->0))
            } else if value_of(toolkit_list(n.attrs), key) is Some {
                value_of(toolkit_list(n.attrs), key)
            } else {
                value_of(reference_list, key)
            })
        }),
        atspi::builtin(key) ==> value_of(state_list(n.states, 17), key) is None,
        key == "role"@ || key == "name"@ || key == "_ref"@ ==> value_of(
            toolkit_list(n.attrs),
            key,
        ) is None,
{
    lemma_carried(n, depth, rest, key);
    lemma_lists(n, key);
    atspi::law_builtin_names(key);
    lemma_state_value(n.states, 17, key);
    lemma_toolkit_value(n.attrs, key, -1);
}

/// An element carries each state that is set as `true` under the state's name, and says
/// nothing of one that is not set, unless a toolkit attribute takes that name.
pub proof fn law_element_carries_its_states(n: NodeView, depth: nat, rest: Seq<char>, s: State)
    requires
        rest.len() == 0 || rest[0] != ' ',
    ensures
        n.states.contains(s) ==> carried(opening(n, depth) + rest, s.attr()) == Some("true"@),
        !n.states.contains(s) && (forall|j: int|
            0 <= j < n.attrs.len() ==> atspi::sanitized((#[trigger] n.attrs[j]).0) != Some(
                s.attr(),
            )) ==> carried(opening(n, depth) + rest, s.attr()) is None,
{
    lemma_key_lookup(n, depth, rest, s.attr());
    atspi::law_every_state_is_emitted_once(s, s);
    atspi::law_builtin_names(s.attr());
    let i = choose|i: int| 0 <= i < atspi::emitted().len() && atspi::emitted()[i] == s;
    assert(atspi::emitted()[i].attr() == s.attr());
    lemma_state_value(n.states, 17, s.attr());
    lemma_toolkit_value(n.attrs, s.attr(), -1);
    lemma_value_of_one(
        "_ref"@,
        atspi::unescaped(atspi::escaped(n.bus + "|"@ + n.path)),
        s.attr(),
    );
}

/// An element carries the bounds of its node as `bbox`, from which they are read back.
pub proof fn law_element_carries_its_bounds(n: NodeView, depth: nat, rest: Seq<char>)
    requires
        rest.len() == 0 || rest[0] != ' ',
        n.bounds is Some,
    ensures
        carried(opening(n, depth) + rest, "bbox"@) matches Some(t) && geometry::parsed_bbox(t)
            == n.bounds,
{
    lemma_builtins_differ();
    lemma_key_lookup(n, depth, rest, "bbox"@);
    geometry::law_bbox_reads_back(n.bounds->0);
}

/// An element carries a toolkit attribute under the name made of its key, where that is
/// neither one of the snapshot's own nor a state's, nor the same as that of an attribute
/// before it.
pub proof fn law_element_carries_toolkit_attributes(
    n: NodeView,
    depth: nat,
    rest: Seq<char>,
    at: int,
    key: Seq<char>,
)
    requires
        rest.len() == 0 || rest[0] != ' ',
        0 <= at < n.attrs.len(),
        atspi::sanitized(n.attrs[at].0) == Some(key),
        !atspi::builtin(key),
        !atspi::state_attr(key),
        printable(n.attrs[at].1),
        forall|j: int|
            0 <= j < at ==> atspi::sanitized((#[trigger] n.attrs[j]).0) != Some(key),
    ensures
        carried(opening(n, depth) + rest, key) == Some(n.attrs[at].1),
{
    lemma_key_lookup(n, depth, rest, key);
    atspi::law_builtin_names(key);
    lemma_state_value(n.states, 17, key);
    lemma_toolkit_value(n.attrs, key, at);
    atspi::law_only_controls_are_dropped(n.attrs[at].1);
}

/// An element with children stands around theirs, in their order and one level deeper, and
/// is closed under the name it was opened with; one that reported no child is empty.
pub proof fn law_element_encloses_its_children(nodes: Map<Key, NodeView>, key: Key, depth: nat)
    requires
        nodes.dom().contains(key),
        depth <= 20,
    ensures
        ({
            let n = nodes[key];
            let head = opening(n, depth);
            let foot = indent(depth) + "</"@ + atspi::tag(n.raw_role) + ">\n"@;
            &&& n.had_children ==> node_text(nodes, key, depth) == head + ">\n"@ + children_text(
                nodes,
                n.children,
                depth + 1,
            ) + foot
            &&& !n.had_children ==> node_text(nodes, key, depth) == head + "/>\n"@
            &&& indent(depth).len() == 2 * depth
            &&& forall|i: int| 0 <= i < 2 * depth ==> #[trigger] indent(depth)[i] == ' '
        }),
{
}

/// Children are rendered one after the other, each as it is rendered by itself.
pub proof fn law_children_follow_each_other(
    nodes: Map<Key, NodeView>,
    a: Seq<Key>,
    b: Seq<Key>,
    k: Key,
    depth: nat,
)
    ensures
        children_text(nodes, a + b, depth) == children_text(nodes, a, depth) + children_text(
            nodes,
            b,
            depth,
        ),
        children_text(nodes, seq![k], depth) == node_text(nodes, k, depth),
        children_text(nodes, Seq::empty(), depth).len() == 0,
    decreases b.len(),
{
    let one = seq![k];
    assert(one.drop_last() =~= Seq::empty());
    assert(one.last() == k);
    assert(children_text(nodes, one.drop_last(), depth) =~= Seq::empty());
    assert(children_text(nodes, one, depth) =~= node_text(nodes, k, depth));
    if b.len() == 0 {
        assert(a + b =~= a);
        assert(children_text(nodes, a, depth) + children_text(nodes, b, depth) =~= children_text(
            nodes,
            a,
            depth,
        ));
    } else {
        law_children_follow_each_other(nodes, a, b.drop_last(), k, depth);
        assert((a + b).drop_last() =~= a + b.drop_last());
        assert((a + b).last() == b.last());
        assert(children_text(nodes, a + b, depth) =~= children_text(nodes, a, depth)
            + children_text(nodes, b, depth));
    }
}

/// A node is made of what was answered about it: its name of the name, its description of
/// the description, and so on; what was not answered counts as empty, and as `unknown` for
/// the role.
pub proof fn law_node_keeps_the_replies(
    bus: Seq<char>,
    path: Seq<char>,
    depth: nat,
    replies: NodeReplies,
)
    ensures
        ({
            let n = assembled(bus, path, depth, replies);
            &&& n.bus == bus
            &&& n.path == path
            &&& n.depth == depth
            &&& replies.name matches Some(t) ==> n.name == t@
            &&& replies.name is None ==> n.name.len() == 0
            &&& replies.description matches Some(t) ==> n.description == t@
            &&& replies.description is None ==> n.description.len() == 0
            &&& replies.role matches Some(t) ==> n.raw_role == t@
            &&& replies.role is None ==> n.raw_role == "unknown"@
            &&& replies.states matches Some(s) ==> n.states == s@
            &&& replies.states is None ==> n.states =~= Set::empty()
            &&& replies.attrs matches Some(a) ==> n.attrs.len() == a@.len() && forall|i: int|
                0 <= i < a@.len() ==> #[trigger] n.attrs[i] == (a@[i].0@, a@[i].1@)
            &&& replies.attrs is None ==> n.attrs.len() == 0
            &&& replies.extents matches Ok((x, y, width, height)) ==> (width > 0 && height > 0
                ==> n.bounds == Some(Rect { x, y, width, height }))
            &&& replies.extents is Err ==> n.bounds is None
        }),
{
    atspi::law_bounds_are_what_was_answered(
        (replies.extents->Ok_0).0,
        (replies.extents->Ok_0).1,
        (replies.extents->Ok_0).2,
        (replies.extents->Ok_0).3,
        replies.extents->Err_0,
    );
}

/// A node whose name was answered is found by that name: its element carries the text of the
/// answer as `name`, and the text of the description as `description`.
pub proof fn law_answered_name_is_found(
    bus: Seq<char>,
    path: Seq<char>,
    depth: nat,
    replies: NodeReplies,
    name: String,
    description: String,
    rest: Seq<char>,
)
    requires
        replies.name == Some(name),
        replies.description == Some(description),
        name@.len() > 0,
        description@.len() > 0,
        printable(name@),
        printable(description@),
        rest.len() == 0 || rest[0] != ' ',
    ensures
        ({
            let e = opening(assembled(bus, path, depth, replies), depth) + rest;
            carried(e, "name"@) == Some(name@) && carried(e, "description"@) == Some(description@)
        }),
{
    let n = assembled(bus, path, depth, replies);
    atspi::law_only_controls_are_dropped(n.name);
    atspi::law_only_controls_are_dropped(n.description);
    lemma_builtins_differ();
    lemma_key_lookup(n, depth, rest, "name"@);
    lemma_key_lookup(n, depth, rest, "description"@);
}

/// The children of a node are those of its references that carry a bus name, in their order;
/// a node beyond the depth cap has none. Whether there was any reference is kept as well.
pub proof fn law_children_are_the_resolvable_references(
    bus: Seq<char>,
    path: Seq<char>,
    depth: nat,
    replies: NodeReplies,
    refs: Vec<(Option<String>, String)>,
    k: Key,
)
    requires
        replies.children == Some(refs),
    ensures
        ({
            let n = assembled(bus, path, depth, replies);
            &&& depth <= 20 ==> {
                &&& n.had_children <==> refs@.len() > 0
                &&& n.children.len() <= refs@.len()
                &&& n.children.contains(k) <==> exists|i: int|
                    0 <= i < refs@.len() && (#[trigger] refs@[i]).1@ == k.1 && refs@[i].0 is Some && refs@[i].0->0@ == k.0
                &&& (forall|i: int| 0 <= i < refs@.len() ==> (#[trigger] refs@[i]).0 is Some)
                    ==> n.children.len() == refs@.len() && forall|i: int|
                    0 <= i < refs@.len() ==> #[trigger] n.children[i] == (
                        refs@[i].0->0@,
                        refs@[i].1@,
                    )
            }
            &&& depth > 20 ==> !n.had_children && n.children.len() == 0
        }),
{
    if depth <= 20 {
        lemma_resolvable(refs@, k);
    }
}

proof fn lemma_resolvable(refs: Seq<(Option<String>, String)>, k: Key)
    ensures
        resolvable(refs).len() <= refs.len(),
        resolvable(refs).contains(k) <==> exists|i: int|
            0 <= i < refs.len() && (#[trigger] refs[i]).1@ == k.1 && refs[i].0 is Some && refs[i].0->0@ == k.0,
        (forall|i: int| 0 <= i < refs.len() ==> (#[trigger] refs[i]).0 is Some) ==> resolvable(
            refs,
        ).len() == refs.len() && forall|i: int|
            0 <= i < refs.len() ==> #[trigger] resolvable(refs)[i] == (refs[i].0->0@, refs[i].1@),
    decreases refs.len(),
{
    if refs.len() > 0 {
        let front = refs.drop_last();
        lemma_resolvable(front, k);
        let (f, r) = (resolvable(front), resolvable(refs));
        let last = refs[refs.len() - 1];
        if r.contains(k) {
            let at = choose|at: int| 0 <= at < r.len() && r[at] == k;
            if at < f.len() {
                assert(f[at] == k);
                let i = choose|i: int|
                    0 <= i < front.len() && (#[trigger] front[i]).1@ == k.1 && front[i].0 is Some && front[i].0->0@ == k.0;
                assert(refs[i] == front[i]);
            } else {
                assert(refs[refs.len() - 1].1@ == k.1);
            }
        }
        if exists|i: int|
            0 <= i < refs.len() && (#[trigger] refs[i]).1@ == k.1 && refs[i].0 is Some && refs[i].0->0@ == k.0 {
            let i = choose|i: int|
                0 <= i < refs.len() && (#[trigger] refs[i]).1@ == k.1 && refs[i].0 is Some && refs[i].0->0@ == k.0;
            if i < front.len() {
                assert(front[i] == refs[i]);
                let at = choose|at: int| 0 <= at < f.len() && f[at] == k;
                assert(r[at] == k);
            } else {
                assert(r[f.len() as int] == k);
            }
        }
        if forall|i: int| 0 <= i < refs.len() ==> (#[trigger] refs[i]).0 is Some {
            assert forall|i: int| 0 <= i < front.len() implies (#[trigger] front[i]).0 is Some by {
                assert(front[i] == refs[i]);
            }
            assert(last.0 is Some);
            assert forall|i: int| 0 <= i < refs.len() implies #[trigger] r[i] == (
                refs[i].0->0@,
                refs[i].1@,
            ) by {
                if i < front.len() {
                    assert(f[i] == (front[i].0->0@, front[i].1@));
                }
            }
        }
    }
}

/// A node that was read is kept under its identity, with everything kept before; those of
/// its children that were never met wait behind what waited before, one level deeper, in
/// their order and each once.
pub proof fn law_read_node_queues_its_children(w: WalkView, n: NodeView, k: Key)
    requires
        w.in_flight > 0,
    ensures
        ({
            let r = w.after_read(Some(n));
            let new = r.queue.skip(w.queue.len() as int);
            &&& r.nodes == w.nodes.insert((n.bus, n.path), n)
            &&& r.in_flight == w.in_flight - 1
            &&& r.queue.len() >= w.queue.len()
            &&& r.queue.take(w.queue.len() as int) == w.queue
            &&& r.seen.contains(k) <==> w.seen.contains(k) || n.children.contains(k)
            &&& new.contains((k, n.depth + 1)) <==> n.children.contains(k) && !w.seen.contains(k)
            &&& forall|i: int| 0 <= i < new.len() ==> (#[trigger] new[i]).1 == n.depth + 1
            &&& n.children.no_duplicates() && (forall|i: int|
                0 <= i < n.children.len() ==> !w.seen.contains(#[trigger] n.children[i]))
                ==> new.len() == n.children.len() && forall|i: int|
                0 <= i < new.len() ==> (#[trigger] new[i]).0 == n.children[i]
        }),
{
    let ended = WalkView { in_flight: (w.in_flight - 1) as nat, ..w };
    lemma_with_children(ended, n.children, n.depth + 1, k);
}

proof fn lemma_with_children(w: WalkView, children: Seq<Key>, depth: nat, k: Key)
    ensures
        ({
            let r = w.with_children(children, depth);
            let new = r.queue.skip(w.queue.len() as int);
            &&& r.nodes == w.nodes
            &&& r.in_flight == w.in_flight
            &&& r.queue.len() >= w.queue.len()
            &&& r.queue.take(w.queue.len() as int) == w.queue
            &&& r.seen.contains(k) <==> w.seen.contains(k) || children.contains(k)
            &&& new.contains((k, depth)) <==> children.contains(k) && !w.seen.contains(k)
            &&& forall|i: int| 0 <= i < new.len() ==> (#[trigger] new[i]).1 == depth
            &&& children.no_duplicates() && (forall|i: int|
                0 <= i < children.len() ==> !w.seen.contains(#[trigger] children[i])) ==> new.len()
                == children.len() && forall|i: int|
                0 <= i < new.len() ==> (#[trigger] new[i]).0 == children[i]
        }),
    decreases children.len(),
{
    let r = w.with_children(children, depth);
    let new = r.queue.skip(w.queue.len() as int);
    if children.len() == 0 {
        assert(r.queue.take(w.queue.len() as int) =~= w.queue);
    } else {
        let front = children.drop_last();
        let last = children.last();
        lemma_with_children(w, front, depth, k);
        lemma_with_children(w, front, depth, last);
        let f = w.with_children(front, depth);
        let old_new = f.queue.skip(w.queue.len() as int);
        assert(children =~= front.push(last));
        assert(children.contains(k) <==> front.contains(k) || k == last) by {
            if children.contains(k) {
                let i = choose|i: int| 0 <= i < children.len() && children[i] == k;
                if i < front.len() {
                    assert(front[i] == k);
                }
            }
            if front.contains(k) {
                let i = choose|i: int| 0 <= i < front.len() && front[i] == k;
                assert(children[i] == k);
            }
            if k == last {
                assert(children[children.len() - 1] == k);
            }
        }
        if f.seen.contains(last) {
            assert(new =~= old_new);
        } else {
            assert(new =~= old_new.push((last, depth)));
            assert(r.queue.take(w.queue.len() as int) =~= f.queue.take(w.queue.len() as int));
            if new.contains((k, depth)) {
                let i = choose|i: int| 0 <= i < new.len() && new[i] == (k, depth);
                if i < old_new.len() {
                    assert(old_new[i] == (k, depth));
                }
            }
            if old_new.contains((k, depth)) {
                let i = choose|i: int| 0 <= i < old_new.len() && old_new[i] == (k, depth);
                assert(new[i] == (k, depth));
            }
            if k == last {
                assert(new[old_new.len() as int] == (k, depth));
            }
        }
        if children.no_duplicates() && (forall|i: int|
            0 <= i < children.len() ==> !w.seen.contains(#[trigger] children[i])) {
            assert forall|i: int| 0 <= i < front.len() implies !w.seen.contains(
                #[trigger] front[i],
            ) by {
                assert(front[i] == children[i]);
            }
            assert(front.no_duplicates());
            assert(!front.contains(last)) by {
                if front.contains(last) {
                    let i = choose|i: int| 0 <= i < front.len() && front[i] == last;
                    assert(children[i] == children[children.len() - 1]);
                }
            }
            assert(!w.seen.contains(children[children.len() - 1]));
        }
    }
}

/// The value of a node: each part is the field of that name, and references keep bus and path
/// in their places.
pub proof fn law_node_values_are_its_fields(n: RawNode)
    ensures
        n@.bus == n.bus@,
        n@.path == n.path@,
        n@.depth == n.depth,
        n@.raw_role == n.raw_role@,
        n@.name == n.name@,
        n@.description == n.description@,
        n@.states == n.states@,
        n@.bounds == n.bounds,
        n@.had_children == n.had_children,
        n@.attrs.len() == n.attrs@.len(),
        forall|i: int|
            0 <= i < n.attrs@.len() ==> n@.attrs[i] == ((#[trigger] n.attrs@[i]).0@, n.attrs@[i].1@),
        n@.children.len() == n.children@.len(),
        forall|i: int|
            0 <= i < n.children@.len() ==> n@.children[i] == (
                (#[trigger] n.children@[i]).0@,
                n.children@[i].1@,
            ),
{
}

/// The limits of a snapshot: twenty levels below the root, and eight nodes read at a time.
pub proof fn law_snapshot_limits()
    ensures
        MAX_DEPTH == 20,
        WALK_CONCURRENCY == 8,
{
}

/// What a snapshot document begins with.
pub proof fn law_declaration()
    ensures
        declaration() == "<?xml version=\"1.0\" encoding=\"UTF-8\"?>\n"@,
{
}

} // verus!
