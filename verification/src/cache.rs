//! The accessibility cache: one bulk reply for a whole tree, mapped into the
//! snapshot's vocabulary and rendered as a snapshot document.
use crate::atspi::{
    self, bus_or, cache_raw_role_name, cache_role_name, emitted_state_names, tag_of_role, State,
    StateSet,
};
use crate::error;
use crate::snapshot::{
    self, indentation, push_attribute, push_closing, push_optional_attribute, push_reference,
    push_states, MAX_DEPTH,
};
use crate::text::{clone_optional, clone_texts, same_text};
use vstd::prelude::*;
use vstd::string::*;

verus! {

/// One entry of the cache as it arrives.
#[derive(Debug, Clone)]
pub struct CacheItem {
    /// Bus name in the entry's own reference, where it carries one.
    pub bus: Option<String>,
    pub path: String,
    /// Path of the parent's reference; a null or empty path stands for none.
    pub parent: String,
    pub index_in_parent: i32,
    pub child_count: i32,
    pub name: String,
    /// Role index, which may be one that the role table does not know.
    pub role: u32,
    pub description: String,
    pub states: StateSet,
}

/// One entry of the cache in the snapshot's vocabulary.
#[derive(Debug)]
pub struct CachedAccessible {
    /// `(bus, path)` identity.
    pub ref_: (String, String),
    /// Display role, such as `"CheckBox"`.
    pub role: String,
    /// Accessible name; where the entry has none, that of the elements that
    /// label it.
    pub name: Option<String>,
    pub description: Option<String>,
    /// Names of the set states.
    pub states: Vec<String>,
    /// Path of the parent, where the cache knows it.
    pub parent_path: Option<String>,
    pub child_count: i32,
}

/// The mathematical value of a [`CachedAccessible`].
#[verifier::ext_equal]
pub struct AccessibleView {
    pub ref_: (Seq<char>, Seq<char>),
    pub role: Seq<char>,
    pub name: Option<Seq<char>>,
    pub description: Option<Seq<char>>,
    pub states: Seq<Seq<char>>,
    pub parent_path: Option<Seq<char>>,
    pub child_count: int,
}

impl View for CachedAccessible {
    type V = AccessibleView;

    open spec fn view(&self) -> AccessibleView {
        AccessibleView {
            ref_: snapshot::key_of(self.ref_),
            role: self.role@,
            name: error::optional(self.name),
            description: error::optional(self.description),
            states: atspi::texts(self.states@),
            parent_path: error::optional(self.parent_path),
            child_count: self.child_count as int,
        }
    }
}

impl Clone for CachedAccessible {
    fn clone(&self) -> (r: Self)
        ensures
            r@ == self@,
    {
        CachedAccessible {
            ref_: (self.ref_.0.clone(), self.ref_.1.clone()),
            role: self.role.clone(),
            name: clone_optional(&self.name),
            description: clone_optional(&self.description),
            states: clone_texts(&self.states),
            parent_path: clone_optional(&self.parent_path),
            child_count: self.child_count,
        }
    }
}

/// The parent that a reference path names.
pub open spec fn parent_named(path: Seq<char>) -> Option<Seq<char>> {
    if path == "/org/a11y/atspi/null"@ || path.len() == 0 {
        None
    } else {
        Some(path)
    }
}

fn parent_of(path: &str) -> (r: Option<String>)
    ensures
        error::optional(r) == parent_named(path@),
{
    if same_text(path, "/org/a11y/atspi/null") || path.unicode_len() == 0 {
        None
    } else {
        Some(path.to_string())
    }
}

/// The bus of a cache entry: its own, or the application's where it carries none or an
/// empty one.
pub open spec fn entry_bus(item: CacheItem, app_bus: Seq<char>) -> Seq<char> {
    atspi::bus_of(error::optional(item.bus), app_bus)
}

/// Text, or nothing where it is empty.
pub open spec fn nonempty(s: Seq<char>) -> Option<Seq<char>> {
    if s.len() > 0 {
        Some(s)
    } else {
        None
    }
}

/// A cache entry in the snapshot's vocabulary. `label` is the text of the elements
/// that label it, which a nameless entry takes as its name.
pub open spec fn accessible_of(
    item: CacheItem,
    app_bus: Seq<char>,
    label: Option<Seq<char>>,
) -> AccessibleView {
    AccessibleView {
        ref_: (entry_bus(item, app_bus), item.path@),
        role: atspi::role_label(atspi::role_table(item.role), item.role),
        name: if item.name@.len() > 0 {
            Some(item.name@)
        } else {
            label
        },
        description: nonempty(item.description@),
        states: atspi::state_names(item.states@, 17),
        parent_path: parent_named(item.parent@),
        child_count: item.child_count as int,
    }
}

/// The identity of the entry whose labels are to be read, where that is needed:
/// only for an entry without a name.
pub fn label_target(item: &CacheItem, app_bus: &str) -> (r: Option<(String, String)>)
    ensures
        match r {
            Some(k) => item.name@.len() == 0 && snapshot::key_of(k) == (
                entry_bus(*item, app_bus@),
                item.path@,
            ),
            None => item.name@.len() > 0,
        },
{
    if item.name.as_str().unicode_len() > 0 {
        None
    } else {
        Some((bus_or(clone_optional(&item.bus), app_bus), item.path.clone()))
    }
}

/// Maps a cache entry into the snapshot's vocabulary. An unknown role index gets a
/// label of its own, so that one entry does not spoil the rest.
pub fn cached_accessible(item: &CacheItem, app_bus: &str, label: Option<String>) -> (r:
    CachedAccessible)
    ensures
        r@ == accessible_of(*item, app_bus@, error::optional(label)),
{
    let name = if item.name.as_str().unicode_len() > 0 {
        Some(item.name.clone())
    } else {
        label
    };
    let description = if item.description.as_str().unicode_len() > 0 {
        Some(item.description.clone())
    } else {
        None
    };
    CachedAccessible {
        ref_: (bus_or(clone_optional(&item.bus), app_bus), item.path.clone()),
        role: cache_role_name(item.role),
        name,
        description,
        states: emitted_state_names(&item.states),
        parent_path: parent_of(item.parent.as_str()),
        child_count: item.child_count,
    }
}

/// Maps the entries of an application's cache into the snapshot's vocabulary, in their
/// order. `labels` holds, for each entry, the text of the elements that label it.
pub fn cache_items(items: &Vec<CacheItem>, app_bus: &str, labels: &Vec<Option<String>>) -> (r: Vec<
    CachedAccessible,
>)
    requires
        labels@.len() == items@.len(),
    ensures
        r@.len() == items@.len(),
        forall|i: int|
            0 <= i < items@.len() ==> (#[trigger] r@[i])@ == accessible_of(
                items@[i],
                app_bus@,
                error::optional(labels@[i]),
            ),
{
    let mut out: Vec<CachedAccessible> = Vec::new();
    let mut i: usize = 0;
    while i < items.len()
        invariant
            labels@.len() == items@.len(),
            i <= items.len(),
            out@.len() == i,
            forall|k: int|
                0 <= k < i ==> (#[trigger] out@[k])@ == accessible_of(
                    items@[k],
                    app_bus@,
                    error::optional(labels@[k]),
                ),
        decreases items.len() - i,
    {
        out.push(cached_accessible(&items[i], app_bus, clone_optional(&labels[i])));
        i = i + 1;
    }
    out
}

// ── Snapshot from the cache ─────────────────────────────────────────────────

/// One node of a snapshot made from the cache.
#[derive(Debug, Clone)]
pub struct CacheSnapshotNode {
    pub bus: String,
    pub path: String,
    pub parent_path: Option<String>,
    pub index_in_parent: i32,
    pub raw_role: String,
    pub name: String,
    pub states: StateSet,
}

/// The mathematical value of a [`CacheSnapshotNode`].
#[verifier::ext_equal]
pub struct CacheView {
    pub bus: Seq<char>,
    pub path: Seq<char>,
    pub parent_path: Option<Seq<char>>,
    pub index_in_parent: int,
    pub raw_role: Seq<char>,
    pub name: Seq<char>,
    pub states: Set<State>,
}

impl View for CacheSnapshotNode {
    type V = CacheView;

    open spec fn view(&self) -> CacheView {
        CacheView {
            bus: self.bus@,
            path: self.path@,
            parent_path: error::optional(self.parent_path),
            index_in_parent: self.index_in_parent as int,
            raw_role: self.raw_role@,
            name: self.name@,
            states: self.states@,
        }
    }
}

/// The mathematical values of nodes.
pub open spec fn views(nodes: Seq<CacheSnapshotNode>) -> Seq<CacheView> {
    nodes.map_values(|n: CacheSnapshotNode| n@)
}

/// The position of the last node with the given path.
pub open spec fn last_at(nodes: Seq<CacheView>, path: Seq<char>) -> Option<int>
    decreases nodes.len(),
{
    if nodes.len() == 0 {
        None
    } else if nodes.last().path == path {
        Some(nodes.len() - 1)
    } else {
        last_at(nodes.drop_last(), path)
    }
}

/// `siblings` with `n` put behind all that are to come no later than it.
pub open spec fn placed(siblings: Seq<CacheView>, n: CacheView) -> Seq<CacheView>
    decreases siblings.len(),
{
    if siblings.len() == 0 || siblings.last().index_in_parent <= n.index_in_parent {
        siblings.push(n)
    } else {
        placed(siblings.drop_last(), n).push(siblings.last())
    }
}

/// The children of `parent`, ordered by their index, those with the same index in
/// the order of `nodes`.
pub open spec fn kids(nodes: Seq<CacheView>, parent: Seq<char>) -> Seq<CacheView>
    decreases nodes.len(),
{
    if nodes.len() == 0 {
        Seq::empty()
    } else {
        let front = kids(nodes.drop_last(), parent);
        if nodes.last().parent_path == Some(parent) {
            placed(front, nodes.last())
        } else {
            front
        }
    }
}

/// The opening tag of a node, up to but without its end.
pub open spec fn cache_opening(n: CacheView, depth: nat) -> Seq<char> {
    snapshot::indent(depth) + "<"@ + atspi::tag(n.raw_role) + snapshot::attribute(
        "role"@,
        n.raw_role,
    ) + snapshot::optional_attribute("name"@, n.name) + snapshot::state_attributes(n.states, 17)
        + snapshot::reference(n.bus, n.path)
}

/// The rendering of the subtree at `n`, and the paths whose children have been
/// rendered by then. A path's children are rendered once at most.
pub open spec fn cache_node_text(
    nodes: Seq<CacheView>,
    n: CacheView,
    depth: nat,
    visited: Set<Seq<char>>,
) -> (Seq<char>, Set<Seq<char>>)
    decreases 22 - depth, 0nat,
{
    let head = cache_opening(n, depth);
    if depth > MAX_DEPTH || visited.contains(n.path) {
        (head + "/>\n"@, visited)
    } else {
        let children = kids(nodes, n.path);
        if children.len() == 0 {
            (head + "/>\n"@, visited.insert(n.path))
        } else {
            let (inner, after) = cache_children_text(
                nodes,
                children,
                depth + 1,
                visited.insert(n.path),
            );
            (head + ">\n"@ + inner + snapshot::closing(n.raw_role, depth), after)
        }
    }
}

/// The renderings of `children`, one after the other.
pub open spec fn cache_children_text(
    nodes: Seq<CacheView>,
    children: Seq<CacheView>,
    depth: nat,
    visited: Set<Seq<char>>,
) -> (Seq<char>, Set<Seq<char>>)
    decreases 22 - depth, children.len(),
{
    if children.len() == 0 {
        (Seq::empty(), visited)
    } else {
        let (front, seen) = cache_children_text(nodes, children.drop_last(), depth, visited);
        let (last, after) = cache_node_text(nodes, children.last(), depth, seen);
        (front + last, after)
    }
}

/// The snapshot document of cache nodes rooted at `root`.
pub open spec fn cache_document(nodes: Seq<CacheView>, root: Seq<char>) -> Seq<char> {
    match last_at(nodes, root) {
        Some(i) => snapshot::declaration() + cache_node_text(nodes, nodes[i], 0, Set::empty()).0,
        None => snapshot::declaration(),
    }
}

/// The nodes at the given positions.
spec fn selected(nodes: Seq<CacheView>, at: Seq<usize>) -> Seq<CacheView> {
    at.map_values(|i: usize| nodes[i as int])
}

/// Positions of the children of `parent`, in rendering order.
fn kid_positions(nodes: &Vec<CacheSnapshotNode>, parent: &String) -> (r: Vec<usize>)
    ensures
        selected(views(nodes@), r@) == kids(views(nodes@), parent@),
        forall|k: int| 0 <= k < r@.len() ==> (#[trigger] r@[k]) < nodes@.len(),
{
    let ghost all = views(nodes@);
    let mut out: Vec<usize> = Vec::new();
    let mut i: usize = 0;
    assert(selected(all, out@) =~= kids(all.take(0), parent@));
    while i < nodes.len()
        invariant
            all == views(nodes@),
            i <= nodes.len(),
            selected(all, out@) == kids(all.take(i as int), parent@),
            forall|k: int| 0 <= k < out@.len() ==> (#[trigger] out@[k]) < nodes@.len(),
        decreases nodes.len() - i,
    {
        proof {
            assert(all.take(i + 1).drop_last() =~= all.take(i as int));
            assert(all.take(i + 1).last() == all[i as int]);
        }
        let is_kid = match &nodes[i].parent_path {
            Some(p) => *p == *parent,
            None => false,
        };
        if is_kid {
            let ghost before = out@;
            let mut at: usize = out.len();
            assert(selected(all, before).take(at as int) =~= selected(all, before));
            assert(selected(all, before).skip(at as int) =~= Seq::empty());
            assert(placed(selected(all, before).take(at as int), all[i as int]) + selected(
                all,
                before,
            ).skip(at as int) =~= placed(selected(all, before), all[i as int]));
            while at > 0 && nodes[out[at - 1]].index_in_parent > nodes[i].index_in_parent
                invariant
                    all == views(nodes@),
                    i < nodes.len(),
                    out@ == before,
                    at <= out@.len(),
                    forall|k: int| 0 <= k < out@.len() ==> (#[trigger] out@[k]) < nodes@.len(),
                    placed(selected(all, before).take(at as int), all[i as int]) + selected(
                        all,
                        before,
                    ).skip(at as int) == placed(selected(all, before), all[i as int]),
                decreases at,
            {
                let ghost s = selected(all, before);
                proof {
                    assert(s.take(at as int).drop_last() =~= s.take(at - 1));
                    assert(s.take(at as int).last() == s[at - 1]);
                    assert(placed(s.take(at - 1), all[i as int]) + s.skip(at - 1) =~= placed(
                        s.take(at as int),
                        all[i as int],
                    ) + s.skip(at as int));
                }
                at = at - 1;
            }
            out.insert(at, i);
            proof {
                let s = selected(all, before);
                let n = all[i as int];
                if at > 0 {
                    assert(s.take(at as int).last() == s[at - 1]);
                }
                assert(placed(s.take(at as int), n) =~= s.take(at as int).push(n));
                assert(selected(all, out@) =~= s.take(at as int).push(n) + s.skip(at as int));
            }
        }
        i = i + 1;
    }
    assert(all.take(i as int) =~= all);
    out
}

fn cache_opening_tag(node: &CacheSnapshotNode, depth: usize) -> (r: String)
    ensures
        r@ == cache_opening(node@, depth as nat),
{
    let mut t = indentation(depth);
    t.append("<");
    t.append(tag_of_role(node.raw_role.as_str()).as_str());
    push_attribute(&mut t, "role", node.raw_role.as_str());
    push_optional_attribute(&mut t, "name", node.name.as_str());
    push_states(&mut t, &node.states);
    push_reference(&mut t, node.bus.as_str(), node.path.as_str());
    t
}

spec fn path_set(visited: Seq<String>) -> Set<Seq<char>> {
    atspi::texts(visited).to_set()
}

fn was_visited(visited: &Vec<String>, path: &String) -> (r: bool)
    ensures
        r == path_set(visited@).contains(path@),
{
    let mut i: usize = 0;
    while i < visited.len()
        invariant
            i <= visited.len(),
            forall|k: int| 0 <= k < i ==> visited@[k]@ != path@,
        decreases visited.len() - i,
    {
        if visited[i] == *path {
            assert(atspi::texts(visited@)[i as int] == path@);
            return true;
        }
        i = i + 1;
    }
    assert forall|k: int| 0 <= k < atspi::texts(visited@).len() implies atspi::texts(visited@)[k]
        != path@ by {}
    false
}

/// Renders the subtree at position `at` behind what `output` holds.
fn render_cache_node(
    nodes: &Vec<CacheSnapshotNode>,
    at: usize,
    depth: usize,
    visited: &mut Vec<String>,
    output: &mut String,
)
    requires
        at < nodes.len(),
    ensures
        ({
            let (t, after) = cache_node_text(
                views(nodes@),
                nodes@[at as int]@,
                depth as nat,
                path_set(old(visited)@),
            );
            &&& final(output)@ == old(output)@ + t
            &&& path_set(final(visited)@) == after
        }),
    decreases 22 - depth,
{
    let node = &nodes[at];
    let mut t = cache_opening_tag(node, depth);
    if depth > MAX_DEPTH || was_visited(visited, &node.path) {
        t.append("/>\n");
        output.append(t.as_str());
        return;
    }
    let ghost before = visited@;
    visited.push(node.path.clone());
    proof {
        assert(atspi::texts(visited@) =~= atspi::texts(before).push(node.path@));
        atspi::texts(before).lemma_push_to_set_commute(node.path@);
    }
    let children = kid_positions(nodes, &node.path);
    if children.len() == 0 {
        assert(kids(views(nodes@), node.path@).len() == 0);
        t.append("/>\n");
        output.append(t.as_str());
        return;
    }
    t.append(">\n");
    let ghost entered = path_set(visited@);
    let ghost ks = kids(views(nodes@), node.path@);
    let mut inner = String::new();
    let mut i: usize = 0;
    assert(ks.take(0) =~= Seq::empty());
    while i < children.len()
        invariant
            depth <= MAX_DEPTH,
            i <= children.len(),
            ks == selected(views(nodes@), children@),
            forall|k: int| 0 <= k < children@.len() ==> (#[trigger] children@[k]) < nodes@.len(),
            (inner@, path_set(visited@)) == cache_children_text(
                views(nodes@),
                ks.take(i as int),
                (depth + 1) as nat,
                entered,
            ),
        decreases children.len() - i,
    {
        render_cache_node(nodes, children[i], depth + 1, visited, &mut inner);
        proof {
            assert(ks.take(i + 1).drop_last() =~= ks.take(i as int));
            assert(ks.take(i + 1).last() == nodes@[children@[i as int] as int]@);
        }
        i = i + 1;
    }
    assert(ks.take(i as int) =~= ks);
    t.append(inner.as_str());
    push_closing(&mut t, node.raw_role.as_str(), depth);
    output.append(t.as_str());
}

fn last_with_path(nodes: &Vec<CacheSnapshotNode>, path: &str) -> (r: Option<usize>)
    ensures
        match r {
            Some(i) => i < nodes.len() && last_at(views(nodes@), path@) == Some(i as int),
            None => last_at(views(nodes@), path@) is None,
        },
{
    let ghost all = views(nodes@);
    let mut n: usize = nodes.len();
    assert(all.take(n as int) =~= all);
    while n > 0
        invariant
            all == views(nodes@),
            n <= nodes.len(),
            last_at(all, path@) == last_at(all.take(n as int), path@),
        decreases n,
    {
        assert(all.take(n as int).drop_last() =~= all.take(n - 1));
        assert(all.take(n as int).last() == nodes@[n - 1]@);
        if same_text(nodes[n - 1].path.as_str(), path) {
            return Some(n - 1);
        }
        n = n - 1;
    }
    None
}

/// Renders a snapshot document from a flat set of cache nodes, rooted at
/// `root_path`. Siblings come in the order of their index; a node reached a second
/// time, or beyond the depth cap, is emitted without children. The document holds
/// neither bounds nor toolkit attributes, which the cache does not carry.
pub fn render_cache_snapshot(nodes: Vec<CacheSnapshotNode>, root_path: &str) -> (r: String)
    ensures
        r@ == cache_document(views(nodes@), root_path@),
{
    let mut output = "<?xml version=\"1.0\" encoding=\"UTF-8\"?>\n".to_string();
    match last_with_path(&nodes, root_path) {
        Some(i) => {
            let mut visited: Vec<String> = Vec::new();
            assert(path_set(visited@) =~= Set::empty());
            render_cache_node(&nodes, i, 0, &mut visited, &mut output);
        },
        None => {},
    }
    output
}

/// The snapshot node of a cache entry.
pub open spec fn snapshot_node_of(item: CacheItem, app_bus: Seq<char>) -> CacheView {
    CacheView {
        bus: entry_bus(item, app_bus),
        path: item.path@,
        parent_path: parent_named(item.parent@),
        index_in_parent: item.index_in_parent as int,
        raw_role: atspi::raw_role_label(atspi::role_table(item.role), item.role),
        name: item.name@,
        states: item.states@,
    }
}

/// Renders a snapshot document from the entries of an application's cache.
pub fn snapshot_tree_from_cache(items: &Vec<CacheItem>, app_bus: &str, app_path: &str) -> (r: String)
    ensures
        r@ == cache_document(
            items@.map_values(|i: CacheItem| snapshot_node_of(i, app_bus@)),
            app_path@,
        ),
{
    let ghost expected = items@.map_values(|i: CacheItem| snapshot_node_of(i, app_bus@));
    let mut nodes: Vec<CacheSnapshotNode> = Vec::new();
    let mut i: usize = 0;
    while i < items.len()
        invariant
            i <= items.len(),
            expected == items@.map_values(|i: CacheItem| snapshot_node_of(i, app_bus@)),
            views(nodes@) == expected.take(i as int),
        decreases items.len() - i,
    {
        let item = &items[i];
        let ghost before = nodes@;
        nodes.push(
            CacheSnapshotNode {
                bus: bus_or(clone_optional(&item.bus), app_bus),
                path: item.path.clone(),
                parent_path: parent_of(item.parent.as_str()),
                index_in_parent: item.index_in_parent,
                raw_role: cache_raw_role_name(item.role),
                name: item.name.clone(),
                states: item.states.clone(),
            },
        );
        assert(views(nodes@) =~= views(before).push(expected[i as int]));
        assert(expected.take(i + 1) =~= expected.take(i as int).push(expected[i as int]));
        i = i + 1;
    }
    assert(expected.take(i as int) =~= expected);
    render_cache_snapshot(nodes, app_path)
}

// ── Laws ────────────────────────────────────────────────────────────────────

/// Whether siblings come in the order of their index.
pub open spec fn in_order(siblings: Seq<CacheView>) -> bool {
    forall|i: int, j: int|
        0 <= i < j < siblings.len() ==> (#[trigger] siblings[i]).index_in_parent <= (
        #[trigger] siblings[j]).index_in_parent
}

proof fn lemma_placed_in_order(siblings: Seq<CacheView>, n: CacheView)
    requires
        in_order(siblings),
    ensures
        in_order(placed(siblings, n)),
        placed(siblings, n).to_multiset() == siblings.to_multiset().insert(n),
        placed(siblings, n).len() == siblings.len() + 1,
        placed(siblings, n).last().index_in_parent == (if siblings.len() > 0
            && siblings.last().index_in_parent > n.index_in_parent {
            siblings.last().index_in_parent
        } else {
            n.index_in_parent
        }),
    decreases siblings.len(),
{
    broadcast use vstd::seq_lib::group_to_multiset_ensures;

    if siblings.len() > 0 && siblings.last().index_in_parent > n.index_in_parent {
        let front = siblings.drop_last();
        let last = siblings.last();
        lemma_placed_in_order(front, n);
        assert(siblings =~= front.push(last));
        let p = placed(front, n);
        let r = p.push(last);
        if front.len() > 0 {
            assert(front.last() == siblings[siblings.len() - 2]);
        }
        assert forall|i: int, j: int| 0 <= i < j < r.len() implies (#[trigger] r[i]).index_in_parent
            <= (#[trigger] r[j]).index_in_parent by {
            assert(p.last().index_in_parent <= last.index_in_parent);
            if j == p.len() {
                if i < p.len() - 1 {
                    assert(p[i].index_in_parent <= p[p.len() - 1].index_in_parent);
                }
            }
        }
        assert(r.to_multiset() =~= siblings.to_multiset().insert(n));
    } else {
        let r = siblings.push(n);
        assert forall|i: int, j: int| 0 <= i < j < r.len() implies (#[trigger] r[i]).index_in_parent
            <= (#[trigger] r[j]).index_in_parent by {
            if j == siblings.len() {
                if i < siblings.len() - 1 {
                    assert(siblings[i].index_in_parent <= siblings[siblings.len()
                        - 1].index_in_parent);
                }
            }
        }
    }
}

/// Children are rendered in the order of their index, and exactly the nodes that
/// name the parent are its children.
pub proof fn law_children_in_order(nodes: Seq<CacheView>, parent: Seq<char>)
    ensures
        in_order(kids(nodes, parent)),
        kids(nodes, parent).to_multiset() == nodes.filter(
            |n: CacheView| n.parent_path == Some(parent),
        ).to_multiset(),
    decreases nodes.len(),
{
    broadcast use vstd::seq_lib::group_to_multiset_ensures;

    let named = |n: CacheView| n.parent_path == Some(parent);
    reveal(Seq::filter);
    if nodes.len() > 0 {
        law_children_in_order(nodes.drop_last(), parent);
        let front = kids(nodes.drop_last(), parent);
        if named(nodes.last()) {
            lemma_placed_in_order(front, nodes.last());
        }
    }
}

/// A node whose children have been rendered before is emitted without children, so
/// a cache whose entries lead back into themselves renders to a finite document.
pub proof fn law_children_rendered_once(
    nodes: Seq<CacheView>,
    n: CacheView,
    depth: nat,
    visited: Set<Seq<char>>,
)
    requires
        visited.contains(n.path),
    ensures
        cache_node_text(nodes, n, depth, visited) == (cache_opening(n, depth) + "/>\n"@, visited),
{
}

/// A cache entry keeps its identity, its description, its states and the number of its
/// children; it goes by its own name where it has one and by its label where it has none; a
/// parent counts where its path is neither empty nor the null path.
pub proof fn law_cached_accessible_keeps_its_entry(
    item: CacheItem,
    app_bus: Seq<char>,
    label: Option<Seq<char>>,
    s: State,
)
    ensures
        ({
            let a = accessible_of(item, app_bus, label);
            &&& a.ref_.1 == item.path@
            &&& item.bus matches Some(b) ==> (b@.len() > 0 ==> a.ref_.0 == b@)
            &&& item.bus matches Some(b) ==> (b@.len() == 0 ==> a.ref_.0 == app_bus)
            &&& item.bus is None ==> a.ref_.0 == app_bus
            &&& item.name@.len() > 0 ==> a.name == Some(item.name@)
            &&& item.name@.len() == 0 ==> a.name == label
            &&& item.description@.len() > 0 ==> a.description == Some(item.description@)
            &&& item.description@.len() == 0 ==> a.description is None
            &&& a.states.contains(s.attr()) <==> item.states@.contains(s)
            &&& a.parent_path is None <==> item.parent@.len() == 0 || item.parent@
                == "/org/a11y/atspi/null"@
            &&& a.parent_path matches Some(p) ==> p == item.parent@
            &&& a.child_count == item.child_count
            &&& a.role == atspi::role_label(atspi::role_table(item.role), item.role)
        }),
{
    atspi::law_set_states_are_named(item.states@, s);
}

/// A snapshot node made of a cache entry keeps its identity, its place, its name, its states
/// and its raw role.
pub proof fn law_cached_node_keeps_its_entry(item: CacheItem, app_bus: Seq<char>)
    ensures
        ({
            let n = snapshot_node_of(item, app_bus);
            &&& n.path == item.path@
            &&& item.bus matches Some(b) ==> (b@.len() > 0 ==> n.bus == b@)
            &&& item.bus matches Some(b) ==> (b@.len() == 0 ==> n.bus == app_bus)
            &&& item.bus is None ==> n.bus == app_bus
            &&& n.index_in_parent == item.index_in_parent
            &&& n.name == item.name@
            &&& n.states == item.states@
            &&& n.parent_path is None <==> item.parent@.len() == 0 || item.parent@
                == "/org/a11y/atspi/null"@
            &&& n.parent_path matches Some(p) ==> p == item.parent@
            &&& n.raw_role == atspi::raw_role_label(atspi::role_table(item.role), item.role)
        }),
{
}

spec fn cached_list(n: CacheView) -> Seq<(Seq<char>, Seq<char>)> {
    seq![("role"@, atspi::unescaped(atspi::escaped(n.raw_role)))] + (snapshot::optional_list(
        "name"@,
        n.name,
    ) + (snapshot::state_list(n.states, 17) + seq![
        ("_ref"@, atspi::unescaped(atspi::escaped(n.bus + "|"@ + n.path))),
    ]))
}

proof fn lemma_cached_opening_reads(n: CacheView, depth: nat, rest: Seq<char>)
    requires
        rest.len() == 0 || rest[0] != ' ',
    ensures
        snapshot::element_head(cache_opening(n, depth) + rest) == Some(
            (atspi::tag(n.raw_role), cached_list(n)),
        ),
{
    reveal_strlit("role");
    reveal_strlit("name");
    let r3 = snapshot::reference(n.bus, n.path) + rest;
    let r2 = snapshot::state_attributes(n.states, 17) + r3;
    let r1 = snapshot::optional_attribute("name"@, n.name) + r2;
    let attrs = snapshot::attribute("role"@, n.raw_role) + r1;
    let name = atspi::tag(n.raw_role);
    let h0 = snapshot::indent(depth) + "<"@ + name;
    let h1 = h0 + snapshot::attribute("role"@, n.raw_role);
    let h2 = h1 + snapshot::optional_attribute("name"@, n.name);
    let h3 = h2 + snapshot::state_attributes(n.states, 17);
    snapshot::lemma_behind(h3, snapshot::reference(n.bus, n.path), rest);
    snapshot::lemma_behind(h2, snapshot::state_attributes(n.states, 17), r3);
    snapshot::lemma_behind(h1, snapshot::optional_attribute("name"@, n.name), r2);
    snapshot::lemma_behind(h0, snapshot::attribute("role"@, n.raw_role), r1);
    assert(cache_opening(n, depth) + rest == h0 + attrs);
    atspi::law_tag_is_element_name(n.raw_role);
    assert(attrs.len() > 0 && attrs[0] == ' ') by {
        snapshot::lemma_attribute_begins("role"@, n.raw_role);
    }
    snapshot::lemma_head_reads(depth, name, attrs);
    snapshot::lemma_attribute_reads("role"@, n.raw_role, r1);
    snapshot::lemma_optional_reads("name"@, n.name, r2);
    snapshot::lemma_states_read(n.states, 17, r3);
    snapshot::lemma_reference_reads(n.bus, n.path, rest);
    assert(snapshot::attributes_in(rest) =~= Seq::empty());
    let last = seq![("_ref"@, atspi::unescaped(atspi::escaped(n.bus + "|"@ + n.path)))];
    assert(last + snapshot::attributes_in(rest) =~= last);
}

/// An element made from the cache carries its role, its name where it has one, its states and
/// its identity, and nothing else: no description, no bounds and no toolkit attribute.
pub proof fn law_cached_element_carries_its_node(
    n: CacheView,
    depth: nat,
    rest: Seq<char>,
    s: State,
    key: Seq<char>,
)
    requires
        rest.len() == 0 || rest[0] != ' ',
        snapshot::printable(n.raw_role),
        snapshot::printable(n.name),
        snapshot::printable(n.bus),
        snapshot::printable(n.path),
    ensures
        ({
            let e = cache_opening(n, depth) + rest;
            &&& snapshot::element_head(e) matches Some((tag, _)) && tag == atspi::tag(n.raw_role)
            &&& snapshot::carried(e, "role"@) == Some(n.raw_role)
            &&& n.name.len() > 0 ==> snapshot::carried(e, "name"@) == Some(n.name)
            &&& n.name.len() == 0 ==> snapshot::carried(e, "name"@) is None
            &&& snapshot::carried(e, s.attr()) == (if n.states.contains(s) {
                Some("true"@)
            } else {
                None
            })
            &&& snapshot::carried(e, "_ref"@) == Some(n.bus.push('|') + n.path)
            &&& key != "role"@ && key != "name"@ && key != "_ref"@ && !atspi::state_attr(key)
                ==> snapshot::carried(e, key) is None
        }),
{
    reveal_strlit("|");
    let whole = n.bus + "|"@ + n.path;
    assert(whole =~= n.bus.push('|') + n.path);
    assert(snapshot::printable(whole)) by {
        assert forall|i: int| 0 <= i < whole.len() implies #[trigger] whole[i] as u32 >= 0x20
            || whole[i] == '\t' || whole[i] == '\n' || whole[i] == '\r' by {
            if i < n.bus.len() {
                assert(whole[i] == n.bus[i]);
            } else if i > n.bus.len() {
                assert(whole[i] == n.path[i - n.bus.len() - 1]);
            }
        }
    }
    atspi::law_only_controls_are_dropped(n.raw_role);
    atspi::law_only_controls_are_dropped(n.name);
    atspi::law_only_controls_are_dropped(whole);
    lemma_cached_opening_reads(n, depth, rest);
    snapshot::lemma_builtins_differ();
    lemma_cached_value(n, "role"@);
    lemma_cached_value(n, "name"@);
    lemma_cached_value(n, "_ref"@);
    lemma_cached_value(n, key);
    lemma_cached_value(n, s.attr());
    atspi::law_every_state_is_emitted_once(s, s);
    let i = choose|i: int| 0 <= i < atspi::emitted().len() && atspi::emitted()[i] == s;
    assert(atspi::emitted()[i].attr() == s.attr());
    snapshot::lemma_state_value(n.states, 17, s.attr());
    atspi::law_builtin_names(s.attr());
}

proof fn lemma_cached_value(n: CacheView, key: Seq<char>)
    ensures
        snapshot::value_of(cached_list(n), key) == (if key == "role"@ {
            Some(atspi::unescaped(atspi::escaped(n.raw_role)))
        } else if key == "name"@ && n.name.len() > 0 {
            Some(atspi::unescaped(atspi::escaped(n.name)))
        } else if snapshot::value_of(snapshot::state_list(n.states, 17), key) is Some {
            snapshot::value_of(snapshot::state_list(n.states, 17), key)
        } else if key == "_ref"@ {
            Some(atspi::unescaped(atspi::escaped(n.bus + "|"@ + n.path)))
        } else {
            None
        }),
        !atspi::state_attr(key) ==> snapshot::value_of(snapshot::state_list(n.states, 17), key) is None,
        atspi::builtin(key) ==> !atspi::state_attr(key),
{
    let role = seq![("role"@, atspi::unescaped(atspi::escaped(n.raw_role)))];
    let last = seq![("_ref"@, atspi::unescaped(atspi::escaped(n.bus + "|"@ + n.path)))];
    let l2 = snapshot::state_list(n.states, 17) + last;
    let l1 = snapshot::optional_list("name"@, n.name) + l2;
    snapshot::lemma_value_joined(role, l1, key);
    snapshot::lemma_value_joined(snapshot::optional_list("name"@, n.name), l2, key);
    snapshot::lemma_value_joined(snapshot::state_list(n.states, 17), last, key);
    snapshot::lemma_value_of_one("role"@, atspi::unescaped(atspi::escaped(n.raw_role)), key);
    snapshot::lemma_value_of_one("name"@, atspi::unescaped(atspi::escaped(n.name)), key);
    snapshot::lemma_value_of_one(
        "_ref"@,
        atspi::unescaped(atspi::escaped(n.bus + "|"@ + n.path)),
        key,
    );
    snapshot::lemma_state_value(n.states, 17, key);
    atspi::law_builtin_names(key);
}

/// A child is put behind all siblings of no greater index and before all of a greater one,
/// so that those of the same index keep the order they came in.
pub proof fn law_child_is_placed_by_its_index(siblings: Seq<CacheView>, n: CacheView)
    requires
        in_order(siblings),
    ensures
        exists|k: int|
            0 <= k <= siblings.len() && #[trigger] siblings.take(k).push(n) + siblings.skip(k)
                == placed(siblings, n) && (forall|i: int|
                0 <= i < k ==> (#[trigger] siblings[i]).index_in_parent <= n.index_in_parent) && (
            forall|i: int|
                k <= i < siblings.len() ==> (#[trigger] siblings[i]).index_in_parent
                    > n.index_in_parent),
    decreases siblings.len(),
{
    let m = siblings.len() as int;
    if m == 0 || siblings.last().index_in_parent <= n.index_in_parent {
        assert(siblings.take(m).push(n) + siblings.skip(m) =~= placed(siblings, n));
    } else {
        let front = siblings.drop_last();
        assert(in_order(front)) by {
            assert forall|i: int, j: int| 0 <= i < j < front.len() implies (
            #[trigger] front[i]).index_in_parent <= (#[trigger] front[j]).index_in_parent by {
                assert(front[i] == siblings[i] && front[j] == siblings[j]);
            }
        }
        law_child_is_placed_by_its_index(front, n);
        let k = choose|k: int|
            0 <= k <= front.len() && #[trigger] front.take(k).push(n) + front.skip(k) == placed(
                front,
                n,
            ) && (forall|i: int|
                0 <= i < k ==> (#[trigger] front[i]).index_in_parent <= n.index_in_parent) && (
            forall|i: int|
                k <= i < front.len() ==> (#[trigger] front[i]).index_in_parent
                    > n.index_in_parent);
        assert(siblings.take(k).push(n) + siblings.skip(k) =~= (front.take(k).push(n) + front.skip(
            k,
        )).push(siblings.last()));
        assert forall|i: int| 0 <= i < k implies (#[trigger] siblings[i]).index_in_parent
            <= n.index_in_parent by {
            assert(siblings[i] == front[i]);
        }
        assert forall|i: int| k <= i < siblings.len() implies (
        #[trigger] siblings[i]).index_in_parent > n.index_in_parent by {
            if i < front.len() {
                assert(siblings[i] == front[i]);
            }
        }
    }
}

/// The children of a node are those that name it as their parent, taken in one after the
/// other.
pub proof fn law_children_name_their_parent(
    nodes: Seq<CacheView>,
    n: CacheView,
    parent: Seq<char>,
)
    ensures
        kids(Seq::empty(), parent).len() == 0,
        n.parent_path == Some(parent) ==> kids(nodes.push(n), parent) == placed(
            kids(nodes, parent),
            n,
        ),
        n.parent_path != Some(parent) ==> kids(nodes.push(n), parent) == kids(nodes, parent),
{
    assert(nodes.push(n).drop_last() =~= nodes);
}

/// A snapshot is rooted at the last entry of the path it is asked for, and consists of the
/// declaration alone where there is none.
pub proof fn law_snapshot_is_rooted_at_its_path(nodes: Seq<CacheView>, root: Seq<char>)
    ensures
        match last_at(nodes, root) {
            Some(i) => {
                &&& 0 <= i < nodes.len()
                &&& nodes[i].path == root
                &&& forall|j: int| i < j < nodes.len() ==> (#[trigger] nodes[j]).path != root
                &&& cache_document(nodes, root) == snapshot::declaration() + cache_node_text(
                    nodes,
                    nodes[i],
                    0,
                    Set::empty(),
                ).0
            },
            None => {
                &&& forall|j: int| 0 <= j < nodes.len() ==> (#[trigger] nodes[j]).path != root
                &&& cache_document(nodes, root) == snapshot::declaration()
            },
        },
    decreases nodes.len(),
{
    if nodes.len() > 0 && nodes.last().path != root {
        let front = nodes.drop_last();
        law_snapshot_is_rooted_at_its_path(front, root);
        match last_at(front, root) {
            Some(i) => {
                assert forall|j: int| i < j < nodes.len() implies (#[trigger] nodes[j]).path
                    != root by {
                    if j < front.len() {
                        assert(nodes[j] == front[j]);
                    }
                }
                assert(nodes[i] == front[i]);
            },
            None => {
                assert forall|j: int| 0 <= j < nodes.len() implies (#[trigger] nodes[j]).path
                    != root by {
                    if j < front.len() {
                        assert(nodes[j] == front[j]);
                    }
                }
            },
        }
    }
}

/// An element that is met for the first time, within the depth cap, stands around its
/// children, one level deeper, and is closed under the name it was opened with; one without
/// children is empty.
pub proof fn law_cached_element_encloses_its_children(
    nodes: Seq<CacheView>,
    n: CacheView,
    depth: nat,
    visited: Set<Seq<char>>,
)
    ensures
        ({
            let (t, after) = cache_node_text(nodes, n, depth, visited);
            let children = kids(nodes, n.path);
            let (inner, seen) = cache_children_text(
                nodes,
                children,
                depth + 1,
                visited.insert(n.path),
            );
            let foot = snapshot::indent(depth) + "</"@ + atspi::tag(n.raw_role) + ">\n"@;
            &&& depth <= 20 && !visited.contains(n.path) && children.len() > 0 ==> t
                == cache_opening(n, depth) + ">\n"@ + inner + foot && after == seen
            &&& depth <= 20 && !visited.contains(n.path) && children.len() == 0 ==> t
                == cache_opening(n, depth) + "/>\n"@ && after == visited.insert(n.path)
            &&& depth > 20 ==> t == cache_opening(n, depth) + "/>\n"@ && after == visited
        }),
{
}

/// The value of a cached accessible and of a node made from the cache: each part is the field
/// of that name.
pub proof fn law_cached_values_are_their_fields(c: CachedAccessible, n: CacheSnapshotNode)
    ensures
        c@.ref_ == (c.ref_.0@, c.ref_.1@),
        c@.role == c.role@,
        c@.name == error::optional(c.name),
        c@.description == error::optional(c.description),
        c@.states.len() == c.states@.len(),
        forall|i: int| 0 <= i < c.states@.len() ==> c@.states[i] == (#[trigger] c.states@[i])@,
        c@.parent_path == error::optional(c.parent_path),
        c@.child_count == c.child_count,
        n@.bus == n.bus@,
        n@.path == n.path@,
        n@.parent_path == error::optional(n.parent_path),
        n@.index_in_parent == n.index_in_parent,
        n@.raw_role == n.raw_role@,
        n@.name == n.name@,
        n@.states == n.states@,
{
}

} // verus!
