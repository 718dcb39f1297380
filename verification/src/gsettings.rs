//! Settings of a session: a private keyfile store in place of the host's.
use crate::snapshot;
use crate::text::{self, chars_of, comes_before, joined};
use vstd::prelude::*;
use vstd::string::*;

verus! {

/// Value of `GSETTINGS_BACKEND` that selects the keyfile backend.
pub const KEYFILE_BACKEND: &'static str = "keyfile";

/// One entry to seed into a session's keyfile store.
#[derive(Debug, Clone, PartialEq, Eq)]
pub struct GSettingEntry {
    /// Dotted schema id, such as `"org.gnome.desktop.interface"`.
    pub schema: String,
    /// Key within the schema.
    pub key: String,
    /// The value in GVariant text form, written as it is.
    pub value: String,
}

/// The mathematical value of a [`GSettingEntry`].
#[verifier::ext_equal]
pub struct EntryView {
    pub schema: Seq<char>,
    pub key: Seq<char>,
    pub value: Seq<char>,
}

impl View for GSettingEntry {
    type V = EntryView;

    open spec fn view(&self) -> EntryView {
        EntryView { schema: self.schema@, key: self.key@, value: self.value@ }
    }
}

impl GSettingEntry {
    /// An entry from its three parts.
    pub fn new(schema: &str, key: &str, value: &str) -> (r: Self)
        ensures
            r@ == (EntryView { schema: schema@, key: key@, value: value@ }),
    {
        GSettingEntry {
            schema: schema.to_string(),
            key: key.to_string(),
            value: value.to_string(),
        }
    }
}

/// Settings isolation of a session.
#[derive(Debug, Clone)]
pub struct GSettingsConfig {
    /// Whether compositor and application run against a private store. When
    /// `false` both inherit the host's settings.
    pub isolated: bool,
    /// Entries seeded into the store when `isolated`. A later entry for the same
    /// schema and key overrides an earlier one.
    pub initial: Vec<GSettingEntry>,
}

impl Default for GSettingsConfig {
    fn default() -> (r: Self)
        ensures
            r.isolated,
            r.initial@.len() == 0,
    {
        GSettingsConfig { isolated: true, initial: Vec::new() }
    }
}

/// The directory used as `XDG_CONFIG_HOME` for the private store.
pub fn config_dir(runtime_dir: &str) -> (r: String)
    ensures
        r@ == text::joined_path(runtime_dir@, "config"@),
{
    joined(runtime_dir, "config")
}

/// The keyfile's path below a session's runtime directory.
pub open spec fn keyfile_location(runtime_dir: Seq<char>) -> Seq<char> {
    text::joined_path(text::joined_path(runtime_dir, "config"@), "glib-2.0/settings/keyfile"@)
}

/// Path of the keyfile that is read under [`config_dir`].
pub fn keyfile_path(runtime_dir: &str) -> (r: String)
    ensures
        r@ == keyfile_location(runtime_dir@),
{
    joined(config_dir(runtime_dir).as_str(), "glib-2.0/settings/keyfile")
}

// ── Keyfile text ────────────────────────────────────────────────────────────

/// Keys with their values, in increasing order of the keys.
pub type Pairs = Seq<(Seq<char>, Seq<char>)>;

/// Groups by name, in increasing order of the names.
pub type Groups = Seq<(Seq<char>, Pairs)>;

/// The group of a schema: its id with slashes for dots.
pub open spec fn group_of(schema: Seq<char>) -> Seq<char> {
    schema.map_values(
        |c: char|
            if c == '.' {
                '/'
            } else {
                c
            },
    )
}

/// `pairs` with `key` set to `value`, the order kept.
pub open spec fn with_value(pairs: Pairs, key: Seq<char>, value: Seq<char>) -> Pairs
    decreases pairs.len(),
{
    if pairs.len() == 0 || text::precedes(pairs.last().0, key) {
        pairs.push((key, value))
    } else if pairs.last().0 == key {
        pairs.drop_last().push((key, value))
    } else {
        with_value(pairs.drop_last(), key, value).push(pairs.last())
    }
}

/// `groups` with `key` set to `value` in `group`, the order kept.
pub open spec fn with_entry(
    groups: Groups,
    group: Seq<char>,
    key: Seq<char>,
    value: Seq<char>,
) -> Groups
    decreases groups.len(),
{
    if groups.len() == 0 || text::precedes(groups.last().0, group) {
        groups.push((group, seq![(key, value)]))
    } else if groups.last().0 == group {
        groups.drop_last().push((group, with_value(groups.last().1, key, value)))
    } else {
        with_entry(groups.drop_last(), group, key, value).push(groups.last())
    }
}

/// The groups that entries amount to, later entries winning over earlier ones.
pub open spec fn grouped(entries: Seq<EntryView>) -> Groups
    decreases entries.len(),
{
    if entries.len() == 0 {
        Seq::empty()
    } else {
        let e = entries.last();
        with_entry(grouped(entries.drop_last()), group_of(e.schema), e.key, e.value)
    }
}

/// The lines of a group's pairs.
pub open spec fn pairs_text(pairs: Pairs) -> Seq<char>
    decreases pairs.len(),
{
    if pairs.len() == 0 {
        Seq::empty()
    } else {
        pairs_text(pairs.drop_last()) + pairs.last().0 + "="@ + pairs.last().1 + "\n"@
    }
}

/// The text of groups, a blank line between two.
pub open spec fn groups_text(groups: Groups) -> Seq<char>
    decreases groups.len(),
{
    if groups.len() == 0 {
        Seq::empty()
    } else {
        let front = groups_text(groups.drop_last());
        let separated = if groups.len() > 1 {
            front + "\n"@
        } else {
            front
        };
        separated + "["@ + groups.last().0 + "]\n"@ + pairs_text(groups.last().1)
    }
}

/// The mathematical values of entries.
pub open spec fn entry_views(v: Seq<GSettingEntry>) -> Seq<EntryView> {
    v.map_values(|e: GSettingEntry| e@)
}

spec fn group_views(v: Seq<(String, Vec<(String, String)>)>) -> Groups {
    v.map_values(|g: (String, Vec<(String, String)>)| (g.0@, snapshot::keys_of(g.1@)))
}

fn group_name(schema: &str) -> (r: String)
    ensures
        r@ == group_of(schema@),
{
    let cs = chars_of(schema);
    let mut out = String::new();
    let mut i: usize = 0;
    while i < cs.len()
        invariant
            cs@ == schema@,
            i <= cs.len(),
            out@ == group_of(schema@).take(i as int),
        decreases cs.len() - i,
    {
        if cs[i] == '.' {
            out.push('/');
        } else {
            out.push(cs[i]);
        }
        assert(out@ =~= group_of(schema@).take(i + 1));
        i = i + 1;
    }
    assert(out@ =~= group_of(schema@));
    out
}

fn set_value(pairs: &mut Vec<(String, String)>, key: String, value: String)
    ensures
        snapshot::keys_of(final(pairs)@) == with_value(
            snapshot::keys_of(old(pairs)@),
            key@,
            value@,
        ),
{
    let ghost all = snapshot::keys_of(pairs@);
    let ghost goal = with_value(all, key@, value@);
    let mut at: usize = pairs.len();
    assert(all.take(at as int) =~= all);
    assert(with_value(all.take(at as int), key@, value@) + all.skip(at as int) =~= goal);
    while at > 0 && !comes_before(pairs[at - 1].0.as_str(), key.as_str()) && pairs[at - 1].0 != key
        invariant
            all == snapshot::keys_of(pairs@),
            at <= pairs.len(),
            with_value(all.take(at as int), key@, value@) + all.skip(at as int) == goal,
        decreases at,
    {
        proof {
            assert(all.take(at as int).drop_last() =~= all.take(at - 1));
            assert(all.take(at as int).last() == all[at - 1]);
            assert(with_value(all.take(at - 1), key@, value@) + all.skip(at - 1) =~= with_value(
                all.take(at as int),
                key@,
                value@,
            ) + all.skip(at as int));
        }
        at = at - 1;
    }
    let ghost k = key@;
    let ghost v = value@;
    if at > 0 && pairs[at - 1].0 == key {
        proof {
            assert(all.take(at as int).drop_last() =~= all.take(at - 1));
            assert(all.take(at as int).last() == all[at - 1]);
            text::lemma_precedes_irreflexive(k);
        }
        pairs.set(at - 1, (key, value));
        assert(snapshot::keys_of(pairs@) =~= all.take(at - 1).push((k, v)) + all.skip(at as int));
    } else {
        if at > 0 {
            assert(all.take(at as int).last() == all[at - 1]);
        }
        pairs.insert(at, (key, value));
        assert(snapshot::keys_of(pairs@) =~= all.take(at as int).push((k, v)) + all.skip(
            at as int,
        ));
    }
}

fn set_entry(
    groups: &mut Vec<(String, Vec<(String, String)>)>,
    group: String,
    key: String,
    value: String,
)
    ensures
        group_views(final(groups)@) == with_entry(group_views(old(groups)@), group@, key@, value@),
{
    let ghost all = group_views(groups@);
    let ghost goal = with_entry(all, group@, key@, value@);
    let mut at: usize = groups.len();
    assert(all.take(at as int) =~= all);
    assert(with_entry(all.take(at as int), group@, key@, value@) + all.skip(at as int) =~= goal);
    while at > 0 && !comes_before(groups[at - 1].0.as_str(), group.as_str()) && groups[at - 1].0
        != group
        invariant
            all == group_views(groups@),
            at <= groups.len(),
            with_entry(all.take(at as int), group@, key@, value@) + all.skip(at as int) == goal,
        decreases at,
    {
        proof {
            assert(all.take(at as int).drop_last() =~= all.take(at - 1));
            assert(all.take(at as int).last() == all[at - 1]);
            assert(with_entry(all.take(at - 1), group@, key@, value@) + all.skip(at - 1)
                =~= with_entry(all.take(at as int), group@, key@, value@) + all.skip(at as int));
        }
        at = at - 1;
    }
    let ghost g = group@;
    let ghost k = key@;
    let ghost v = value@;
    let ghost before = groups@;
    if at > 0 && groups[at - 1].0 == group {
        proof {
            assert(all.take(at as int).drop_last() =~= all.take(at - 1));
            assert(all.take(at as int).last() == all[at - 1]);
            text::lemma_precedes_irreflexive(g);
        }
        let (name, mut pairs) = groups.remove(at - 1);
        set_value(&mut pairs, key, value);
        groups.insert(at - 1, (name, pairs));
        assert(group_views(groups@) =~= all.take(at - 1).push((g, with_value(all[at - 1].1, k, v)))
            + all.skip(at as int));
    } else {
        if at > 0 {
            assert(all.take(at as int).last() == all[at - 1]);
        }
        let pairs = vec![(key, value)];
        assert(snapshot::keys_of(pairs@) =~= seq![(k, v)]);
        groups.insert(at, (group, pairs));
        assert(group_views(groups@) =~= all.take(at as int).push((g, seq![(k, v)])) + all.skip(
            at as int,
        ));
    }
}

fn pairs_lines(pairs: &Vec<(String, String)>) -> (r: String)
    ensures
        r@ == pairs_text(snapshot::keys_of(pairs@)),
{
    let ghost all = snapshot::keys_of(pairs@);
    let mut out = String::new();
    let mut i: usize = 0;
    assert(all.take(0) =~= Seq::empty());
    while i < pairs.len()
        invariant
            all == snapshot::keys_of(pairs@),
            i <= pairs.len(),
            out@ == pairs_text(all.take(i as int)),
        decreases pairs.len() - i,
    {
        proof {
            assert(all.take(i + 1).drop_last() =~= all.take(i as int));
            assert(all.take(i + 1).last() == all[i as int]);
        }
        out.append(pairs[i].0.as_str());
        out.append("=");
        out.append(pairs[i].1.as_str());
        out.append("\n");
        i = i + 1;
    }
    assert(all.take(i as int) =~= all);
    out
}

/// Renders entries as keyfile text: grouped by schema, with groups and keys in
/// sorted order, the last entry for a key winning.
pub fn render_keyfile(entries: &[GSettingEntry]) -> (r: String)
    ensures
        r@ == groups_text(grouped(entry_views(entries@))),
{
    let ghost all = entry_views(entries@);
    let mut groups: Vec<(String, Vec<(String, String)>)> = Vec::new();
    let mut i: usize = 0;
    assert(group_views(groups@) =~= grouped(all.take(0)));
    while i < entries.len()
        invariant
            all == entry_views(entries@),
            i <= entries.len(),
            group_views(groups@) == grouped(all.take(i as int)),
        decreases entries.len() - i,
    {
        proof {
            assert(all.take(i + 1).drop_last() =~= all.take(i as int));
            assert(all.take(i + 1).last() == all[i as int]);
        }
        let e = &entries[i];
        set_entry(&mut groups, group_name(e.schema.as_str()), e.key.clone(), e.value.clone());
        i = i + 1;
    }
    assert(all.take(i as int) =~= all);
    let ghost gs = group_views(groups@);
    let mut out = String::new();
    let mut k: usize = 0;
    assert(gs.take(0) =~= Seq::empty());
    while k < groups.len()
        invariant
            gs == group_views(groups@),
            k <= groups.len(),
            out@ == groups_text(gs.take(k as int)),
        decreases groups.len() - k,
    {
        proof {
            assert(gs.take(k + 1).drop_last() =~= gs.take(k as int));
            assert(gs.take(k + 1).last() == gs[k as int]);
        }
        if k > 0 {
            out.append("\n");
        }
        out.append("[");
        out.append(groups[k].0.as_str());
        out.append("]\n");
        out.append(pairs_lines(&groups[k].1).as_str());
        k = k + 1;
    }
    assert(gs.take(k as int) =~= gs);
    out
}

/// A keyfile with one more entry behind what it holds.
pub open spec fn extended(existing: Seq<char>, entry: EntryView) -> Seq<char> {
    (if existing.len() == 0 {
        existing
    } else {
        existing + "\n"@
    }) + groups_text(grouped(seq![entry]))
}

/// A keyfile with one more entry behind what it holds: who reads it finds that entry's
/// value, and every other key with the value it had.
pub fn extended_keyfile(existing: &str, entry: GSettingEntry) -> (r: String)
    ensures
        r@ == extended(existing@, entry@),
{
    let mut out = String::new();
    if existing.unicode_len() > 0 {
        out.append(existing);
        out.append("\n");
    }
    let mut entries: Vec<GSettingEntry> = Vec::new();
    let ghost view = entry@;
    entries.push(entry);
    assert(entry_views(entries@) =~= seq![view]);
    out.append(render_keyfile(entries.as_slice()).as_str());
    out
}

// ── Laws ────────────────────────────────────────────────────────────────────

/// Whether keys come in strictly increasing order, so that none occurs twice.
pub open spec fn sorted_pairs(pairs: Pairs) -> bool {
    forall|i: int, j: int|
        0 <= i < j < pairs.len() ==> text::precedes((#[trigger] pairs[i]).0, (
        #[trigger] pairs[j]).0)
}

/// Whether groups come in strictly increasing order, and the keys of each too.
pub open spec fn sorted_groups(groups: Groups) -> bool {
    &&& forall|i: int, j: int|
        0 <= i < j < groups.len() ==> text::precedes((#[trigger] groups[i]).0, (
        #[trigger] groups[j]).0)
    &&& forall|i: int| 0 <= i < groups.len() ==> sorted_pairs((#[trigger] groups[i]).1)
}

/// The value of `key` among pairs.
pub open spec fn value_in(pairs: Pairs, key: Seq<char>) -> Option<Seq<char>>
    decreases pairs.len(),
{
    if pairs.len() == 0 {
        None
    } else if pairs.last().0 == key {
        Some(pairs.last().1)
    } else {
        value_in(pairs.drop_last(), key)
    }
}

/// The value of `key` in `group`.
pub open spec fn entry_in(groups: Groups, group: Seq<char>, key: Seq<char>) -> Option<Seq<char>>
    decreases groups.len(),
{
    if groups.len() == 0 {
        None
    } else if groups.last().0 == group {
        value_in(groups.last().1, key)
    } else {
        entry_in(groups.drop_last(), group, key)
    }
}

/// The value of the last entry for `key` in `group`.
pub open spec fn last_written(entries: Seq<EntryView>, group: Seq<char>, key: Seq<char>) -> Option<
    Seq<char>,
>
    decreases entries.len(),
{
    if entries.len() == 0 {
        None
    } else if group_of(entries.last().schema) == group && entries.last().key == key {
        Some(entries.last().value)
    } else {
        last_written(entries.drop_last(), group, key)
    }
}

proof fn lemma_with_value(pairs: Pairs, key: Seq<char>, value: Seq<char>)
    requires
        sorted_pairs(pairs),
    ensures
        ({
            let r = with_value(pairs, key, value);
            &&& sorted_pairs(r)
            &&& r.len() > 0
            &&& r.last().0 == (if pairs.len() > 0 && !text::precedes(pairs.last().0, key) {
                pairs.last().0
            } else {
                key
            })
            &&& forall|k: Seq<char>| #[trigger]
                value_in(r, k) == (if k == key {
                    Some(value)
                } else {
                    value_in(pairs, k)
                })
        }),
    decreases pairs.len(),
{
    let r = with_value(pairs, key, value);
    if pairs.len() == 0 || text::precedes(pairs.last().0, key) {
        assert(r.drop_last() =~= pairs);
        assert forall|i: int, j: int| 0 <= i < j < r.len() implies text::precedes(
            (#[trigger] r[i]).0,
            (#[trigger] r[j]).0,
        ) by {
            if j == pairs.len() && i < pairs.len() - 1 {
                text::lemma_precedes_transitive(pairs[i].0, pairs.last().0, key);
            }
        }
    } else if pairs.last().0 == key {
        assert(r.drop_last() =~= pairs.drop_last());
        assert forall|i: int, j: int| 0 <= i < j < r.len() implies text::precedes(
            (#[trigger] r[i]).0,
            (#[trigger] r[j]).0,
        ) by {
            assert(r[i].0 == pairs[i].0);
            assert(r[j].0 == pairs[j].0);
        }
        assert forall|k: Seq<char>| #[trigger] value_in(r, k) == (if k == key {
            Some(value)
        } else {
            value_in(pairs, k)
        }) by {}
    } else {
        let front = pairs.drop_last();
        let last = pairs.last();
        assert(sorted_pairs(front)) by {
            assert forall|i: int, j: int| 0 <= i < j < front.len() implies text::precedes(
                (#[trigger] front[i]).0,
                (#[trigger] front[j]).0,
            ) by {
                assert(front[i] == pairs[i]);
                assert(front[j] == pairs[j]);
            }
        }
        lemma_with_value(front, key, value);
        text::lemma_precedes_total(last.0, key);
        let f = with_value(front, key, value);
        assert(text::precedes(f.last().0, last.0)) by {
            if front.len() > 0 {
                assert(front.last() == pairs[pairs.len() - 2]);
            }
        }
        assert(r.drop_last() =~= f);
        assert forall|i: int, j: int| 0 <= i < j < r.len() implies text::precedes(
            (#[trigger] r[i]).0,
            (#[trigger] r[j]).0,
        ) by {
            if j == f.len() {
                if i < f.len() - 1 {
                    text::lemma_precedes_transitive(f[i].0, f.last().0, last.0);
                }
            } else {
                assert(r[i] == f[i]);
                assert(r[j] == f[j]);
            }
        }
        assert forall|k: Seq<char>| #[trigger] value_in(r, k) == (if k == key {
            Some(value)
        } else {
            value_in(pairs, k)
        }) by {
            assert(value_in(f, k) == (if k == key {
                Some(value)
            } else {
                value_in(front, k)
            }));
        }
    }
}

proof fn lemma_group_beyond_last(groups: Groups, group: Seq<char>, key: Seq<char>)
    requires
        sorted_groups(groups),
        groups.len() > 0 ==> text::precedes(groups.last().0, group),
    ensures
        entry_in(groups, group, key) is None,
    decreases groups.len(),
{
    if groups.len() > 0 {
        text::lemma_precedes_irreflexive(group);
        let front = groups.drop_last();
        lemma_front_sorted(groups);
        if front.len() > 0 {
            assert(front.last() == groups[groups.len() - 2]);
            text::lemma_precedes_transitive(front.last().0, groups.last().0, group);
        }
        lemma_group_beyond_last(front, group, key);
    }
}

proof fn lemma_front_sorted(groups: Groups)
    requires
        sorted_groups(groups),
        groups.len() > 0,
    ensures
        sorted_groups(groups.drop_last()),
{
    let front = groups.drop_last();
    assert forall|i: int, j: int| 0 <= i < j < front.len() implies text::precedes(
        (#[trigger] front[i]).0,
        (#[trigger] front[j]).0,
    ) by {
        assert(front[i] == groups[i]);
        assert(front[j] == groups[j]);
    }
    assert forall|i: int| 0 <= i < front.len() implies sorted_pairs((#[trigger] front[i]).1) by {
        assert(front[i] == groups[i]);
    }
}

proof fn lemma_with_entry(groups: Groups, group: Seq<char>, key: Seq<char>, value: Seq<char>)
    requires
        sorted_groups(groups),
    ensures
        ({
            let r = with_entry(groups, group, key, value);
            &&& sorted_groups(r)
            &&& r.len() > 0
            &&& r.last().0 == (if groups.len() > 0 && !text::precedes(groups.last().0, group) {
                groups.last().0
            } else {
                group
            })
            &&& forall|g: Seq<char>, k: Seq<char>| #[trigger]
                entry_in(r, g, k) == (if g == group && k == key {
                    Some(value)
                } else {
                    entry_in(groups, g, k)
                })
        }),
    decreases groups.len(),
{
    let r = with_entry(groups, group, key, value);
    if groups.len() == 0 || text::precedes(groups.last().0, group) {
        let pairs: Pairs = seq![(key, value)];
        assert(r.drop_last() =~= groups);
        assert(pairs.drop_last() =~= Seq::empty());
        reveal_with_fuel(value_in, 2);
        assert forall|i: int, j: int| 0 <= i < j < r.len() implies text::precedes(
            (#[trigger] r[i]).0,
            (#[trigger] r[j]).0,
        ) by {
            if j == groups.len() && i < groups.len() - 1 {
                text::lemma_precedes_transitive(groups[i].0, groups.last().0, group);
            }
        }
        assert forall|i: int| 0 <= i < r.len() implies sorted_pairs((#[trigger] r[i]).1) by {
            if i < groups.len() {
                assert(r[i] == groups[i]);
            }
        }
        assert forall|g: Seq<char>, k: Seq<char>| #[trigger] entry_in(r, g, k) == (if g == group
            && k == key {
            Some(value)
        } else {
            entry_in(groups, g, k)
        }) by {
            if g == group {
                lemma_group_beyond_last(groups, group, k);
            }
        }
    } else if groups.last().0 == group {
        let last = groups.last();
        assert(sorted_pairs(groups[groups.len() - 1].1));
        lemma_with_value(last.1, key, value);
        assert(r.drop_last() =~= groups.drop_last());
        assert forall|i: int, j: int| 0 <= i < j < r.len() implies text::precedes(
            (#[trigger] r[i]).0,
            (#[trigger] r[j]).0,
        ) by {
            assert(r[i].0 == groups[i].0);
            assert(r[j].0 == groups[j].0);
        }
        assert forall|i: int| 0 <= i < r.len() implies sorted_pairs((#[trigger] r[i]).1) by {
            if i < groups.len() - 1 {
                assert(r[i] == groups[i]);
            }
        }
        assert forall|g: Seq<char>, k: Seq<char>| #[trigger] entry_in(r, g, k) == (if g == group
            && k == key {
            Some(value)
        } else {
            entry_in(groups, g, k)
        }) by {
            assert(value_in(with_value(last.1, key, value), k) == (if k == key {
                Some(value)
            } else {
                value_in(last.1, k)
            }));
        }
    } else {
        let front = groups.drop_last();
        let last = groups.last();
        lemma_front_sorted(groups);
        lemma_with_entry(front, group, key, value);
        text::lemma_precedes_total(last.0, group);
        let f = with_entry(front, group, key, value);
        assert(text::precedes(f.last().0, last.0)) by {
            if front.len() > 0 {
                assert(front.last() == groups[groups.len() - 2]);
            }
        }
        assert(r.drop_last() =~= f);
        assert forall|i: int, j: int| 0 <= i < j < r.len() implies text::precedes(
            (#[trigger] r[i]).0,
            (#[trigger] r[j]).0,
        ) by {
            if j == f.len() {
                if i < f.len() - 1 {
                    text::lemma_precedes_transitive(f[i].0, f.last().0, last.0);
                }
            } else {
                assert(r[i] == f[i]);
                assert(r[j] == f[j]);
            }
        }
        assert forall|i: int| 0 <= i < r.len() implies sorted_pairs((#[trigger] r[i]).1) by {
            if i < f.len() {
                assert(r[i] == f[i]);
            } else {
                assert(r[i] == groups[groups.len() - 1]);
            }
        }
        assert forall|g: Seq<char>, k: Seq<char>| #[trigger] entry_in(r, g, k) == (if g == group
            && k == key {
            Some(value)
        } else {
            entry_in(groups, g, k)
        }) by {
            assert(entry_in(f, g, k) == (if g == group && k == key {
                Some(value)
            } else {
                entry_in(front, g, k)
            }));
        }
    }
}

/// The keyfile's groups, and the keys in each, come in strictly increasing order,
/// so none is written twice.
pub proof fn law_keyfile_sorted(entries: Seq<EntryView>)
    ensures
        sorted_groups(grouped(entries)),
    decreases entries.len(),
{
    if entries.len() > 0 {
        law_keyfile_sorted(entries.drop_last());
        let e = entries.last();
        lemma_with_entry(grouped(entries.drop_last()), group_of(e.schema), e.key, e.value);
    }
}

/// The keyfile holds, for each schema and key, the value of the last entry for
/// them, and nothing else: entries appended later override earlier ones and leave
/// all others as they were.
pub proof fn law_last_entry_wins(entries: Seq<EntryView>, group: Seq<char>, key: Seq<char>)
    ensures
        entry_in(grouped(entries), group, key) == last_written(entries, group, key),
    decreases entries.len(),
{
    if entries.len() > 0 {
        let front = entries.drop_last();
        law_last_entry_wins(front, group, key);
        law_keyfile_sorted(front);
        let e = entries.last();
        lemma_with_entry(grouped(front), group_of(e.schema), e.key, e.value);
        assert(entry_in(with_entry(grouped(front), group_of(e.schema), e.key, e.value), group, key)
            == entry_in(grouped(entries), group, key));
    }
}

proof fn lemma_key_beyond_last(pairs: Pairs, key: Seq<char>)
    requires
        sorted_pairs(pairs),
        pairs.len() > 0 ==> text::precedes(pairs.last().0, key),
    ensures
        value_in(pairs, key) is None,
    decreases pairs.len(),
{
    if pairs.len() > 0 {
        text::lemma_precedes_irreflexive(key);
        let front = pairs.drop_last();
        lemma_front_pairs_sorted(pairs);
        if front.len() > 0 {
            assert(front.last() == pairs[pairs.len() - 2]);
            text::lemma_precedes_transitive(front.last().0, pairs.last().0, key);
        }
        lemma_key_beyond_last(front, key);
    }
}

proof fn lemma_front_pairs_sorted(pairs: Pairs)
    requires
        sorted_pairs(pairs),
        pairs.len() > 0,
    ensures
        sorted_pairs(pairs.drop_last()),
        pairs.len() > 1 ==> text::precedes(pairs.drop_last().last().0, pairs.last().0),
{
    let front = pairs.drop_last();
    assert forall|i: int, j: int| 0 <= i < j < front.len() implies text::precedes(
        (#[trigger] front[i]).0,
        (#[trigger] front[j]).0,
    ) by {
        assert(front[i] == pairs[i]);
        assert(front[j] == pairs[j]);
    }
    if pairs.len() > 1 {
        assert(front.last() == pairs[pairs.len() - 2]);
    }
}

proof fn lemma_values_determine_pairs(a: Pairs, b: Pairs)
    requires
        sorted_pairs(a),
        sorted_pairs(b),
        forall|k: Seq<char>| #[trigger] value_in(a, k) == value_in(b, k),
    ensures
        a == b,
    decreases a.len(),
{
    if a.len() == 0 {
        if b.len() > 0 {
            assert(value_in(a, b.last().0) == value_in(b, b.last().0));
        }
        assert(a =~= b);
    } else {
        let ka = a.last().0;
        assert(value_in(a, ka) == value_in(b, ka));
        assert(b.len() > 0);
        let kb = b.last().0;
        assert(value_in(a, kb) == value_in(b, kb));
        if text::precedes(ka, kb) {
            lemma_key_beyond_last(a, kb);
        }
        if text::precedes(kb, ka) {
            lemma_key_beyond_last(b, ka);
        }
        text::lemma_precedes_total(ka, kb);
        let (fa, fb) = (a.drop_last(), b.drop_last());
        lemma_front_pairs_sorted(a);
        lemma_front_pairs_sorted(b);
        lemma_key_beyond_last(fa, ka);
        lemma_key_beyond_last(fb, ka);
        assert forall|k: Seq<char>| #[trigger] value_in(fa, k) == value_in(fb, k) by {
            if k != ka {
                assert(value_in(a, k) == value_in(b, k));
            }
        }
        lemma_values_determine_pairs(fa, fb);
        assert(a =~= fa.push(a.last()));
        assert(b =~= fb.push(b.last()));
    }
}

spec fn filled(groups: Groups) -> bool {
    forall|i: int| 0 <= i < groups.len() ==> (#[trigger] groups[i]).1.len() > 0
}

proof fn lemma_entries_determine_groups(a: Groups, b: Groups)
    requires
        sorted_groups(a),
        sorted_groups(b),
        filled(a),
        filled(b),
        forall|g: Seq<char>, k: Seq<char>| #[trigger] entry_in(a, g, k) == entry_in(b, g, k),
    ensures
        a == b,
    decreases a.len(),
{
    if b.len() > 0 {
        assert(b[b.len() - 1].1.len() > 0);
        assert(entry_in(a, b.last().0, b.last().1.last().0) == entry_in(
            b,
            b.last().0,
            b.last().1.last().0,
        ));
    }
    if a.len() == 0 {
        assert(a =~= b);
    } else {
        assert(a[a.len() - 1].1.len() > 0);
        let ga = a.last().0;
        let ka = a.last().1.last().0;
        assert(entry_in(a, ga, ka) == entry_in(b, ga, ka));
        assert(b.len() > 0);
        let gb = b.last().0;
        let kb = b.last().1.last().0;
        if text::precedes(ga, gb) {
            lemma_group_beyond_last(a, gb, kb);
        }
        if text::precedes(gb, ga) {
            lemma_group_beyond_last(b, ga, ka);
        }
        text::lemma_precedes_total(ga, gb);
        assert forall|k: Seq<char>| #[trigger] value_in(a.last().1, k) == value_in(
            b.last().1,
            k,
        ) by {
            assert(entry_in(a, ga, k) == entry_in(b, ga, k));
        }
        assert(sorted_pairs(a[a.len() - 1].1) && sorted_pairs(b[b.len() - 1].1));
        lemma_values_determine_pairs(a.last().1, b.last().1);
        let (fa, fb) = (a.drop_last(), b.drop_last());
        lemma_front_sorted(a);
        lemma_front_sorted(b);
        assert(filled(fa)) by {
            assert forall|i: int| 0 <= i < fa.len() implies (#[trigger] fa[i]).1.len() > 0 by {
                assert(fa[i] == a[i]);
            }
        }
        assert(filled(fb)) by {
            assert forall|i: int| 0 <= i < fb.len() implies (#[trigger] fb[i]).1.len() > 0 by {
                assert(fb[i] == b[i]);
            }
        }
        assert(fa.len() > 0 ==> fa.last() == a[a.len() - 2]);
        assert(fb.len() > 0 ==> fb.last() == b[b.len() - 2]);
        assert forall|g: Seq<char>, k: Seq<char>| #[trigger]
            entry_in(fa, g, k) == entry_in(fb, g, k) by {
            if g == ga {
                lemma_group_beyond_last(fa, ga, k);
                lemma_group_beyond_last(fb, ga, k);
            } else {
                assert(entry_in(a, g, k) == entry_in(b, g, k));
            }
        }
        lemma_entries_determine_groups(fa, fb);
        assert(a =~= fa.push(a.last()));
        assert(b =~= fb.push(b.last()));
    }
}

proof fn lemma_with_entry_filled(groups: Groups, group: Seq<char>, key: Seq<char>, value: Seq<char>)
    requires
        sorted_groups(groups),
        filled(groups),
    ensures
        filled(with_entry(groups, group, key, value)),
        with_entry(groups, group, key, value).len() > 0,
    decreases groups.len(),
{
    let r = with_entry(groups, group, key, value);
    if groups.len() == 0 || text::precedes(groups.last().0, group) {
        assert forall|i: int| 0 <= i < r.len() implies (#[trigger] r[i]).1.len() > 0 by {
            if i < groups.len() {
                assert(r[i] == groups[i]);
            }
        }
    } else if groups.last().0 == group {
        assert(sorted_pairs(groups[groups.len() - 1].1));
        lemma_with_value(groups.last().1, key, value);
        assert forall|i: int| 0 <= i < r.len() implies (#[trigger] r[i]).1.len() > 0 by {
            if i < groups.len() - 1 {
                assert(r[i] == groups[i]);
            }
        }
    } else {
        let front = groups.drop_last();
        lemma_front_sorted(groups);
        assert forall|i: int| 0 <= i < front.len() implies (#[trigger] front[i]).1.len() > 0 by {
            assert(front[i] == groups[i]);
        }
        lemma_with_entry_filled(front, group, key, value);
        let f = with_entry(front, group, key, value);
        assert forall|i: int| 0 <= i < r.len() implies (#[trigger] r[i]).1.len() > 0 by {
            if i < f.len() {
                assert(r[i] == f[i]);
            } else {
                assert(r[i] == groups[groups.len() - 1]);
            }
        }
    }
}

proof fn lemma_grouped_filled(entries: Seq<EntryView>)
    ensures
        filled(grouped(entries)),
        entries.len() > 0 ==> grouped(entries).len() > 0,
    decreases entries.len(),
{
    if entries.len() > 0 {
        let front = entries.drop_last();
        lemma_grouped_filled(front);
        law_keyfile_sorted(front);
        let e = entries.last();
        lemma_with_entry_filled(grouped(front), group_of(e.schema), e.key, e.value);
    }
}

/// The keyfile depends only on the last value of each key: lists of entries that agree on
/// these, in whatever order and with whatever earlier values, give the same text.
pub proof fn law_last_values_decide(a: Seq<EntryView>, b: Seq<EntryView>)
    requires
        forall|g: Seq<char>, k: Seq<char>| #[trigger]
            last_written(a, g, k) == last_written(b, g, k),
    ensures
        groups_text(grouped(a)) == groups_text(grouped(b)),
{
    law_keyfile_sorted(a);
    law_keyfile_sorted(b);
    lemma_grouped_filled(a);
    lemma_grouped_filled(b);
    assert forall|g: Seq<char>, k: Seq<char>| #[trigger]
        entry_in(grouped(a), g, k) == entry_in(grouped(b), g, k) by {
        law_last_entry_wins(a, g, k);
        law_last_entry_wins(b, g, k);
        assert(last_written(a, g, k) == last_written(b, g, k));
    }
    lemma_entries_determine_groups(grouped(a), grouped(b));
}

/// The keyfile is empty if and only if there is no entry.
pub proof fn law_only_no_entries_give_nothing(entries: Seq<EntryView>)
    ensures
        groups_text(grouped(entries)).len() == 0 <==> entries.len() == 0,
{
    reveal_strlit("[");
    lemma_grouped_filled(entries);
}

// ── Reading keyfiles ────────────────────────────────────────────────────────

/// What was read of a keyfile: the group that the next line belongs to, and the values so
/// far by group and key.
#[verifier::ext_equal]
pub struct Reading {
    pub group: Option<Seq<char>>,
    pub values: Map<(Seq<char>, Seq<char>), Seq<char>>,
}

impl Reading {
    /// The value of `key` in `group`.
    pub open spec fn value(self, group: Seq<char>, key: Seq<char>) -> Option<Seq<char>> {
        if self.values.dom().contains((group, key)) {
            Some(self.values[(group, key)])
        } else {
            None
        }
    }
}

/// Reads one more line: a group's name in brackets, a key and its value around the first
/// equals sign, both as they stand, or a line that says nothing. The later of two values for
/// a key counts.
pub open spec fn read_line(r: Reading, line: Seq<char>) -> Reading {
    if line.len() == 0 || line[0] == '#' {
        r
    } else if line.len() > 1 && line[0] == '[' && line.last() == ']' {
        Reading { group: Some(line.subrange(1, line.len() - 1)), ..r }
    } else {
        match (r.group, text::split_once(line, '=')) {
            (Some(g), Some((k, v))) => Reading { values: r.values.insert((g, k), v), ..r },
            _ => r,
        }
    }
}

/// Reads lines one after the other.
pub open spec fn read_lines(r: Reading, lines: Seq<Seq<char>>) -> Reading
    decreases lines.len(),
{
    if lines.len() == 0 {
        r
    } else {
        read_line(read_lines(r, lines.drop_last()), lines.last())
    }
}

/// Reads the lines of a text.
pub open spec fn read_on(r: Reading, text: Seq<char>) -> Reading {
    read_lines(r, text::pieces(text, '\n'))
}

/// What a keyfile says.
pub open spec fn reading(text: Seq<char>) -> Reading {
    read_on(Reading { group: None, values: Map::empty() }, text)
}

/// Whether a pair can stand on a line of a keyfile.
pub open spec fn plain_pair(key: Seq<char>, value: Seq<char>) -> bool {
    &&& key.len() > 0
    &&& key[0] != '#'
    &&& key[0] != '['
    &&& !key.contains('=')
    &&& !key.contains('\n')
    &&& !value.contains('\n')
}

/// Whether an entry can stand in a keyfile.
pub open spec fn plain_entry(e: EntryView) -> bool {
    !e.schema.contains('\n') && plain_pair(e.key, e.value)
}

spec fn closed(text: Seq<char>) -> bool {
    text.len() == 0 || text.last() == '\n'
}

proof fn lemma_read_lines_joined(r: Reading, a: Seq<Seq<char>>, b: Seq<Seq<char>>)
    ensures
        read_lines(r, a + b) == read_lines(read_lines(r, a), b),
    decreases b.len(),
{
    if b.len() == 0 {
        assert(a + b =~= a);
    } else {
        lemma_read_lines_joined(r, a, b.drop_last());
        assert((a + b).drop_last() =~= a + b.drop_last());
        assert((a + b).last() == b.last());
    }
}

proof fn lemma_newline_says_nothing(r: Reading, text: Seq<char>)
    ensures
        read_on(r, text.push('\n')) == read_on(r, text),
{
    text::lemma_pieces_separator(text, '\n');
    let p = text::pieces(text, '\n');
    assert(p.push(Seq::empty()).drop_last() =~= p);
}

proof fn lemma_read_on_joined(r: Reading, x: Seq<char>, y: Seq<char>)
    requires
        closed(x),
    ensures
        read_on(r, x + y) == read_on(read_on(r, x), y),
{
    if x.len() == 0 {
        assert(x + y =~= y);
        let nothing: Seq<Seq<char>> = seq![Seq::empty()];
        assert(text::pieces(x, '\n') =~= nothing);
        assert(nothing.drop_last() =~= Seq::empty());
        reveal_with_fuel(read_lines, 2);
    } else {
        let a = x.drop_last();
        assert(a.push('\n') =~= x);
        text::lemma_pieces_joined(a, y, '\n');
        lemma_read_lines_joined(r, text::pieces(a, '\n'), text::pieces(y, '\n'));
        lemma_newline_says_nothing(r, a);
    }
}

proof fn lemma_read_whole_line(r: Reading, line: Seq<char>)
    requires
        !line.contains('\n'),
    ensures
        read_on(r, line.push('\n')) == read_line(r, line),
{
    lemma_newline_says_nothing(r, line);
    let none = Seq::<char>::empty();
    text::lemma_pieces_extend(none, line, '\n');
    assert(none + line =~= line);
    let single: Seq<Seq<char>> = seq![line];
    assert(text::pieces(line, '\n') =~= single);
    assert(single.drop_last() =~= Seq::empty());
    reveal_with_fuel(read_lines, 2);
}

proof fn lemma_read_header(r: Reading, group: Seq<char>)
    requires
        !group.contains('\n'),
    ensures
        read_on(r, "["@ + group + "]\n"@) == (Reading { group: Some(group), ..r }),
        closed("["@ + group + "]\n"@),
{
    reveal_strlit("[");
    reveal_strlit("]\n");
    let line = "["@ + group + seq![']'];
    assert("["@ + group + "]\n"@ =~= line.push('\n'));
    assert forall|i: int| 0 <= i < line.len() implies line[i] != '\n' by {
        if 0 < i < line.len() - 1 {
            assert(group.contains(group[i - 1]));
        }
    }
    lemma_read_whole_line(r, line);
    assert(line.subrange(1, line.len() - 1) =~= group);
}

proof fn lemma_read_pair(r: Reading, group: Seq<char>, key: Seq<char>, value: Seq<char>)
    requires
        r.group == Some(group),
        plain_pair(key, value),
    ensures
        read_on(r, key + "="@ + value + "\n"@) == (Reading {
            values: r.values.insert((group, key), value),
            ..r
        }),
{
    reveal_strlit("=");
    reveal_strlit("\n");
    let line = key + "="@ + value;
    assert(key + "="@ + value + "\n"@ =~= line.push('\n'));
    assert forall|i: int| 0 <= i < line.len() implies line[i] != '\n' by {
        if i < key.len() {
            assert(key.contains(key[i]));
        } else if i > key.len() {
            assert(value.contains(value[i - key.len() - 1]));
        }
    }
    lemma_read_whole_line(r, line);
    assert forall|i: int| 0 <= i < key.len() implies line[i] != '=' by {
        assert(key.contains(key[i]));
    }
    text::lemma_first_index_is(line, '=', key.len() as int);
    assert(line.take(key.len() as int) =~= key);
    assert(line.skip(key.len() as int + 1) =~= value);
    assert(line[0] == key[0]);
}

/// Setting one value keeps every other: what is read of an extended keyfile is what was
/// read of it before, with the new entry's value for its key.
pub proof fn law_extension_sets_one_value(existing: Seq<char>, entry: EntryView)
    requires
        plain_entry(entry),
    ensures
        reading(extended(existing, entry)).values == reading(existing).values.insert(
            (group_of(entry.schema), entry.key),
            entry.value,
        ),
{
    reveal_strlit("\n");
    let start = Reading { group: None, values: Map::empty() };
    let g = group_of(entry.schema);
    lemma_group_is_plain(entry.schema);
    let header = "["@ + g + "]\n"@;
    let line = entry.key + "="@ + entry.value + "\n"@;
    let front = if existing.len() == 0 {
        existing
    } else {
        existing + "\n"@
    };
    if existing.len() > 0 {
        assert(front =~= existing.push('\n'));
        lemma_newline_says_nothing(start, existing);
    }
    let one: Seq<EntryView> = seq![entry];
    assert(one.drop_last() =~= Seq::empty());
    reveal_with_fuel(grouped, 2);
    let pairs: Pairs = seq![(entry.key, entry.value)];
    let groups: Groups = seq![(g, pairs)];
    assert(grouped(one) =~= groups);
    assert(pairs.drop_last() =~= Seq::empty());
    assert(groups.drop_last() =~= Seq::empty());
    reveal_with_fuel(pairs_text, 2);
    reveal_with_fuel(groups_text, 2);
    assert(groups_text(groups) =~= header + line);
    assert(extended(existing, entry) =~= front + (header + line));
    let r = read_on(start, front);
    lemma_read_on_joined(start, front, header + line);
    lemma_read_header(r, g);
    lemma_read_on_joined(r, header, line);
    lemma_read_pair(Reading { group: Some(g), ..r }, g, entry.key, entry.value);
}

proof fn lemma_group_is_plain(schema: Seq<char>)
    requires
        !schema.contains('\n'),
    ensures
        !group_of(schema).contains('\n'),
{
    let g = group_of(schema);
    assert forall|i: int| 0 <= i < g.len() implies g[i] != '\n' by {
        assert(schema.contains(schema[i]));
    }
}

spec fn plain_pairs(pairs: Pairs) -> bool {
    forall|i: int|
        0 <= i < pairs.len() ==> plain_pair((#[trigger] pairs[i]).0, pairs[i].1)
}

spec fn plain_groups(groups: Groups) -> bool {
    forall|i: int|
        0 <= i < groups.len() ==> !(#[trigger] groups[i]).0.contains('\n') && plain_pairs(
            groups[i].1,
        )
}

proof fn lemma_with_value_plain(pairs: Pairs, key: Seq<char>, value: Seq<char>)
    requires
        plain_pairs(pairs),
        plain_pair(key, value),
    ensures
        plain_pairs(with_value(pairs, key, value)),
    decreases pairs.len(),
{
    let r = with_value(pairs, key, value);
    let front = pairs.drop_last();
    if pairs.len() > 0 {
        assert forall|i: int| 0 <= i < front.len() implies plain_pair(
            (#[trigger] front[i]).0,
            front[i].1,
        ) by {
            assert(front[i] == pairs[i]);
        }
    }
    if pairs.len() == 0 || text::precedes(pairs.last().0, key) {
        assert forall|i: int| 0 <= i < r.len() implies plain_pair((#[trigger] r[i]).0, r[i].1) by {
            if i < pairs.len() {
                assert(r[i] == pairs[i]);
            }
        }
    } else if pairs.last().0 == key {
        assert forall|i: int| 0 <= i < r.len() implies plain_pair((#[trigger] r[i]).0, r[i].1) by {
            if i < front.len() {
                assert(r[i] == pairs[i]);
            }
        }
    } else {
        lemma_with_value_plain(front, key, value);
        let f = with_value(front, key, value);
        assert forall|i: int| 0 <= i < r.len() implies plain_pair((#[trigger] r[i]).0, r[i].1) by {
            if i < f.len() {
                assert(r[i] == f[i]);
            } else {
                assert(r[i] == pairs[pairs.len() - 1]);
            }
        }
    }
}

proof fn lemma_with_entry_plain(groups: Groups, group: Seq<char>, key: Seq<char>, value: Seq<char>)
    requires
        plain_groups(groups),
        !group.contains('\n'),
        plain_pair(key, value),
    ensures
        plain_groups(with_entry(groups, group, key, value)),
    decreases groups.len(),
{
    let r = with_entry(groups, group, key, value);
    let front = groups.drop_last();
    if groups.len() > 0 {
        assert(plain_groups(front)) by {
            assert forall|i: int| 0 <= i < front.len() implies !(
            #[trigger] front[i]).0.contains('\n') && plain_pairs(front[i].1) by {
                assert(front[i] == groups[i]);
            }
        }
        assert(plain_pairs(groups[groups.len() - 1].1));
    }
    if groups.len() == 0 || text::precedes(groups.last().0, group) {
        assert forall|i: int| 0 <= i < r.len() implies !(#[trigger] r[i]).0.contains('\n')
            && plain_pairs(r[i].1) by {
            if i < groups.len() {
                assert(r[i] == groups[i]);
            }
        }
    } else if groups.last().0 == group {
        lemma_with_value_plain(groups.last().1, key, value);
        assert forall|i: int| 0 <= i < r.len() implies !(#[trigger] r[i]).0.contains('\n')
            && plain_pairs(r[i].1) by {
            if i < front.len() {
                assert(r[i] == groups[i]);
            }
        }
    } else {
        lemma_with_entry_plain(front, group, key, value);
        let f = with_entry(front, group, key, value);
        assert forall|i: int| 0 <= i < r.len() implies !(#[trigger] r[i]).0.contains('\n')
            && plain_pairs(r[i].1) by {
            if i < f.len() {
                assert(r[i] == f[i]);
            } else {
                assert(r[i] == groups[groups.len() - 1]);
            }
        }
    }
}

proof fn lemma_grouped_plain(entries: Seq<EntryView>)
    requires
        forall|i: int| 0 <= i < entries.len() ==> plain_entry(#[trigger] entries[i]),
    ensures
        plain_groups(grouped(entries)),
    decreases entries.len(),
{
    if entries.len() > 0 {
        let front = entries.drop_last();
        assert forall|i: int| 0 <= i < front.len() implies plain_entry(#[trigger] front[i]) by {
            assert(front[i] == entries[i]);
        }
        lemma_grouped_plain(front);
        let e = entries.last();
        assert(plain_entry(entries[entries.len() - 1]));
        lemma_group_is_plain(e.schema);
        lemma_with_entry_plain(grouped(front), group_of(e.schema), e.key, e.value);
    }
}

proof fn lemma_read_pairs(r: Reading, group: Seq<char>, pairs: Pairs)
    requires
        r.group == Some(group),
        plain_pairs(pairs),
    ensures
        closed(pairs_text(pairs)),
        read_on(r, pairs_text(pairs)).group == r.group,
        forall|g: Seq<char>, k: Seq<char>| #[trigger]
            read_on(r, pairs_text(pairs)).value(g, k) == (if g == group && value_in(
                pairs,
                k,
            ) is Some {
                value_in(pairs, k)
            } else {
                r.value(g, k)
            }),
    decreases pairs.len(),
{
    reveal_strlit("\n");
    if pairs.len() == 0 {
        lemma_read_on_joined(r, Seq::empty(), Seq::empty());
        let nothing: Seq<Seq<char>> = seq![Seq::empty()];
        assert(text::pieces(pairs_text(pairs), '\n') =~= nothing);
        assert(nothing.drop_last() =~= Seq::empty());
        reveal_with_fuel(read_lines, 2);
    } else {
        let front = pairs.drop_last();
        let (k, v) = pairs.last();
        assert forall|i: int| 0 <= i < front.len() implies plain_pair(
            (#[trigger] front[i]).0,
            front[i].1,
        ) by {
            assert(front[i] == pairs[i]);
        }
        assert(plain_pair(pairs[pairs.len() - 1].0, pairs[pairs.len() - 1].1));
        lemma_read_pairs(r, group, front);
        let line = k + "="@ + v + "\n"@;
        assert(pairs_text(pairs) =~= pairs_text(front) + line);
        lemma_read_on_joined(r, pairs_text(front), line);
        let before = read_on(r, pairs_text(front));
        lemma_read_pair(before, group, k, v);
        let after = read_on(r, pairs_text(pairs));
        assert forall|g: Seq<char>, q: Seq<char>| #[trigger]
            after.value(g, q) == (if g == group && value_in(pairs, q) is Some {
                value_in(pairs, q)
            } else {
                r.value(g, q)
            }) by {
            assert(before.value(g, q) == (if g == group && value_in(front, q) is Some {
                value_in(front, q)
            } else {
                r.value(g, q)
            }));
        }
    }
}

proof fn lemma_read_groups(groups: Groups)
    requires
        sorted_groups(groups),
        plain_groups(groups),
    ensures
        closed(groups_text(groups)),
        forall|g: Seq<char>, k: Seq<char>| #[trigger]
            reading(groups_text(groups)).value(g, k) == entry_in(groups, g, k),
    decreases groups.len(),
{
    reveal_strlit("\n");
    reveal_strlit("]\n");
    let start = Reading { group: None, values: Map::empty() };
    if groups.len() == 0 {
        let nothing: Seq<Seq<char>> = seq![Seq::empty()];
        assert(text::pieces(groups_text(groups), '\n') =~= nothing);
        assert(nothing.drop_last() =~= Seq::empty());
        reveal_with_fuel(read_lines, 2);
    } else {
        let front = groups.drop_last();
        let (group, pairs) = groups.last();
        assert forall|i: int| 0 <= i < front.len() implies !(
        #[trigger] front[i]).0.contains('\n') && plain_pairs(front[i].1) by {
            assert(front[i] == groups[i]);
        }
        assert(!groups[groups.len() - 1].0.contains('\n') && plain_pairs(
            groups[groups.len() - 1].1,
        ));
        lemma_front_sorted(groups);
        lemma_read_groups(front);
        let f = groups_text(front);
        let separated = if groups.len() > 1 {
            f + "\n"@
        } else {
            f
        };
        if groups.len() > 1 {
            assert(separated =~= f.push('\n'));
            lemma_newline_says_nothing(start, f);
        }
        let header = "["@ + group + "]\n"@;
        let body = header + pairs_text(pairs);
        assert(groups_text(groups) =~= separated + body);
        let r = reading(f);
        lemma_read_on_joined(start, separated, body);
        lemma_read_header(r, group);
        lemma_read_on_joined(r, header, pairs_text(pairs));
        let under = Reading { group: Some(group), ..r };
        lemma_read_pairs(under, group, pairs);
        if pairs.len() == 0 {
            assert(groups_text(groups).last() == header.last());
        } else {
            assert(groups_text(groups).last() == pairs_text(pairs).last());
        }
        let after = reading(groups_text(groups));
        assert(front.len() > 0 ==> front.last() == groups[groups.len() - 2]);
        assert forall|g: Seq<char>, k: Seq<char>| #[trigger]
            after.value(g, k) == entry_in(groups, g, k) by {
            assert(read_on(under, pairs_text(pairs)).value(g, k) == (if g == group && value_in(
                pairs,
                k,
            ) is Some {
                value_in(pairs, k)
            } else {
                under.value(g, k)
            }));
            assert(r.value(g, k) == entry_in(front, g, k));
            if g == group {
                lemma_group_beyond_last(front, group, k);
            }
        }
    }
}

/// Who reads the keyfile made of entries finds, for each group and key, the value of the
/// last entry for them, and nothing else.
pub proof fn law_keyfile_reads_back(entries: Seq<EntryView>, group: Seq<char>, key: Seq<char>)
    requires
        forall|i: int| 0 <= i < entries.len() ==> plain_entry(#[trigger] entries[i]),
    ensures
        reading(groups_text(grouped(entries))).value(group, key) == last_written(
            entries,
            group,
            key,
        ),
{
    law_keyfile_sorted(entries);
    lemma_grouped_plain(entries);
    lemma_read_groups(grouped(entries));
    law_last_entry_wins(entries, group, key);
}

/// The group of a schema is its id with a slash for each dot and nothing else changed, so
/// that ids without slashes have groups of their own.
pub proof fn law_schema_names_its_group(schema: Seq<char>, other: Seq<char>)
    ensures
        group_of(schema).len() == schema.len(),
        forall|i: int|
            0 <= i < schema.len() ==> #[trigger] group_of(schema)[i] == (if schema[i] == '.' {
                '/'
            } else {
                schema[i]
            }),
        group_of(schema) == group_of(other) && !schema.contains('/') && !other.contains('/')
            ==> schema == other,
{
    if group_of(schema) == group_of(other) && !schema.contains('/') && !other.contains('/') {
        assert(group_of(other).len() == other.len());
        assert forall|i: int| 0 <= i < schema.len() implies schema[i] == other[i] by {
            assert(group_of(schema)[i] == group_of(other)[i]);
            assert(schema.contains(schema[i]));
            assert(other.contains(other[i]));
        }
        assert(schema =~= other);
    }
}

/// The keyfile lies in the session's configuration directory, where the toolkit looks for it.
pub proof fn law_keyfile_lies_in_the_session(runtime_dir: Seq<char>)
    requires
        runtime_dir.len() > 0,
        runtime_dir.last() != '/',
    ensures
        keyfile_location(runtime_dir) == runtime_dir + "/config/glib-2.0/settings/keyfile"@,
{
    reveal_strlit("config");
    reveal_strlit("/");
    reveal_strlit("glib-2.0/settings/keyfile");
    reveal_strlit("/config/glib-2.0/settings/keyfile");
    let dir = text::joined_path(runtime_dir, "config"@);
    assert(dir.last() == 'g');
    assert("/config/glib-2.0/settings/keyfile"@ =~= "/"@ + "config"@ + "/"@
        + "glib-2.0/settings/keyfile"@);
    assert(keyfile_location(runtime_dir) =~= runtime_dir + "/config/glib-2.0/settings/keyfile"@);
}

/// Whatever the entry, an extension only adds to a keyfile: what was there stays in front,
/// and a line break, the entry's group in brackets, and the key and the value around an
/// equals sign follow, each on a line.
pub proof fn law_extension_is_appended(existing: Seq<char>, entry: EntryView)
    ensures
        extended(Seq::empty(), entry) == "["@ + group_of(entry.schema) + "]\n"@ + entry.key + "="@
            + entry.value + "\n"@,
        existing.len() > 0 ==> extended(existing, entry) == existing.push('\n') + extended(
            Seq::empty(),
            entry,
        ),
{
    reveal_strlit("\n");
    let g = group_of(entry.schema);
    let one: Seq<EntryView> = seq![entry];
    assert(one.drop_last() =~= Seq::empty());
    reveal_with_fuel(grouped, 2);
    let pairs: Pairs = seq![(entry.key, entry.value)];
    let groups: Groups = seq![(g, pairs)];
    assert(grouped(one) =~= groups);
    assert(pairs.drop_last() =~= Seq::empty());
    assert(groups.drop_last() =~= Seq::empty());
    reveal_with_fuel(pairs_text, 2);
    reveal_with_fuel(groups_text, 2);
    assert(extended(Seq::empty(), entry) =~= "["@ + g + "]\n"@ + entry.key + "="@ + entry.value
        + "\n"@);
    if existing.len() > 0 {
        assert(extended(existing, entry) =~= existing.push('\n') + extended(Seq::empty(), entry));
    }
}

/// A keyfile is written group by group, a blank line between two, each under its name in
/// brackets and pair by pair, each on a line with an equals sign between key and value.
pub proof fn law_keyfile_is_written_in_lines(
    groups: Groups,
    group: Seq<char>,
    pairs: Pairs,
    key: Seq<char>,
    value: Seq<char>,
)
    ensures
        pairs_text(Seq::empty()).len() == 0,
        pairs_text(pairs.push((key, value))) == pairs_text(pairs) + key + "="@ + value + "\n"@,
        groups_text(Seq::empty()).len() == 0,
        groups.len() == 0 ==> groups_text(groups.push((group, pairs))) == "["@ + group + "]\n"@
            + pairs_text(pairs),
        groups.len() > 0 ==> groups_text(groups.push((group, pairs))) == groups_text(groups)
            + "\n["@ + group + "]\n"@ + pairs_text(pairs),
{
    reveal_strlit("\n");
    reveal_strlit("[");
    reveal_strlit("\n[");
    assert(pairs.push((key, value)).drop_last() =~= pairs);
    let more = groups.push((group, pairs));
    assert(more.drop_last() =~= groups);
    if groups.len() > 0 {
        assert(groups_text(more) =~= groups_text(groups) + "\n["@ + group + "]\n"@ + pairs_text(
            pairs,
        ));
    } else {
        assert(groups_text(groups) =~= Seq::empty());
        assert(groups_text(more) =~= "["@ + group + "]\n"@ + pairs_text(pairs));
    }
}

/// The value of an entry: each part is the field of that name.
pub proof fn law_entry_values_are_their_fields(e: GSettingEntry)
    ensures
        e@.schema == e.schema@,
        e@.key == e.key@,
        e@.value == e.value@,
{
}

/// The name of the backend that keeps settings in a file.
pub proof fn law_backend_name()
    ensures
        KEYFILE_BACKEND@ == "keyfile"@,
{
}

} // verus!
