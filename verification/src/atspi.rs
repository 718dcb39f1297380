//! Accessibility vocabulary: role and attribute names, states, escaping, and how
//! replies of the accessibility bus are classified.
use crate::error::{self, Error, ErrorView};
use crate::geometry::Rect;
use crate::text::{
    self, chars_of, contains_text, decimal_u64, is_white_space, same_text, to_lowercase_char,
    to_uppercase_char,
};
use vstd::prelude::*;
use vstd::string::*;

verus! {

// ── Character classes ───────────────────────────────────────────────────────

/// An ASCII letter.
pub open spec fn letter(c: char) -> bool {
    ('a' <= c && c <= 'z') || ('A' <= c && c <= 'Z')
}

/// An ASCII letter or digit.
pub open spec fn alphanumeric(c: char) -> bool {
    letter(c) || text::is_digit(c)
}

fn is_letter(c: char) -> (r: bool)
    ensures
        r == letter(c),
{
    ('a' <= c && c <= 'z') || ('A' <= c && c <= 'Z')
}

fn is_alphanumeric(c: char) -> (r: bool)
    ensures
        r == alphanumeric(c),
{
    is_letter(c) || ('0' <= c && c <= '9')
}

// ── Role names ──────────────────────────────────────────────────────────────

/// The words of `role` run together, the first character of each in upper case
/// and the others in lower case.
pub open spec fn pascal(role: Seq<char>) -> Seq<char>
    decreases role.len(),
{
    if role.len() == 0 {
        Seq::empty()
    } else {
        let front = pascal(role.drop_last());
        let c = role.last();
        if text::white_space(c) {
            front
        } else if role.len() == 1 || text::white_space(role[role.len() - 2]) {
            front + text::upper_of(c)
        } else {
            front + text::lower_of(c)
        }
    }
}

/// Whether `s` can name an XML element: a letter or underscore, then letters,
/// digits, underscores and hyphens.
pub open spec fn tag_shaped(s: Seq<char>) -> bool {
    &&& s.len() > 0
    &&& letter(s[0]) || s[0] == '_'
    &&& forall|i: int|
        1 <= i < s.len() ==> alphanumeric(#[trigger] s[i]) || s[i] == '_' || s[i] == '-'
}

/// The element name of a role, where it has one.
pub open spec fn element_name(role: Seq<char>) -> Option<Seq<char>> {
    if tag_shaped(pascal(role)) {
        Some(pascal(role))
    } else {
        None
    }
}

/// The tag a role is emitted under: its element name, or `Node`.
pub open spec fn tag(role: Seq<char>) -> Seq<char> {
    match element_name(role) {
        Some(n) => n,
        None => "Node"@,
    }
}

/// Whether `cs` can name an XML element.
pub fn is_tag_shaped(cs: &Vec<char>) -> (r: bool)
    ensures
        r == tag_shaped(cs@),
{
    if cs.len() == 0 {
        return false;
    }
    if !(is_letter(cs[0]) || cs[0] == '_') {
        return false;
    }
    let mut i: usize = 1;
    while i < cs.len()
        invariant
            1 <= i <= cs.len(),
            letter(cs@[0]) || cs@[0] == '_',
            forall|k: int|
                1 <= k < i ==> alphanumeric(#[trigger] cs@[k]) || cs@[k] == '_' || cs@[k] == '-',
        decreases cs.len() - i,
    {
        let c = cs[i];
        if !(is_alphanumeric(c) || c == '_' || c == '-') {
            return false;
        }
        i = i + 1;
    }
    true
}

/// Converts a raw role name like `"push button"` into an element name like
/// `"PushButton"`; `None` where that is no valid element name.
pub fn role_to_element_name(role: &str) -> (r: Option<String>)
    ensures
        match r {
            Some(s) => element_name(role@) == Some(s@),
            None => element_name(role@) is None,
        },
{
    let cs = chars_of(role);
    let mut out = String::new();
    let mut i: usize = 0;
    while i < cs.len()
        invariant
            i <= cs.len(),
            out@ == pascal(cs@.take(i as int)),
        decreases cs.len() - i,
    {
        let c = cs[i];
        let ghost next = cs@.take(i + 1);
        proof {
            assert(next.drop_last() =~= cs@.take(i as int));
            assert(next.last() == c);
            if i > 0 {
                assert(next[next.len() - 2] == cs@[i - 1]);
            }
        }
        if !is_white_space(c) {
            if i == 0 || is_white_space(cs[i - 1]) {
                out.append(to_uppercase_char(c).as_str());
            } else {
                out.append(to_lowercase_char(c).as_str());
            }
        }
        i = i + 1;
    }
    assert(cs@.take(i as int) =~= cs@);
    if is_tag_shaped(&chars_of(out.as_str())) {
        Some(out)
    } else {
        None
    }
}

/// The tag a role is emitted under.
pub fn tag_of_role(role: &str) -> (r: String)
    ensures
        r@ == tag(role@),
{
    match role_to_element_name(role) {
        Some(n) => n,
        None => "Node".to_string(),
    }
}

/// Maps a raw role name to the `(tag, raw role)` pair an element carries.
pub fn element_role_fields(raw: &str) -> (r: (String, Option<String>))
    ensures
        r.0@ == tag(raw@),
        r.1 matches Some(s) && s@ == raw@,
{
    (tag_of_role(raw), Some(raw.to_string()))
}

/// The name that the `atspi` crate's role table holds at an index.
pub uninterp spec fn role_table(index: u32) -> Option<Seq<char>>;

/// Calls `atspi::Role::try_from` and, on a role, `atspi::Role::name`. The table
/// has an entry at each index below 130 and none from there on; the entries
/// themselves are not written out here.
#[verifier::external_body]
fn role_name_at(index: u32) -> (r: Option<String>)
    ensures
        match r {
            Some(s) => role_table(index) == Some(s@),
            None => role_table(index) is None,
        },
        r is Some <==> index < 130,
{
    match ::atspi::Role::try_from(index) {
        Ok(role) => Some(role.name().to_string()),
        Err(_) => None,
    }
}

/// The label of a role index that the table does not hold.
pub open spec fn unknown_role(index: u32) -> Seq<char> {
    "unknown-role-"@ + text::decimal(index as nat)
}

/// The raw role name for a table entry: the entry, or a label with the index.
pub open spec fn raw_role_label(entry: Option<Seq<char>>, index: u32) -> Seq<char> {
    match entry {
        Some(n) => n,
        None => unknown_role(index),
    }
}

/// The display role for a table entry: the entry's element name, the entry itself
/// where it has none, or a label with the index.
pub open spec fn role_label(entry: Option<Seq<char>>, index: u32) -> Seq<char> {
    match entry {
        Some(n) => match element_name(n) {
            Some(e) => e,
            None => n,
        },
        None => unknown_role(index),
    }
}

fn unknown_role_label(index: u32) -> (r: String)
    ensures
        r@ == unknown_role(index),
{
    let mut s = "unknown-role-".to_string();
    s.append(decimal_u64(index as u64).as_str());
    s
}

/// The raw role name for a given table entry.
pub fn label_raw_role(entry: Option<String>, index: u32) -> (r: String)
    ensures
        r@ == raw_role_label(crate::error::optional(entry), index),
{
    match entry {
        Some(n) => n,
        None => unknown_role_label(index),
    }
}

/// The display role for a given table entry.
pub fn label_role(entry: Option<String>, index: u32) -> (r: String)
    ensures
        r@ == role_label(crate::error::optional(entry), index),
{
    match entry {
        Some(n) => match role_to_element_name(n.as_str()) {
            Some(e) => e,
            None => n,
        },
        None => unknown_role_label(index),
    }
}

/// Resolves a role index of the accessibility cache into a display role; an
/// index the role table does not know becomes an `unknown-role-<n>` label.
pub fn cache_role_name(role_idx: u32) -> (r: String)
    ensures
        r@ == role_label(role_table(role_idx), role_idx),
        role_idx >= 130 ==> r@ == unknown_role(role_idx),
{
    label_role(role_name_at(role_idx), role_idx)
}

/// Resolves a role index of the accessibility cache into the raw role name.
pub fn cache_raw_role_name(role_idx: u32) -> (r: String)
    ensures
        r@ == raw_role_label(role_table(role_idx), role_idx),
        role_idx >= 130 ==> r@ == unknown_role(role_idx),
{
    label_raw_role(role_name_at(role_idx), role_idx)
}

// ── Attribute names and values ──────────────────────────────────────────────

/// What stands for `c` in an attribute name.
pub open spec fn attr_char(c: char) -> char {
    if alphanumeric(c) || c == '_' || c == '-' || c == '.' {
        c
    } else {
        '_'
    }
}

/// Whether `s` is a name that the snapshot emits itself and that a toolkit
/// attribute must not take.
pub open spec fn reserved(s: Seq<char>) -> bool {
    s == "name"@ || s == "role"@ || s == "_ref"@
}

/// The attribute name made from a toolkit attribute's key.
pub open spec fn sanitized(key: Seq<char>) -> Option<Seq<char>> {
    let mapped = key.map_values(|c: char| attr_char(c));
    if mapped.len() == 0 {
        None
    } else {
        let started = if letter(mapped[0]) || mapped[0] == '_' {
            mapped
        } else {
            seq!['_'] + mapped
        };
        if reserved(started) {
            Some(seq!['_'] + started)
        } else {
            Some(started)
        }
    }
}

fn underscored(s: &str) -> (r: String)
    ensures
        r@ == seq!['_'] + s@,
{
    let mut out = String::new();
    out.push('_');
    out.append(s);
    assert(out@ =~= seq!['_'] + s@);
    out
}

/// Makes a valid attribute name of a toolkit attribute's key; `None` for an
/// empty key.
pub fn sanitize_attr_key(key: &str) -> (r: Option<String>)
    ensures
        match r {
            Some(s) => sanitized(key@) == Some(s@),
            None => sanitized(key@) is None,
        },
{
    let cs = chars_of(key);
    let ghost mapped = key@.map_values(|c: char| attr_char(c));
    let mut out = String::new();
    let mut i: usize = 0;
    while i < cs.len()
        invariant
            cs@ == key@,
            mapped == key@.map_values(|c: char| attr_char(c)),
            i <= cs.len(),
            out@ == mapped.take(i as int),
        decreases cs.len() - i,
    {
        let c = cs[i];
        if is_alphanumeric(c) || c == '_' || c == '-' || c == '.' {
            out.push(c);
        } else {
            out.push('_');
        }
        assert(out@ =~= mapped.take(i + 1));
        i = i + 1;
    }
    assert(mapped.take(i as int) =~= mapped);
    if cs.len() == 0 {
        return None;
    }
    let first = cs[0];
    let started = if is_letter(first) || first == '_' || !(is_alphanumeric(first) || first == '-'
        || first == '.') {
        out
    } else {
        underscored(out.as_str())
    };
    if same_text(started.as_str(), "name") || same_text(started.as_str(), "role") || same_text(
        started.as_str(),
        "_ref",
    ) {
        Some(underscored(started.as_str()))
    } else {
        Some(started)
    }
}

/// What stands for `c` in an attribute value: the five special characters
/// become entities, control characters other than tab, line feed and carriage
/// return are dropped.
pub open spec fn escaped_char(c: char) -> Seq<char> {
    if c == '<' {
        "&lt;"@
    } else if c == '>' {
        "&gt;"@
    } else if c == '&' {
        "&amp;"@
    } else if c == '"' {
        "&quot;"@
    } else if c == '\'' {
        "&apos;"@
    } else if kept(c) {
        seq![c]
    } else {
        Seq::empty()
    }
}

/// Whether a character survives escaping.
pub open spec fn kept(c: char) -> bool {
    c == '\t' || c == '\n' || c == '\r' || c as u32 >= 0x20
}

/// `s` as an attribute value.
pub open spec fn escaped(s: Seq<char>) -> Seq<char>
    decreases s.len(),
{
    if s.len() == 0 {
        Seq::empty()
    } else {
        escaped(s.drop_last()) + escaped_char(s.last())
    }
}

/// Escapes text for use as an attribute value.
pub fn xml_escape(s: &str) -> (r: String)
    ensures
        r@ == escaped(s@),
{
    let cs = chars_of(s);
    let mut out = String::new();
    let mut i: usize = 0;
    while i < cs.len()
        invariant
            i <= cs.len(),
            out@ == escaped(cs@.take(i as int)),
        decreases cs.len() - i,
    {
        let c = cs[i];
        let ghost before = out@;
        proof {
            assert(cs@.take(i + 1).drop_last() =~= cs@.take(i as int));
            assert(cs@.take(i + 1).last() == c);
        }
        if c == '<' {
            out.append("&lt;");
        } else if c == '>' {
            out.append("&gt;");
        } else if c == '&' {
            out.append("&amp;");
        } else if c == '"' {
            out.append("&quot;");
        } else if c == '\'' {
            out.append("&apos;");
        } else if c == '\t' || c == '\n' || c == '\r' || c as u32 >= 0x20 {
            out.push(c);
        }
        assert(out@ =~= before + escaped_char(c));
        i = i + 1;
    }
    assert(cs@.take(i as int) =~= cs@);
    out
}

// ── States ──────────────────────────────────────────────────────────────────

/// The accessibility states that a snapshot carries.
#[derive(Debug, Clone, Copy, PartialEq, Eq, Structural)]
pub enum State {
    Showing,
    Visible,
    Enabled,
    Sensitive,
    Focused,
    Focusable,
    Selected,
    Selectable,
    Checked,
    Checkable,
    Active,
    Editable,
    Expandable,
    Expanded,
    Collapsed,
    Pressed,
    Modal,
}

impl State {
    /// The lower-case name of the state, which is also its attribute name.
    pub open spec fn attr(self) -> Seq<char> {
        match self {
            State::Showing => "showing"@,
            State::Visible => "visible"@,
            State::Enabled => "enabled"@,
            State::Sensitive => "sensitive"@,
            State::Focused => "focused"@,
            State::Focusable => "focusable"@,
            State::Selected => "selected"@,
            State::Selectable => "selectable"@,
            State::Checked => "checked"@,
            State::Checkable => "checkable"@,
            State::Active => "active"@,
            State::Editable => "editable"@,
            State::Expandable => "expandable"@,
            State::Expanded => "expanded"@,
            State::Collapsed => "collapsed"@,
            State::Pressed => "pressed"@,
            State::Modal => "modal"@,
        }
    }

    /// The lower-case name of the state.
    pub fn attr_name(self) -> (r: &'static str)
        ensures
            r@ == self.attr(),
    {
        match self {
            State::Showing => "showing",
            State::Visible => "visible",
            State::Enabled => "enabled",
            State::Sensitive => "sensitive",
            State::Focused => "focused",
            State::Focusable => "focusable",
            State::Selected => "selected",
            State::Selectable => "selectable",
            State::Checked => "checked",
            State::Checkable => "checkable",
            State::Active => "active",
            State::Editable => "editable",
            State::Expandable => "expandable",
            State::Expanded => "expanded",
            State::Collapsed => "collapsed",
            State::Pressed => "pressed",
            State::Modal => "modal",
        }
    }
}

/// The states in the order in which they are emitted.
pub open spec fn emitted() -> Seq<State> {
    seq![
        State::Showing,
        State::Visible,
        State::Enabled,
        State::Sensitive,
        State::Focused,
        State::Focusable,
        State::Selected,
        State::Selectable,
        State::Checked,
        State::Checkable,
        State::Active,
        State::Editable,
        State::Expandable,
        State::Expanded,
        State::Collapsed,
        State::Pressed,
        State::Modal,
    ]
}

/// The states in the order in which they are emitted.
pub fn emitted_states() -> (r: Vec<State>)
    ensures
        r@ == emitted(),
{
    let v = vec![
        State::Showing,
        State::Visible,
        State::Enabled,
        State::Sensitive,
        State::Focused,
        State::Focusable,
        State::Selected,
        State::Selectable,
        State::Checked,
        State::Checkable,
        State::Active,
        State::Editable,
        State::Expandable,
        State::Expanded,
        State::Collapsed,
        State::Pressed,
        State::Modal,
    ];
    assert(v@ =~= emitted());
    v
}

/// A set of states.
#[derive(Debug)]
pub struct StateSet {
    states: Vec<State>,
}

impl View for StateSet {
    type V = Set<State>;

    closed spec fn view(&self) -> Set<State> {
        self.states@.to_set()
    }
}

impl Clone for StateSet {
    fn clone(&self) -> (r: Self)
        ensures
            r@ == self@,
    {
        let mut states: Vec<State> = Vec::new();
        let mut i: usize = 0;
        while i < self.states.len()
            invariant
                i <= self.states.len(),
                states@ == self.states@.take(i as int),
            decreases self.states.len() - i,
        {
            states.push(self.states[i]);
            i = i + 1;
        }
        assert(states@ =~= self.states@);
        StateSet { states }
    }
}

impl StateSet {
    /// The states in `states`.
    pub fn new(states: Vec<State>) -> (r: Self)
        ensures
            r@ == states@.to_set(),
    {
        StateSet { states }
    }

    /// No state.
    pub fn empty() -> (r: Self)
        ensures
            r@ == Set::<State>::empty(),
    {
        let r = StateSet { states: Vec::new() };
        assert(r@ =~= Set::<State>::empty());
        r
    }

    /// Whether `state` is in the set.
    pub fn contains(&self, state: State) -> (r: bool)
        ensures
            r == self@.contains(state),
    {
        let mut i: usize = 0;
        while i < self.states.len()
            invariant
                i <= self.states.len(),
                forall|k: int| 0 <= k < i ==> self.states@[k] != state,
            decreases self.states.len() - i,
        {
            if self.states[i] == state {
                assert(self.states@.to_set().contains(self.states@[i as int]));
                return true;
            }
            i = i + 1;
        }
        assert(!self.states@.contains(state));
        false
    }
}

/// The names of those of the first `n` emitted states that are in `set`.
pub open spec fn state_names(set: Set<State>, n: nat) -> Seq<Seq<char>>
    decreases n,
{
    if n == 0 {
        Seq::empty()
    } else {
        let front = state_names(set, (n - 1) as nat);
        let s = emitted()[n - 1];
        if set.contains(s) {
            front.push(s.attr())
        } else {
            front
        }
    }
}

/// The characters of each string.
pub open spec fn texts(v: Seq<String>) -> Seq<Seq<char>> {
    v.map_values(|s: String| s@)
}

/// The names of the set states, in emission order.
pub fn emitted_state_names(set: &StateSet) -> (r: Vec<String>)
    ensures
        texts(r@) == state_names(set@, 17),
{
    let all = emitted_states();
    let mut out: Vec<String> = Vec::new();
    let mut i: usize = 0;
    assert(texts(out@) =~= state_names(set@, 0));
    while i < all.len()
        invariant
            all@ == emitted(),
            i <= all.len(),
            all.len() == 17,
            texts(out@) == state_names(set@, i as nat),
        decreases all.len() - i,
    {
        let s = all[i];
        let ghost before = out@;
        if set.contains(s) {
            out.push(s.attr_name().to_string());
            assert(texts(out@) =~= texts(before).push(s.attr()));
        }
        i = i + 1;
    }
    out
}

/// Whether `key` is the name of an emitted state.
pub open spec fn state_attr(key: Seq<char>) -> bool {
    exists|i: int| 0 <= i < 17 && (#[trigger] emitted()[i]).attr() == key
}

/// Whether `key` is the name of an emitted state.
pub fn is_state_attr(key: &str) -> (r: bool)
    ensures
        r == state_attr(key@),
{
    let all = emitted_states();
    let mut i: usize = 0;
    while i < all.len()
        invariant
            all@ == emitted(),
            all.len() == 17,
            i <= all.len(),
            forall|k: int| 0 <= k < i ==> (#[trigger] emitted()[k]).attr() != key@,
        decreases all.len() - i,
    {
        if same_text(all[i].attr_name(), key) {
            assert(emitted()[i as int].attr() == key@);
            return true;
        }
        i = i + 1;
    }
    false
}

/// Whether a snapshot made from the accessibility cache carries the attribute
/// `key`: the name, the role, the reference and the states, but no bounds and no
/// toolkit attribute.
pub fn snapshot_cache_has_attr(key: &str) -> (r: bool)
    ensures
        r == (key@ == "name"@ || key@ == "role"@ || key@ == "_ref"@ || state_attr(key@)),
{
    same_text(key, "name") || same_text(key, "role") || same_text(key, "_ref") || is_state_attr(key)
}

/// Whether the snapshot emits `key` itself, for something other than a state.
pub open spec fn builtin(key: Seq<char>) -> bool {
    key == "_ref"@ || key == "name"@ || key == "description"@ || key == "role"@ || key == "bbox"@
}

/// Whether the snapshot emits `key` itself, for something other than a state.
pub fn is_builtin(key: &str) -> (r: bool)
    ensures
        r == builtin(key@),
{
    same_text(key, "_ref") || same_text(key, "name") || same_text(key, "description") || same_text(
        key,
        "role",
    ) || same_text(key, "bbox")
}

// ── Bus replies ─────────────────────────────────────────────────────────────

/// A failed call on the accessibility bus. `text` is what the failure displays
/// as.
#[derive(Debug, Clone)]
pub enum BusFailure {
    /// The peer answered with a method error of the given name.
    Method { name: String, text: String },
    /// The transport timed out.
    TimedOut { text: String },
    /// Anything else.
    Other { text: String },
}

impl BusFailure {
    /// What the failure displays as.
    pub open spec fn shown(self) -> Seq<char> {
        match self {
            BusFailure::Method { text, .. } => text@,
            BusFailure::TimedOut { text } => text@,
            BusFailure::Other { text } => text@,
        }
    }

    /// What the failure displays as.
    pub fn text(&self) -> (r: &str)
        ensures
            r@ == self.shown(),
    {
        match self {
            BusFailure::Method { text, .. } => text.as_str(),
            BusFailure::TimedOut { text } => text.as_str(),
            BusFailure::Other { text } => text.as_str(),
        }
    }
}

/// Whether an error name says that the target is gone.
pub open spec fn stale_name(name: Seq<char>) -> bool {
    ||| text::occurs(name, "UnknownObject"@)
    ||| text::occurs(name, "ServiceUnknown"@)
    ||| text::occurs(name, "NoReply"@)
    ||| text::occurs(name, "Disconnected"@)
}

/// Whether an error name says that the target was destroyed between resolution
/// and action, or that its peer is gone.
pub fn is_stale_error_name(name: &str) -> (r: bool)
    ensures
        r == stale_name(name@),
{
    contains_text(name, "UnknownObject") || contains_text(name, "ServiceUnknown") || contains_text(
        name,
        "NoReply",
    ) || contains_text(name, "Disconnected")
}

/// The error of a failed action: staleness for a stale error name or a transport
/// timeout, else an AT-SPI failure.
pub open spec fn action_error(
    xpath: Seq<char>,
    bus: Seq<char>,
    path: Seq<char>,
    failure: BusFailure,
) -> ErrorView {
    let gone = match failure {
        BusFailure::Method { name, .. } => stale_name(name@),
        BusFailure::TimedOut { .. } => true,
        BusFailure::Other { .. } => false,
    };
    if gone {
        ErrorView::ElementStale { xpath, bus, path }
    } else {
        crate::error::atspi_caused("dbus"@, failure.shown())
    }
}

/// Maps a failed action to the library's error.
pub fn map_action_err(xpath: &str, bus: &str, path: &str, failure: &BusFailure) -> (r: Error)
    ensures
        r@ == action_error(xpath@, bus@, path@, *failure),
{
    let gone = match failure {
        BusFailure::Method { name, .. } => is_stale_error_name(name.as_str()),
        BusFailure::TimedOut { .. } => true,
        BusFailure::Other { .. } => false,
    };
    if gone {
        Error::stale(xpath, bus, path)
    } else {
        Error::atspi_with("dbus", failure.text())
    }
}

/// Outcome of an action request that tells "the bridge does not expose this" from
/// "the bridge rejected this request".
#[derive(Debug, Clone, Copy, PartialEq, Eq, Structural)]
pub enum ActionOutcome {
    /// The widget reports that it performed the action.
    Performed,
    /// The widget exposes actions but rejected the request.
    Refused,
    /// The widget's bridge has no such action.
    NotSupported,
}

/// Outcome of a focus request, told apart the same way.
#[derive(Debug, Clone, Copy, PartialEq, Eq, Structural)]
pub enum FocusOutcome {
    /// The widget reports that it took focus.
    Granted,
    /// The widget rejected the request.
    Rejected,
    /// The widget's bridge cannot be asked for focus.
    NotSupported,
}

/// What a yes-or-no request amounts to: `Some` answer of the widget, `None` where
/// its bridge does not support the request, or the error.
pub open spec fn answered(
    xpath: Seq<char>,
    bus: Seq<char>,
    path: Seq<char>,
    reply: Result<bool, BusFailure>,
) -> Result<Option<bool>, ErrorView> {
    match reply {
        Ok(b) => Ok(Some(b)),
        Err(BusFailure::Method { name, text }) => if stale_name(name@) {
            Err(ErrorView::ElementStale { xpath, bus, path })
        } else {
            Ok(None)
        },
        Err(f) => Err(crate::error::atspi_caused("dbus"@, f.shown())),
    }
}

fn answer(xpath: &str, bus: &str, path: &str, reply: &Result<bool, BusFailure>) -> (r: Result<
    Option<bool>,
    Error,
>)
    ensures
        crate::error::outcome(r) == answered(xpath@, bus@, path@, *reply),
{
    match reply {
        Ok(b) => Ok(Some(*b)),
        Err(f) => match f {
            BusFailure::Method { name, .. } => if is_stale_error_name(name.as_str()) {
                Err(Error::stale(xpath, bus, path))
            } else {
                Ok(None)
            },
            _ => Err(Error::atspi_with("dbus", f.text())),
        },
    }
}

/// What the reply to an action request comes to.
pub open spec fn action_answer(
    xpath: Seq<char>,
    bus: Seq<char>,
    path: Seq<char>,
    reply: Result<bool, BusFailure>,
) -> Result<ActionOutcome, ErrorView> {
    match answered(xpath, bus, path, reply) {
        Ok(Some(granted)) => if granted {
            Ok(ActionOutcome::Performed)
        } else {
            Ok(ActionOutcome::Refused)
        },
        Ok(None) => Ok(ActionOutcome::NotSupported),
        Err(e) => Err(e),
    }
}

/// What the reply to a focus request comes to.
pub open spec fn focus_answer(
    xpath: Seq<char>,
    bus: Seq<char>,
    path: Seq<char>,
    reply: Result<bool, BusFailure>,
) -> Result<FocusOutcome, ErrorView> {
    match answered(xpath, bus, path, reply) {
        Ok(Some(granted)) => if granted {
            Ok(FocusOutcome::Granted)
        } else {
            Ok(FocusOutcome::Rejected)
        },
        Ok(None) => Ok(FocusOutcome::NotSupported),
        Err(e) => Err(e),
    }
}

/// Reads the reply to an action request; a bridge without the action is an
/// outcome, not an error.
pub fn action_outcome(
    xpath: &str,
    bus: &str,
    path: &str,
    reply: &Result<bool, BusFailure>,
) -> (r: Result<ActionOutcome, Error>)
    ensures
        crate::error::outcome(r) == (match answered(xpath@, bus@, path@, *reply) {
            Ok(Some(true)) => Ok(ActionOutcome::Performed),
            Ok(Some(false)) => Ok(ActionOutcome::Refused),
            Ok(None) => Ok(ActionOutcome::NotSupported),
            Err(e) => Err(e),
        }),
        crate::error::outcome(r) == action_answer(xpath@, bus@, path@, *reply),
{
    match answer(xpath, bus, path, reply) {
        Ok(Some(true)) => Ok(ActionOutcome::Performed),
        Ok(Some(false)) => Ok(ActionOutcome::Refused),
        Ok(None) => Ok(ActionOutcome::NotSupported),
        Err(e) => Err(e),
    }
}

/// Reads the reply to a focus request; a bridge that cannot be asked is an
/// outcome, not an error.
pub fn focus_outcome(
    xpath: &str,
    bus: &str,
    path: &str,
    reply: &Result<bool, BusFailure>,
) -> (r: Result<FocusOutcome, Error>)
    ensures
        crate::error::outcome(r) == (match answered(xpath@, bus@, path@, *reply) {
            Ok(Some(true)) => Ok(FocusOutcome::Granted),
            Ok(Some(false)) => Ok(FocusOutcome::Rejected),
            Ok(None) => Ok(FocusOutcome::NotSupported),
            Err(e) => Err(e),
        }),
        crate::error::outcome(r) == focus_answer(xpath@, bus@, path@, *reply),
{
    match answer(xpath, bus, path, reply) {
        Ok(Some(true)) => Ok(FocusOutcome::Granted),
        Ok(Some(false)) => Ok(FocusOutcome::Rejected),
        Ok(None) => Ok(FocusOutcome::NotSupported),
        Err(e) => Err(e),
    }
}

/// A request that an element can turn down.
#[derive(Debug, Clone, Copy, PartialEq, Eq, Structural)]
pub enum Request {
    /// Perform the primary action.
    DoAction,
    /// Take keyboard focus.
    GrabFocus,
    /// Replace the editable text.
    SetText,
    /// Select the child at an index.
    SelectChild(i32),
}

/// The message for a request that the element answered with `false`.
pub open spec fn refusal(request: Request, bus: Seq<char>, path: Seq<char>) -> Seq<char> {
    match request {
        Request::DoAction => "do_action(0) returned false on "@ + bus + path
            + " — element may not support activation"@,
        Request::GrabFocus => "grab_focus returned false on "@ + bus + path
            + " — element not focusable"@,
        Request::SetText => "set_text_contents returned false on "@ + bus + path
            + " — element rejected input"@,
        Request::SelectChild(index) => "select_child("@ + text::decimal_int(index as int)
            + ") returned false on "@ + bus + path
            + " — element may not implement the Selection interface or the index is out of range"@,
    }
}

fn refusal_text(request: Request, bus: &str, path: &str) -> (r: String)
    ensures
        r@ == refusal(request, bus@, path@),
{
    let mut m = match request {
        Request::DoAction => "do_action(0) returned false on ".to_string(),
        Request::GrabFocus => "grab_focus returned false on ".to_string(),
        Request::SetText => "set_text_contents returned false on ".to_string(),
        Request::SelectChild(index) => {
            let mut s = "select_child(".to_string();
            s.append(text::decimal_i32(index).as_str());
            s.append(") returned false on ");
            s
        },
    };
    m.append(bus);
    m.append(path);
    match request {
        Request::DoAction => m.append(" — element may not support activation"),
        Request::GrabFocus => m.append(" — element not focusable"),
        Request::SetText => m.append(" — element rejected input"),
        Request::SelectChild(_) => m.append(
            " — element may not implement the Selection interface or the index is out of range",
        ),
    }
    m
}

/// What the reply to a request that has to be granted comes to.
pub open spec fn request_answer(
    request: Request,
    xpath: Seq<char>,
    bus: Seq<char>,
    path: Seq<char>,
    reply: Result<bool, BusFailure>,
) -> Result<(), ErrorView> {
    match reply {
        Ok(granted) => if granted {
            Ok(())
        } else {
            Err(ErrorView::Atspi { message: refusal(request, bus, path), source: None })
        },
        Err(f) => Err(action_error(xpath, bus, path, f)),
    }
}

/// Reads the reply to a request that has to be granted: `false` is an error.
pub fn request_result(
    request: Request,
    xpath: &str,
    bus: &str,
    path: &str,
    reply: &Result<bool, BusFailure>,
) -> (r: Result<(), Error>)
    ensures
        crate::error::outcome(r) == (match *reply {
            Ok(true) => Ok(()),
            Ok(false) => Err(
                ErrorView::Atspi { message: refusal(request, bus@, path@), source: None },
            ),
            Err(f) => Err(action_error(xpath@, bus@, path@, f)),
        }),
        crate::error::outcome(r) == request_answer(request, xpath@, bus@, path@, *reply),
{
    match reply {
        Ok(b) => if *b {
            Ok(())
        } else {
            Err(Error::atspi(refusal_text(request, bus, path).as_str()))
        },
        Err(f) => Err(map_action_err(xpath, bus, path, f)),
    }
}

/// A reply whose method error is taken as `default`.
pub open spec fn tolerated<T>(reply: Result<T, BusFailure>, default: T) -> Result<T, BusFailure> {
    if reply is Err && reply->Err_0 is Method {
        Ok(default)
    } else {
        reply
    }
}

/// Reads a reply where a method error means "not supported here" and is taken as
/// `default`; any other failure is handed on.
pub fn tolerate<T>(reply: Result<T, BusFailure>, default: T) -> (r: Result<T, BusFailure>)
    ensures
        r == (match reply {
            Err(BusFailure::Method { name, text }) => Ok(default),
            other => other,
        }),
        r == tolerated(reply, default),
{
    match reply {
        Err(BusFailure::Method { name: _, text: _ }) => Ok(default),
        other => other,
    }
}

/// The bounds in a reply to a request for extents: none where the widget cannot
/// be asked or its extents cover no area.
pub open spec fn extents(reply: Result<(i32, i32, i32, i32), BusFailure>) -> Result<
    Option<Rect>,
    BusFailure,
> {
    match reply {
        Ok((x, y, width, height)) => if width == 0 || height == 0 || (width < 0 && height < 0) {
            Ok(None)
        } else {
            Ok(Some(Rect { x, y, width, height }))
        },
        Err(BusFailure::Method { name, text }) => Ok(None),
        Err(f) => Err(f),
    }
}

/// Reads a reply to a request for extents.
pub fn extents_from_reply(reply: Result<(i32, i32, i32, i32), BusFailure>) -> (r: Result<
    Option<Rect>,
    BusFailure,
>)
    ensures
        r == extents(reply),
{
    match reply {
        Ok((x, y, width, height)) => if width == 0 || height == 0 || (width < 0 && height < 0) {
            Ok(None)
        } else {
            Ok(Some(Rect { x, y, width, height }))
        },
        Err(BusFailure::Method { name: _, text: _ }) => Ok(None),
        Err(f) => Err(f),
    }
}

/// The role an element is taken to have: the one reported, or `"unknown"`.
pub fn role_or_unknown(reported: Option<String>) -> (r: String)
    ensures
        r@ == (match reported {
            Some(s) => s@,
            None => "unknown"@,
        }),
{
    match reported {
        Some(s) => s,
        None => "unknown".to_string(),
    }
}

/// The bus a reference points to, read from an element on the bus `own`: a reference
/// within one application carries no bus name or an empty one.
pub open spec fn bus_of(reference: Option<Seq<char>>, own: Seq<char>) -> Seq<char> {
    match reference {
        Some(s) => if s.len() > 0 {
            s
        } else {
            own
        },
        None => own,
    }
}

/// The bus a reference points to: its own unless it carries none or an empty one, then
/// the bus of the element it was read from.
pub fn bus_or(reference: Option<String>, own: &str) -> (r: String)
    ensures
        r@ == bus_of(error::optional(reference), own@),
{
    match reference {
        Some(s) => if s.as_str().unicode_len() > 0 {
            s
        } else {
            own.to_string()
        },
        None => own.to_string(),
    }
}

/// The name that a selected child goes by, where it has one; its text stands in for an
/// empty one.
pub fn selected_name(name: String) -> (r: Option<String>)
    ensures
        match r {
            Some(n) => n@ == name@ && name@.len() > 0,
            None => name@.len() == 0,
        },
{
    if name.as_str().unicode_len() > 0 {
        Some(name)
    } else {
        None
    }
}

/// The non-empty texts, joined by single spaces.
pub open spec fn joined(labels: Seq<Option<Seq<char>>>) -> Seq<char>
    decreases labels.len(),
{
    if labels.len() == 0 {
        Seq::empty()
    } else {
        let front = joined(labels.drop_last());
        match labels.last() {
            Some(t) if t.len() > 0 => if front.len() > 0 {
                front + " "@ + t
            } else {
                t
            },
            _ => front,
        }
    }
}

/// The characters of each text that was read.
pub open spec fn readings(v: Seq<Option<String>>) -> Seq<Option<Seq<char>>> {
    v.map_values(|o: Option<String>| crate::error::optional(o))
}

/// Joins the texts of the elements that label another one; `None` stands for a
/// text that could not be read. No text at all gives `None`.
pub fn join_labels(labels: &Vec<Option<String>>) -> (r: Option<String>)
    ensures
        match r {
            Some(s) => s@.len() > 0 && s@ == joined(readings(labels@)),
            None => joined(readings(labels@)).len() == 0,
        },
{
    let mut out = String::new();
    let mut i: usize = 0;
    assert(readings(labels@).take(0) =~= Seq::empty());
    while i < labels.len()
        invariant
            i <= labels.len(),
            out@ == joined(readings(labels@).take(i as int)),
        decreases labels.len() - i,
    {
        let ghost next = readings(labels@).take(i + 1);
        assert(next.drop_last() =~= readings(labels@).take(i as int));
        assert(next.last() == crate::error::optional(labels@[i as int]));
        match &labels[i] {
            Some(t) => {
                if t.as_str().unicode_len() > 0 {
                    if out.as_str().unicode_len() > 0 {
                        out.append(" ");
                        out.append(t.as_str());
                    } else {
                        out = t.clone();
                    }
                }
            },
            None => {},
        }
        i = i + 1;
    }
    assert(readings(labels@).take(i as int) =~= readings(labels@));
    if out.as_str().unicode_len() > 0 {
        Some(out)
    } else {
        None
    }
}

// ── Laws ────────────────────────────────────────────────────────────────────

/// Every role is emitted under a name that XML accepts for an element.
pub proof fn law_tag_is_element_name(role: Seq<char>)
    ensures
        tag_shaped(tag(role)),
{
    reveal_strlit("Node");
}

/// A toolkit attribute is emitted under a name that XML accepts, and never under
/// one of the names reserved for the role, the name and the reference.
pub proof fn law_sanitized_is_attribute_name(key: Seq<char>)
    ensures
        match sanitized(key) {
            Some(s) => {
                &&& s.len() > 0
                &&& letter(s[0]) || s[0] == '_'
                &&& forall|i: int| 0 <= i < s.len() ==> attr_char(#[trigger] s[i]) == s[i]
                &&& !reserved(s)
            },
            None => key.len() == 0,
        },
{
    reveal_strlit("name");
    reveal_strlit("role");
    reveal_strlit("_ref");
    let mapped = key.map_values(|c: char| attr_char(c));
    if mapped.len() > 0 {
        let started = if letter(mapped[0]) || mapped[0] == '_' {
            mapped
        } else {
            seq!['_'] + mapped
        };
        assert forall|i: int| 0 <= i < started.len() implies attr_char(#[trigger] started[i])
            == started[i] by {
            if started.len() == mapped.len() {
                assert(started[i] == attr_char(key[i]));
            } else if i > 0 {
                assert(started[i] == attr_char(key[i - 1]));
            }
        }
        let s = sanitized(key)->0;
        if reserved(started) {
            assert(s =~= seq!['_'] + started);
            assert(s[1] == started[0]);
            assert(s[2] == started[1]);
            assert forall|i: int| 0 <= i < s.len() implies attr_char(#[trigger] s[i]) == s[i] by {
                if i > 0 {
                    assert(s[i] == started[i - 1]);
                }
            }
        }
    }
}

/// Whether `s` begins with `p`.
pub open spec fn begins(s: Seq<char>, p: Seq<char>) -> bool {
    s.len() >= p.len() && s.take(p.len() as int) == p
}

/// Attribute text with the five entities decoded.
pub open spec fn unescaped(s: Seq<char>) -> Seq<char>
    decreases s.len(),
{
    if s.len() == 0 {
        Seq::empty()
    } else if s.len() >= 4 && begins(s, "&lt;"@) {
        seq!['<'] + unescaped(s.skip(4))
    } else if s.len() >= 4 && begins(s, "&gt;"@) {
        seq!['>'] + unescaped(s.skip(4))
    } else if s.len() >= 5 && begins(s, "&amp;"@) {
        seq!['&'] + unescaped(s.skip(5))
    } else if s.len() >= 6 && begins(s, "&quot;"@) {
        seq!['"'] + unescaped(s.skip(6))
    } else if s.len() >= 6 && begins(s, "&apos;"@) {
        seq!['\''] + unescaped(s.skip(6))
    } else {
        seq![s[0]] + unescaped(s.skip(1))
    }
}

proof fn lemma_unescape_front(c: char, t: Seq<char>)
    ensures
        unescaped(escaped_char(c) + t) == (if kept(c) {
            seq![c]
        } else {
            Seq::empty()
        }) + unescaped(t),
{
    reveal_strlit("&lt;");
    reveal_strlit("&gt;");
    reveal_strlit("&amp;");
    reveal_strlit("&quot;");
    reveal_strlit("&apos;");
    let e = escaped_char(c);
    let s = e + t;
    assert(s.skip(e.len() as int) =~= t);
    assert(s.take(e.len() as int) =~= e);
    if c == '<' {
        assert(begins(s, "&lt;"@));
    } else if c == '>' {
        assert(s[1] == 'g');
        assert(begins(s, "&gt;"@));
        assert(s.take(4)[1] == 'g');
        assert(!begins(s, "&lt;"@));
    } else if c == '&' {
        assert(begins(s, "&amp;"@));
        assert(s.take(4)[1] == 'a');
        assert(!begins(s, "&lt;"@));
        assert(!begins(s, "&gt;"@));
    } else if c == '"' {
        assert(begins(s, "&quot;"@));
        assert(s.take(4)[1] == 'q');
        assert(s.take(5)[1] == 'q');
        assert(!begins(s, "&lt;"@));
        assert(!begins(s, "&gt;"@));
        assert(!begins(s, "&amp;"@));
    } else if c == '\'' {
        assert(begins(s, "&apos;"@));
        assert(s.take(4)[1] == 'a');
        assert(s.take(5)[2] == 'p');
        assert(s.take(6)[1] == 'a');
        assert(!begins(s, "&lt;"@));
        assert(!begins(s, "&gt;"@));
        assert(!begins(s, "&amp;"@));
        assert(!begins(s, "&quot;"@));
    } else if kept(c) {
        assert(s[0] == c);
        assert(!begins(s, "&lt;"@)) by {
            if s.len() >= 4 {
                assert(s.take(4)[0] == c);
            }
        }
        assert(!begins(s, "&gt;"@)) by {
            if s.len() >= 4 {
                assert(s.take(4)[0] == c);
            }
        }
        assert(!begins(s, "&amp;"@)) by {
            if s.len() >= 5 {
                assert(s.take(5)[0] == c);
            }
        }
        assert(!begins(s, "&quot;"@)) by {
            if s.len() >= 6 {
                assert(s.take(6)[0] == c);
            }
        }
        assert(!begins(s, "&apos;"@)) by {
            if s.len() >= 6 {
                assert(s.take(6)[0] == c);
            }
        }
    } else {
        assert(s =~= t);
        assert(Seq::<char>::empty() + unescaped(t) =~= unescaped(t));
    }
}

/// Decoding an escaped value gives the text back, less the control characters that
/// escaping drops, whatever follows the value.
pub proof fn law_escaping_reads_back(s: Seq<char>, rest: Seq<char>)
    ensures
        unescaped(escaped(s) + rest) == s.filter(|c: char| kept(c)) + unescaped(rest),
    decreases s.len(),
{
    let keep = |c: char| kept(c);
    if s.len() == 0 {
        assert(escaped(s) + rest =~= rest);
        assert(s.filter(keep) =~= Seq::empty());
        assert(s.filter(keep) + unescaped(rest) =~= unescaped(rest));
    } else {
        let front = s.drop_last();
        let c = s.last();
        assert(escaped(s) + rest =~= escaped(front) + (escaped_char(c) + rest));
        law_escaping_reads_back(front, escaped_char(c) + rest);
        lemma_unescape_front(c, rest);
        assert(s =~= front.push(c));
        front.lemma_filter_push(c, keep);
        if kept(c) {
            assert(front.filter(keep) + (seq![c] + unescaped(rest)) =~= front.filter(keep).push(c)
                + unescaped(rest));
        } else {
            assert(front.filter(keep) + (Seq::<char>::empty() + unescaped(rest)) =~= front.filter(
                keep,
            ) + unescaped(rest));
        }
    }
}

/// An escaped value holds no quote and no angle bracket, so it cannot end the
/// attribute it stands in.
pub proof fn law_escaped_stays_inside(s: Seq<char>)
    ensures
        forall|i: int|
            0 <= i < escaped(s).len() ==> {
                let c = #[trigger] escaped(s)[i];
                c != '<' && c != '>' && c != '"' && c != '\''
            },
    decreases s.len(),
{
    reveal_strlit("&lt;");
    reveal_strlit("&gt;");
    reveal_strlit("&amp;");
    reveal_strlit("&quot;");
    reveal_strlit("&apos;");
    if s.len() > 0 {
        law_escaped_stays_inside(s.drop_last());
        let front = escaped(s.drop_last());
        let tail = escaped_char(s.last());
        assert forall|i: int| 0 <= i < escaped(s).len() implies {
            let c = #[trigger] escaped(s)[i];
            c != '<' && c != '>' && c != '"' && c != '\''
        } by {
            if i < front.len() {
                assert(escaped(s)[i] == front[i]);
            } else {
                assert(escaped(s)[i] == tail[i - front.len()]);
            }
        }
    }
}

/// The identity that a snapshot writes for a node is read back from the decoded
/// attribute: a bus name holds no `|`, and neither part holds a control character
/// that escaping drops.
pub proof fn law_reference_reads_back(bus: Seq<char>, path: Seq<char>)
    requires
        !bus.contains('|'),
        forall|i: int| 0 <= i < bus.len() ==> kept(#[trigger] bus[i]),
        forall|i: int| 0 <= i < path.len() ==> kept(#[trigger] path[i]),
    ensures
        text::split_once(unescaped(escaped(bus) + "|"@ + escaped(path)), '|') == Some((bus, path)),
{
    reveal_strlit("|");
    let keep = |c: char| kept(c);
    let rest = "|"@ + escaped(path);
    assert(escaped(bus) + "|"@ + escaped(path) =~= escaped(bus) + rest);
    law_escaping_reads_back(bus, rest);
    lemma_filter_all(bus, keep);
    lemma_filter_all(path, keep);
    lemma_unescape_front('|', escaped(path));
    assert(rest =~= escaped_char('|') + escaped(path));
    law_escaping_reads_back(path, Seq::empty());
    assert(escaped(path) + Seq::<char>::empty() =~= escaped(path));
    assert(path + unescaped(Seq::<char>::empty()) =~= path);
    assert(bus + (seq!['|'] + path) =~= bus + "|"@ + path);
    crate::query::law_identity_reads_back(bus, path);
}

proof fn lemma_filter_all(s: Seq<char>, keep: spec_fn(char) -> bool)
    requires
        forall|i: int| 0 <= i < s.len() ==> keep(#[trigger] s[i]),
    ensures
        s.filter(keep) == s,
    decreases s.len(),
{
    reveal(Seq::filter);
    if s.len() > 0 {
        let front = s.drop_last();
        assert forall|i: int| 0 <= i < front.len() implies keep(#[trigger] front[i]) by {
            assert(front[i] == s[i]);
        }
        lemma_filter_all(front, keep);
        assert(keep(s[s.len() - 1]));
        assert(s =~= front.push(s.last()));
    }
}

/// Text without control characters survives escaping whole, tabs and line ends among it; any
/// other control character leaves nothing behind.
pub proof fn law_only_controls_are_dropped(s: Seq<char>)
    ensures
        (forall|i: int|
            0 <= i < s.len() ==> #[trigger] s[i] as u32 >= 0x20 || s[i] == '\t' || s[i] == '\n'
                || s[i] == '\r') ==> unescaped(escaped(s)) == s,
        (forall|i: int|
            0 <= i < s.len() ==> (#[trigger] s[i] as u32) < 0x20 && s[i] != '\t' && s[i] != '\n'
                && s[i] != '\r') ==> escaped(s).len() == 0,
    decreases s.len(),
{
    let none = Seq::<char>::empty();
    let keep = |c: char| kept(c);
    law_escaping_reads_back(s, none);
    assert(escaped(s) + none =~= escaped(s));
    assert(unescaped(none) == none);
    assert(s.filter(keep) + none =~= s.filter(keep));
    if s.len() > 0 {
        law_only_controls_are_dropped(s.drop_last());
    }
    if forall|i: int|
        0 <= i < s.len() ==> #[trigger] s[i] as u32 >= 0x20 || s[i] == '\t' || s[i] == '\n'
            || s[i] == '\r' {
        lemma_all_kept(s);
    }
}

proof fn lemma_all_kept(s: Seq<char>)
    requires
        forall|i: int| 0 <= i < s.len() ==> kept(#[trigger] s[i]),
    ensures
        s.filter(|c: char| kept(c)) == s,
    decreases s.len(),
{
    let keep = |c: char| kept(c);
    if s.len() > 0 {
        let front = s.drop_last();
        assert forall|i: int| 0 <= i < front.len() implies kept(#[trigger] front[i]) by {
            assert(front[i] == s[i]);
        }
        lemma_all_kept(front);
        assert(s =~= front.push(s.last()));
        assert(kept(s[s.len() - 1]));
        front.lemma_filter_push(s.last(), keep);
    } else {
        assert(s.filter(keep) =~= s);
    }
}

/// Escaping goes character by character, and leaves what is neither special nor a control
/// character as it is.
pub proof fn law_escaping_goes_by_character(a: Seq<char>, b: Seq<char>, c: char)
    ensures
        escaped(a + b) == escaped(a) + escaped(b),
        c as u32 >= 0x20 && c != '<' && c != '>' && c != '&' && c != '"' && c != '\''
            ==> escaped(seq![c]) == seq![c],
    decreases b.len(),
{
    if b.len() == 0 {
        assert(a + b =~= a);
        assert(escaped(a) + escaped(b) =~= escaped(a));
    } else {
        law_escaping_goes_by_character(a, b.drop_last(), c);
        assert((a + b).drop_last() =~= a + b.drop_last());
        assert((a + b).last() == b.last());
        assert(escaped(a + b) =~= escaped(a) + escaped(b));
    }
    let one = seq![c];
    assert(one.drop_last() =~= Seq::empty());
    reveal_with_fuel(escaped, 2);
    assert(escaped(one) =~= escaped_char(c));
}

/// The words of a role are run together, whatever white space stands between them.
pub proof fn law_words_are_run_together(a: Seq<char>, gap: char, b: Seq<char>)
    requires
        text::white_space(gap),
    ensures
        pascal(a.push(gap) + b) == pascal(a) + pascal(b),
    decreases b.len(),
{
    let whole = a.push(gap) + b;
    if b.len() == 0 {
        assert(whole =~= a.push(gap));
        assert(a.push(gap).drop_last() =~= a);
        assert(pascal(a) + pascal(b) =~= pascal(a));
    } else {
        law_words_are_run_together(a, gap, b.drop_last());
        assert(whole.drop_last() =~= a.push(gap) + b.drop_last());
        assert(whole.last() == b.last());
        if b.len() == 1 {
            assert(whole[whole.len() - 2] == gap);
        } else {
            assert(whole[whole.len() - 2] == b[b.len() - 2]);
        }
        assert(pascal(whole) =~= pascal(a) + pascal(b));
    }
}

/// A word of ASCII characters keeps its length; its first letter is made a capital and the
/// others are made small.
pub proof fn law_word_is_capitalised(word: Seq<char>)
    requires
        forall|i: int|
            0 <= i < word.len() ==> (#[trigger] word[i] as u32) < 128 && !text::white_space(
                word[i],
            ),
    ensures
        pascal(word).len() == word.len(),
        word.len() > 0 ==> pascal(word)[0] == (if 'a' <= word[0] <= 'z' {
            (word[0] as u8 - 32) as u8 as char
        } else {
            word[0]
        }),
        forall|i: int|
            1 <= i < word.len() ==> #[trigger] pascal(word)[i] == (if 'A' <= word[i] <= 'Z' {
                (word[i] as u8 + 32) as u8 as char
            } else {
                word[i]
            }),
    decreases word.len(),
{
    if word.len() > 0 {
        let front = word.drop_last();
        assert forall|i: int| 0 <= i < front.len() implies (#[trigger] front[i] as u32) < 128
            && !text::white_space(front[i]) by {
            assert(front[i] == word[i]);
        }
        law_word_is_capitalised(front);
        let last = word[word.len() - 1];
        assert((last as u32) < 128 && !text::white_space(last));
        if word.len() > 1 {
            assert(!text::white_space(word[word.len() - 2]));
            assert(pascal(word) =~= pascal(front).push(text::ascii_lower(last)));
            assert forall|i: int| 1 <= i < word.len() implies #[trigger] pascal(word)[i] == (if 'A'
                <= word[i] <= 'Z' {
                (word[i] as u8 + 32) as u8 as char
            } else {
                word[i]
            }) by {
                if i < front.len() {
                    assert(pascal(word)[i] == pascal(front)[i]);
                    assert(front[i] == word[i]);
                }
            }
            assert(pascal(word)[0] == pascal(front)[0]);
            assert(front[0] == word[0]);
        } else {
            assert(pascal(word) =~= seq![text::ascii_upper(last)]);
        }
    }
}

/// A role is emitted under its words run together, where these are an ASCII letter or an
/// underscore and then letters, digits, underscores and hyphens; any other under `Node`.
pub proof fn law_role_names_its_element(role: Seq<char>)
    ensures
        ({
            let run = pascal(role);
            let fit = run.len() > 0 && ('a' <= run[0] <= 'z' || 'A' <= run[0] <= 'Z' || run[0]
                == '_') && forall|i: int|
                0 <= i < run.len() ==> 'a' <= #[trigger] run[i] <= 'z' || 'A' <= run[i] <= 'Z'
                    || '0' <= run[i] <= '9' || run[i] == '_' || run[i] == '-';
            &&& fit ==> tag(role) == run && element_name(role) == Some(run)
            &&& !fit ==> tag(role) == "Node"@ && element_name(role) is None
        }),
{
    let run = pascal(role);
    if tag_shaped(run) {
        assert forall|i: int| 0 <= i < run.len() implies 'a' <= #[trigger] run[i] <= 'z' || 'A'
            <= run[i] <= 'Z' || '0' <= run[i] <= '9' || run[i] == '_' || run[i] == '-' by {
            if i > 0 {
                assert(alphanumeric(run[i]) || run[i] == '_' || run[i] == '-');
            }
        }
    }
}

/// A cached role goes by its entry in the role table: as it stands where the raw role is
/// asked for, and as an element name, where it makes one, for display. An index without an
/// entry is shown as such, so that two of them are told apart.
pub proof fn law_cached_roles_are_labelled(entry: Option<Seq<char>>, index: u32, other: u32)
    ensures
        entry is Some ==> {
            &&& raw_role_label(entry, index) == entry->0
            &&& role_label(entry, index) == (if element_name(entry->0) is Some {
                pascal(entry->0)
            } else {
                entry->0
            })
        },
        entry is None ==> {
            &&& raw_role_label(entry, index) == "unknown-role-"@ + text::decimal_int(index as int)
            &&& role_label(entry, index) == raw_role_label(entry, index)
            &&& index != other ==> role_label(None, index) != role_label(None, other)
        },
{
    if unknown_role(index) == unknown_role(other) {
        let front = "unknown-role-"@;
        assert(unknown_role(index).skip(front.len() as int) =~= text::decimal(index as nat));
        assert(unknown_role(other).skip(front.len() as int) =~= text::decimal(other as nat));
        text::law_numerals_differ(index as int, other as int);
    }
}

/// A toolkit attribute keeps its key where the key can name an attribute and is not one that
/// the snapshot uses itself.
pub proof fn law_fit_keys_are_kept(key: Seq<char>)
    requires
        key.len() > 0,
        'a' <= key[0] <= 'z' || 'A' <= key[0] <= 'Z' || key[0] == '_',
        forall|i: int|
            0 <= i < key.len() ==> 'a' <= #[trigger] key[i] <= 'z' || 'A' <= key[i] <= 'Z' || '0'
                <= key[i] <= '9' || key[i] == '_' || key[i] == '-' || key[i] == '.',
    ensures
        key != "name"@ && key != "role"@ && key != "_ref"@ ==> sanitized(key) == Some(key),
        key == "name"@ || key == "role"@ || key == "_ref"@ ==> sanitized(key) == Some(
            seq!['_'] + key,
        ),
{
    let mapped = key.map_values(|c: char| attr_char(c));
    assert forall|i: int| 0 <= i < key.len() implies mapped[i] == key[i] by {
        assert('a' <= key[i] <= 'z' || 'A' <= key[i] <= 'Z' || '0' <= key[i] <= '9' || key[i] == '_'
            || key[i] == '-' || key[i] == '.');
    }
    assert(mapped =~= key);
}

/// Only what cannot stand in an attribute name is replaced, each character by an underscore,
/// and only underscores are put in front.
pub proof fn law_keys_change_only_where_they_must(key: Seq<char>)
    requires
        key.len() > 0,
    ensures
        sanitized(key) matches Some(s) && {
            let shift = s.len() - key.len();
            &&& 0 <= shift <= 2
            &&& forall|i: int| 0 <= i < shift ==> #[trigger] s[i] == '_'
            &&& forall|i: int|
                0 <= i < key.len() ==> {
                    let fit = 'a' <= key[i] <= 'z' || 'A' <= key[i] <= 'Z' || '0' <= key[i] <= '9'
                        || key[i] == '-' || key[i] == '.';
                    #[trigger] s[shift + i] == (if fit {
                        key[i]
                    } else {
                        '_'
                    })
                }
        },
{
    let mapped = key.map_values(|c: char| attr_char(c));
    let started = if letter(mapped[0]) || mapped[0] == '_' {
        mapped
    } else {
        seq!['_'] + mapped
    };
    let s = sanitized(key)->0;
    let shift = s.len() - key.len();
    assert forall|i: int| 0 <= i < key.len() implies {
        let fit = 'a' <= key[i] <= 'z' || 'A' <= key[i] <= 'Z' || '0' <= key[i] <= '9' || key[i]
            == '-' || key[i] == '.';
        #[trigger] s[shift + i] == (if fit {
            key[i]
        } else {
            '_'
        })
    } by {
        assert(mapped[i] == attr_char(key[i]));
        assert(started[started.len() - key.len() + i] == mapped[i]);
        assert(s[shift + i] == started[started.len() - key.len() + i]);
    }
}

/// Every state is emitted, each once and under its own name in small letters.
pub proof fn law_every_state_is_emitted_once(s: State, t: State)
    ensures
        emitted().contains(s),
        emitted().len() == 17,
        emitted().no_duplicates(),
        s.attr() == t.attr() ==> s == t,
        state_attr(s.attr()),
{
    lemma_emitted(s);
    lemma_emitted(t);
    lemma_attr_names(s, t);
    let i = choose|i: int| 0 <= i < 17 && emitted()[i] == s;
    assert(emitted()[i].attr() == s.attr());
}

proof fn lemma_emitted(s: State)
    ensures
        exists|i: int| 0 <= i < 17 && emitted()[i] == s,
        emitted().contains(s),
        emitted().len() == 17,
        emitted().no_duplicates(),
{
    let e = emitted();
    assert(e[0] == State::Showing && e[1] == State::Visible && e[2] == State::Enabled && e[3]
        == State::Sensitive && e[4] == State::Focused && e[5] == State::Focusable && e[6]
        == State::Selected && e[7] == State::Selectable && e[8] == State::Checked && e[9]
        == State::Checkable && e[10] == State::Active && e[11] == State::Editable && e[12]
        == State::Expandable && e[13] == State::Expanded && e[14] == State::Collapsed && e[15]
        == State::Pressed && e[16] == State::Modal);
}

proof fn lemma_attr_names(s: State, t: State)
    ensures
        s.attr() == t.attr() ==> s == t,
        4 < s.attr().len() <= 10,
{
    reveal_strlit("showing");
    reveal_strlit("visible");
    reveal_strlit("enabled");
    reveal_strlit("sensitive");
    reveal_strlit("focused");
    reveal_strlit("focusable");
    reveal_strlit("selected");
    reveal_strlit("selectable");
    reveal_strlit("checked");
    reveal_strlit("checkable");
    reveal_strlit("active");
    reveal_strlit("editable");
    reveal_strlit("expandable");
    reveal_strlit("expanded");
    reveal_strlit("collapsed");
    reveal_strlit("pressed");
    reveal_strlit("modal");
    assert("showing"@[0] == 's' && "showing"@[1] == 'h');
    assert("visible"@[0] == 'v');
    assert("enabled"@[0] == 'e' && "enabled"@[1] == 'n');
    assert("sensitive"@[0] == 's' && "sensitive"@[2] == 'n');
    assert("focused"@[0] == 'f' && "focused"@.len() == 7);
    assert("focusable"@[0] == 'f' && "focusable"@.len() == 9);
    assert("selected"@[0] == 's' && "selected"@[2] == 'l' && "selected"@.len() == 8);
    assert("selectable"@[0] == 's' && "selectable"@[2] == 'l' && "selectable"@.len() == 10);
    assert("selected"@[1] == 'e' && "selectable"@[1] == 'e' && "sensitive"@[1] == 'e');
    assert("checked"@[0] == 'c' && "checked"@.len() == 7);
    assert("checkable"@[0] == 'c' && "checkable"@[1] == 'h' && "checkable"@.len() == 9);
    assert("active"@[0] == 'a');
    assert("editable"@[0] == 'e' && "editable"@[1] == 'd');
    assert("expandable"@[0] == 'e' && "expandable"@[1] == 'x' && "expandable"@.len() == 10);
    assert("expanded"@[0] == 'e' && "expanded"@[1] == 'x' && "expanded"@.len() == 8);
    assert("collapsed"@[0] == 'c' && "collapsed"@[1] == 'o');
    assert("pressed"@[0] == 'p');
    assert("modal"@[0] == 'm');
}

/// The states are called what they are.
pub proof fn law_state_names(s: State)
    ensures
        match s {
            State::Showing => s.attr() == "showing"@,
            State::Visible => s.attr() == "visible"@,
            State::Enabled => s.attr() == "enabled"@,
            State::Sensitive => s.attr() == "sensitive"@,
            State::Focused => s.attr() == "focused"@,
            State::Focusable => s.attr() == "focusable"@,
            State::Selected => s.attr() == "selected"@,
            State::Selectable => s.attr() == "selectable"@,
            State::Checked => s.attr() == "checked"@,
            State::Checkable => s.attr() == "checkable"@,
            State::Active => s.attr() == "active"@,
            State::Editable => s.attr() == "editable"@,
            State::Expandable => s.attr() == "expandable"@,
            State::Expanded => s.attr() == "expanded"@,
            State::Collapsed => s.attr() == "collapsed"@,
            State::Pressed => s.attr() == "pressed"@,
            State::Modal => s.attr() == "modal"@,
        },
{
}

/// The names that a set of states is emitted as are those of the states in it, each once.
pub proof fn law_set_states_are_named(set: Set<State>, s: State)
    ensures
        state_names(set, 17).contains(s.attr()) <==> set.contains(s),
        state_names(set, 17).no_duplicates(),
        forall|i: int|
            0 <= i < state_names(set, 17).len() ==> state_attr(#[trigger] state_names(set, 17)[i]),
{
    lemma_emitted(s);
    lemma_state_names(set, 17);
    let at = choose|i: int| 0 <= i < 17 && emitted()[i] == s;
    let names = state_names(set, 17);
    if set.contains(s) {
        assert(set.contains(emitted()[at]));
    }
    if names.contains(s.attr()) {
        let k = choose|k: int| 0 <= k < names.len() && names[k] == s.attr();
        assert(named_among(set, 17, names[k]));
        let i = choose|i: int|
            0 <= i < 17 && set.contains(#[trigger] emitted()[i]) && emitted()[i].attr() == names[k];
        lemma_attr_names(emitted()[i], s);
    }
    assert forall|k: int| 0 <= k < names.len() implies state_attr(#[trigger] names[k]) by {
        assert(named_among(set, 17, names[k]));
    }
}

spec fn named_among(set: Set<State>, n: nat, name: Seq<char>) -> bool {
    exists|i: int| 0 <= i < n && set.contains(#[trigger] emitted()[i]) && emitted()[i].attr() == name
}

proof fn lemma_state_names(set: Set<State>, n: nat)
    requires
        n <= 17,
    ensures
        state_names(set, n).no_duplicates(),
        forall|k: int|
            0 <= k < state_names(set, n).len() ==> named_among(
                set,
                n,
                #[trigger] state_names(set, n)[k],
            ),
        forall|i: int|
            0 <= i < n && set.contains(#[trigger] emitted()[i]) ==> state_names(set, n).contains(
                emitted()[i].attr(),
            ),
    decreases n,
{
    if n > 0 {
        let front = state_names(set, (n - 1) as nat);
        let names = state_names(set, n);
        let last = emitted()[n - 1];
        lemma_state_names(set, (n - 1) as nat);
        lemma_emitted(last);
        assert forall|k: int| 0 <= k < front.len() implies front[k] != last.attr() by {
            assert(named_among(set, (n - 1) as nat, front[k]));
            let i = choose|i: int|
                0 <= i < n - 1 && set.contains(#[trigger] emitted()[i]) && emitted()[i].attr()
                    == front[k];
            lemma_attr_names(emitted()[i], last);
            assert(emitted()[i] != emitted()[n - 1]);
        }
        assert forall|k: int| 0 <= k < names.len() implies named_among(
            set,
            n,
            #[trigger] names[k],
        ) by {
            if k < front.len() {
                assert(named_among(set, (n - 1) as nat, front[k]));
                let i = choose|i: int|
                    0 <= i < n - 1 && set.contains(#[trigger] emitted()[i]) && emitted()[i].attr()
                        == front[k];
                assert(set.contains(emitted()[i]) && emitted()[i].attr() == names[k]);
            } else {
                assert(set.contains(emitted()[n - 1]) && emitted()[n - 1].attr() == names[k]);
            }
        }
        assert forall|i: int|
            0 <= i < n && set.contains(#[trigger] emitted()[i]) implies names.contains(
            emitted()[i].attr(),
        ) by {
            if i < n - 1 {
                assert(front.contains(emitted()[i].attr()));
                let k = choose|k: int| 0 <= k < front.len() && front[k] == emitted()[i].attr();
                assert(names[k] == emitted()[i].attr());
            } else {
                assert(names[front.len() as int] == emitted()[i].attr());
            }
        }
    }
}

/// An error name says that the element is gone exactly where it mentions an unknown object
/// or service, a missing reply or a lost connection.
pub proof fn law_stale_names(name: Seq<char>, a: Seq<char>, b: Seq<char>)
    ensures
        stale_name(a + "UnknownObject"@ + b),
        stale_name(a + "ServiceUnknown"@ + b),
        stale_name(a + "NoReply"@ + b),
        stale_name(a + "Disconnected"@ + b),
        stale_name(name) ==> exists|x: Seq<char>, y: Seq<char>, word: Seq<char>|
            #[trigger] (x + word + y) == name && (word == "UnknownObject"@ || word
                == "ServiceUnknown"@ || word == "NoReply"@ || word == "Disconnected"@),
{
    text::law_occurs_between(a + "UnknownObject"@ + b, "UnknownObject"@);
    text::law_occurs_between(a + "ServiceUnknown"@ + b, "ServiceUnknown"@);
    text::law_occurs_between(a + "NoReply"@ + b, "NoReply"@);
    text::law_occurs_between(a + "Disconnected"@ + b, "Disconnected"@);
    if stale_name(name) {
        let word = if text::occurs(name, "UnknownObject"@) {
            "UnknownObject"@
        } else if text::occurs(name, "ServiceUnknown"@) {
            "ServiceUnknown"@
        } else if text::occurs(name, "NoReply"@) {
            "NoReply"@
        } else {
            "Disconnected"@
        };
        text::law_occurs_between(name, word);
        let (x, y) = choose|x: Seq<char>, y: Seq<char>| #[trigger] ((x + word) + y) == name;
        assert(x + word + y == name);
    }
}

/// A failed action is reported as staleness of the element it was meant for where the
/// transport timed out or the error name says so, and with the bus's own words otherwise.
pub proof fn law_failed_action_is_reported(
    xpath: Seq<char>,
    bus: Seq<char>,
    path: Seq<char>,
    failure: BusFailure,
)
    ensures
        ({
            let e = action_error(xpath, bus, path, failure);
            let stale = ErrorView::ElementStale { xpath, bus, path };
            match failure {
                BusFailure::TimedOut { text } => e == stale,
                BusFailure::Method { name, text } => if stale_name(name@) {
                    e == stale
                } else {
                    e == (ErrorView::Atspi { message: "dbus: "@ + text@, source: Some(text@) })
                },
                BusFailure::Other { text } => e == (ErrorView::Atspi {
                    message: "dbus: "@ + text@,
                    source: Some(text@),
                }),
            }
        }),
{
    lemma_dbus_prefix(failure.shown());
}

proof fn lemma_dbus_prefix(t: Seq<char>)
    ensures
        crate::error::atspi_caused("dbus"@, t) == (ErrorView::Atspi {
            message: "dbus: "@ + t,
            source: Some(t),
        }),
{
    reveal_strlit("dbus");
    reveal_strlit(": ");
    reveal_strlit("dbus: ");
    assert("dbus"@ + ": "@ + t =~= "dbus: "@ + t);
}

/// What an element answers is handed on as it is. A method error means that the element does
/// not offer the call, unless its name says that the element is gone; a failure of the bus is
/// an error, a timeout among them.
pub proof fn law_answers_are_told_apart(
    xpath: Seq<char>,
    bus: Seq<char>,
    path: Seq<char>,
    reply: Result<bool, BusFailure>,
)
    ensures
        ({
            let a = answered(xpath, bus, path, reply);
            match reply {
                Ok(granted) => a == Ok::<Option<bool>, ErrorView>(Some(granted)),
                Err(BusFailure::Method { name, text }) => if stale_name(name@) {
                    a == Err::<Option<bool>, ErrorView>(ErrorView::ElementStale { xpath, bus, path })
                } else {
                    a == Ok::<Option<bool>, ErrorView>(None)
                },
                Err(BusFailure::TimedOut { text }) => a == Err::<Option<bool>, ErrorView>(
                    ErrorView::Atspi { message: "dbus: "@ + text@, source: Some(text@) },
                ),
                Err(BusFailure::Other { text }) => a == Err::<Option<bool>, ErrorView>(
                    ErrorView::Atspi { message: "dbus: "@ + text@, source: Some(text@) },
                ),
            }
        }),
{
    if reply is Err {
        lemma_dbus_prefix(reply->Err_0.shown());
    }
}

/// A refusal tells which element refused.
pub proof fn law_refusal_names_the_element(request: Request, bus: Seq<char>, path: Seq<char>)
    ensures
        text::occurs(refusal(request, bus, path), bus + path),
        request matches Request::SelectChild(index) ==> text::occurs(
            refusal(request, bus, path),
            text::decimal_int(index as int),
        ),
{
    let r = refusal(request, bus, path);
    let who = bus + path;
    match request {
        Request::DoAction => {
            let (a, b) = (
                "do_action(0) returned false on "@,
                " — element may not support activation"@,
            );
            assert(r =~= (a + who) + b);
        },
        Request::GrabFocus => {
            let (a, b) = ("grab_focus returned false on "@, " — element not focusable"@);
            assert(r =~= (a + who) + b);
        },
        Request::SetText => {
            let (a, b) = (
                "set_text_contents returned false on "@,
                " — element rejected input"@,
            );
            assert(r =~= (a + who) + b);
        },
        Request::SelectChild(index) => {
            let n = text::decimal_int(index as int);
            let a = "select_child("@ + n + ") returned false on "@;
            let b =
                " — element may not implement the Selection interface or the index is out of range"@;
            assert(r =~= (a + who) + b);
            assert(r =~= ("select_child("@ + n) + (") returned false on "@ + who + b));
            text::law_occurs_between(r, n);
        },
    }
    text::law_occurs_between(r, who);
}

/// Bounds are what the element answered, position first; an element without an area, and one
/// that does not offer the call, has none.
pub proof fn law_bounds_are_what_was_answered(
    x: i32,
    y: i32,
    width: i32,
    height: i32,
    failure: BusFailure,
)
    ensures
        width > 0 && height > 0 ==> extents(Ok((x, y, width, height))) == Ok::<
            Option<Rect>,
            BusFailure,
        >(Some(Rect { x, y, width, height })),
        width == 0 || height == 0 || (width < 0 && height < 0) ==> extents(
            Ok((x, y, width, height)),
        ) == Ok::<Option<Rect>, BusFailure>(None),
        width > 0 && height < 0 || width < 0 && height > 0 ==> extents(Ok((x, y, width, height)))
            == Ok::<Option<Rect>, BusFailure>(Some(Rect { x, y, width, height })),
        failure is Method ==> extents(Err(failure)) == Ok::<Option<Rect>, BusFailure>(None),
        !(failure is Method) ==> extents(Err(failure)) == Err::<Option<Rect>, BusFailure>(failure),
{
}

/// A reference that carries a bus name leads to that bus, and any other one stays on the bus
/// it was read from.
pub proof fn law_references_stay_on_their_bus(bus: Seq<char>, own: Seq<char>)
    ensures
        bus.len() > 0 ==> bus_of(Some(bus), own) == bus,
        bus_of(Some(Seq::empty()), own) == own,
        bus_of(None, own) == own,
{
}

/// A text that could not be read or is empty contributes nothing to a label; any other is
/// put behind the others, with one space between two.
pub proof fn law_labels_are_joined(labels: Seq<Option<Seq<char>>>, t: Seq<char>)
    requires
        t.len() > 0,
    ensures
        joined(Seq::empty()).len() == 0,
        joined(labels.push(None)) == joined(labels),
        joined(labels.push(Some(Seq::empty()))) == joined(labels),
        joined(labels).len() == 0 ==> joined(labels.push(Some(t))) == t,
        joined(labels).len() > 0 ==> joined(labels.push(Some(t))) == joined(labels).push(' ') + t,
{
    reveal_strlit(" ");
    assert(labels.push(None).drop_last() =~= labels);
    assert(labels.push(Some(Seq::empty())).drop_last() =~= labels);
    assert(labels.push(Some(t)).drop_last() =~= labels);
    if joined(labels).len() > 0 {
        assert(joined(labels.push(Some(t))) =~= joined(labels).push(' ') + t);
    }
}

/// What the snapshot emits itself is no state, and a toolkit attribute takes none of the
/// names of the role, the name and the reference.
pub proof fn law_builtin_names(key: Seq<char>)
    ensures
        builtin(key) <==> key == "role"@ || key == "name"@ || key == "description"@ || key
            == "bbox"@ || key == "_ref"@,
        builtin(key) ==> !state_attr(key),
        sanitized(key) matches Some(s) ==> s != "role"@ && s != "name"@ && s != "_ref"@,
{
    law_sanitized_is_attribute_name(key);
    reveal_strlit("role");
    reveal_strlit("name");
    reveal_strlit("description");
    reveal_strlit("bbox");
    reveal_strlit("_ref");
    if builtin(key) && state_attr(key) {
        let i = choose|i: int| 0 <= i < 17 && (#[trigger] emitted()[i]).attr() == key;
        lemma_attr_names(emitted()[i], emitted()[i]);
        lemma_description_is_no_state(emitted()[i]);
    }
}

proof fn lemma_description_is_no_state(s: State)
    ensures
        s.attr() != "description"@,
{
    reveal_strlit("description");
    assert("description"@.len() == 11);
    lemma_attr_names(s, s);
}

/// A request that was granted is performed, one that was denied is an outcome of its own, and
/// one that the element does not know is another; only a stale element and a bus that fails are
/// errors.
pub proof fn law_replies_are_outcomes(
    xpath: Seq<char>,
    bus: Seq<char>,
    path: Seq<char>,
    failure: BusFailure,
)
    ensures
        action_answer(xpath, bus, path, Ok(true)) == Ok::<ActionOutcome, ErrorView>(
            ActionOutcome::Performed,
        ),
        action_answer(xpath, bus, path, Ok(false)) == Ok::<ActionOutcome, ErrorView>(
            ActionOutcome::Refused,
        ),
        focus_answer(xpath, bus, path, Ok(true)) == Ok::<FocusOutcome, ErrorView>(
            FocusOutcome::Granted,
        ),
        focus_answer(xpath, bus, path, Ok(false)) == Ok::<FocusOutcome, ErrorView>(
            FocusOutcome::Rejected,
        ),
        failure matches BusFailure::Method { name, text } ==> if stale_name(name@) {
            &&& action_answer(xpath, bus, path, Err(failure)) == Err::<ActionOutcome, ErrorView>(
                ErrorView::ElementStale { xpath, bus, path },
            )
            &&& focus_answer(xpath, bus, path, Err(failure)) == Err::<FocusOutcome, ErrorView>(
                ErrorView::ElementStale { xpath, bus, path },
            )
        } else {
            &&& action_answer(xpath, bus, path, Err(failure)) == Ok::<ActionOutcome, ErrorView>(
                ActionOutcome::NotSupported,
            )
            &&& focus_answer(xpath, bus, path, Err(failure)) == Ok::<FocusOutcome, ErrorView>(
                FocusOutcome::NotSupported,
            )
        },
        !(failure is Method) ==> {
            let shown = failure.shown();
            let e = ErrorView::Atspi { message: "dbus: "@ + shown, source: Some(shown) };
            &&& action_answer(xpath, bus, path, Err(failure)) == Err::<ActionOutcome, ErrorView>(e)
            &&& focus_answer(xpath, bus, path, Err(failure)) == Err::<FocusOutcome, ErrorView>(e)
        },
{
    law_answers_are_told_apart(xpath, bus, path, Err(failure));
}

/// A request that has to be granted succeeds exactly where the reply grants it; a denial is an
/// error with its own message and no cause, and a failed call is the failure's error.
pub proof fn law_request_has_to_be_granted(
    request: Request,
    xpath: Seq<char>,
    bus: Seq<char>,
    path: Seq<char>,
    reply: Result<bool, BusFailure>,
)
    ensures
        request_answer(request, xpath, bus, path, reply) is Ok <==> reply == Ok::<bool, BusFailure>(
            true,
        ),
        request_answer(request, xpath, bus, path, Ok(false)) == Err::<(), ErrorView>(
            ErrorView::Atspi { message: refusal(request, bus, path), source: None },
        ),
        reply matches Err(f) ==> request_answer(request, xpath, bus, path, reply) == Err::<
            (),
            ErrorView,
        >(action_error(xpath, bus, path, f)),
{
}

/// Only the error of a method is tolerated; a value and any other failure stay what they are.
pub proof fn law_only_method_errors_are_tolerated<T>(
    value: T,
    default: T,
    name: String,
    text: String,
)
    ensures
        tolerated(Ok(value), default) == Ok::<T, BusFailure>(value),
        tolerated(Err(BusFailure::Method { name, text }), default) == Ok::<T, BusFailure>(default),
        tolerated(Err(BusFailure::TimedOut { text }), default) == Err::<T, BusFailure>(
            BusFailure::TimedOut { text },
        ),
        tolerated(Err(BusFailure::Other { text }), default) == Err::<T, BusFailure>(
            BusFailure::Other { text },
        ),
{
}

/// The characters that mean something in a document are written as references to their names,
/// tabulators and line ends as they are, and other control characters not at all.
pub proof fn law_escaped_characters(c: char)
    ensures
        escaped(seq!['<']) == seq!['&', 'l', 't', ';'],
        escaped(seq!['>']) == seq!['&', 'g', 't', ';'],
        escaped(seq!['&']) == seq!['&', 'a', 'm', 'p', ';'],
        escaped(seq!['"']) == seq!['&', 'q', 'u', 'o', 't', ';'],
        escaped(seq!['\'']) == seq!['&', 'a', 'p', 'o', 's', ';'],
        escaped(seq!['\t']) == seq!['\t'],
        escaped(seq!['\n']) == seq!['\n'],
        escaped(seq!['\r']) == seq!['\r'],
        (c as u32) < 0x20 && c != '\t' && c != '\n' && c != '\r' ==> escaped(seq![c])
            == Seq::<char>::empty(),
{
    reveal_strlit("&lt;");
    reveal_strlit("&gt;");
    reveal_strlit("&amp;");
    reveal_strlit("&quot;");
    reveal_strlit("&apos;");
    lemma_escaped_one('<');
    lemma_escaped_one('>');
    lemma_escaped_one('&');
    lemma_escaped_one('"');
    lemma_escaped_one('\'');
    lemma_escaped_one('\t');
    lemma_escaped_one('\n');
    lemma_escaped_one('\r');
    lemma_escaped_one(c);
}

proof fn lemma_escaped_one(c: char)
    ensures
        escaped(seq![c]) =~= escaped_char(c),
{
    let one = seq![c];
    assert(one.drop_last() =~= Seq::empty());
    reveal_with_fuel(escaped, 2);
}

/// A refusal says what was asked for, of which element, and what that suggests.
pub proof fn law_refusals_say_what_was_asked(bus: Seq<char>, path: Seq<char>, index: i32)
    ensures
        refusal(Request::DoAction, bus, path) == "do_action(0) returned false on "@ + bus + path
            + " — element may not support activation"@,
        refusal(Request::GrabFocus, bus, path) == "grab_focus returned false on "@ + bus + path
            + " — element not focusable"@,
        refusal(Request::SetText, bus, path) == "set_text_contents returned false on "@ + bus + path
            + " — element rejected input"@,
        refusal(Request::SelectChild(index), bus, path) == "select_child("@ + text::decimal_int(
            index as int,
        ) + ") returned false on "@ + bus + path
            + " — element may not implement the Selection interface or the index is out of range"@,
{
}

} // verus!
