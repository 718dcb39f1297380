//! Driving GTK applications through the action groups they export on the session
//! bus.
use crate::atspi;
use crate::error::{self, Error, ErrorView};
use crate::text::{
    self, chars_of, debug_quoted, decimal_u64, is_white_space, same_text,
    split_once_at, text_of,
};
use vstd::prelude::*;
use vstd::string::*;

verus! {

/// The interface that action groups are exported on.
pub const GTK_ACTIONS_IFACE: &'static str = "org.gtk.Actions";

/// How many times the bus is scanned for the application before giving up.
pub const DISCOVERY_ATTEMPTS: usize = 5;

/// Delay between two scans, in milliseconds.
pub const DISCOVERY_INTERVAL_MS: u64 = 100;

/// Where an application exports its actions.
#[derive(Debug, Clone)]
pub struct GtkApplicationAddress {
    /// The well-known bus name the application owns.
    pub bus_name: String,
    /// Base object path derived from the bus name.
    pub base_path: String,
}

/// The object path of a bus name: a slash, then the name with slashes for dots and
/// underscores for hyphens.
pub open spec fn base_path(bus_name: Seq<char>) -> Seq<char> {
    seq!['/'] + bus_name.map_values(|c: char| path_char(c))
}

/// What stands for `c` in an object path.
pub open spec fn path_char(c: char) -> char {
    if c == '.' {
        '/'
    } else if c == '-' {
        '_'
    } else {
        c
    }
}

/// Derives the object path that an application is exported at.
pub fn base_path_for(bus_name: &str) -> (r: String)
    ensures
        r@ == base_path(bus_name@),
{
    let cs = chars_of(bus_name);
    let ghost mapped = bus_name@.map_values(|c: char| path_char(c));
    let mut path = String::new();
    path.push('/');
    let mut i: usize = 0;
    assert(path@ =~= seq!['/'] + mapped.take(0));
    while i < cs.len()
        invariant
            cs@ == bus_name@,
            mapped == bus_name@.map_values(|c: char| path_char(c)),
            i <= cs.len(),
            path@ == seq!['/'] + mapped.take(i as int),
        decreases cs.len() - i,
    {
        let c = cs[i];
        if c == '.' {
            path.push('/');
        } else if c == '-' {
            path.push('_');
        } else {
            path.push(c);
        }
        assert(path@ =~= seq!['/'] + mapped.take(i + 1));
        i = i + 1;
    }
    assert(mapped.take(i as int) =~= mapped);
    path
}

/// The address of the application that owns a bus name.
pub fn address_for(bus_name: &str) -> (r: GtkApplicationAddress)
    ensures
        r.bus_name@ == bus_name@,
        r.base_path@ == base_path(bus_name@),
{
    GtkApplicationAddress { bus_name: bus_name.to_string(), base_path: base_path_for(bus_name) }
}

/// Whether a bus name can be an application's: neither a unique name nor the bus
/// daemon's own.
pub fn is_candidate_name(name: &str) -> (r: bool)
    ensures
        r == candidate(name@),
{
    let cs = chars_of(name);
    !((cs.len() > 0 && cs[0] == ':') || same_text(name, "org.freedesktop.DBus"))
}

// ── Discovery ───────────────────────────────────────────────────────────────

/// What to do after a scan for the application.
pub enum DiscoveryAction {
    /// Scan again after [`DISCOVERY_INTERVAL_MS`].
    Rescan,
    /// Give up.
    Fail(Error),
}

/// What one scan for the application does next.
#[derive(Debug)]
pub enum ScanStep {
    /// Ask for the process that owns this bus name.
    AskOwner(String),
    /// Ask the application at this address for its actions.
    AskActions(GtkApplicationAddress),
    /// The application is found.
    Found(GtkApplicationAddress),
    /// No name is left.
    Exhausted,
}

/// The mathematical value of a [`ScanStep`]: addresses by their bus names.
#[verifier::ext_equal]
pub enum ScanView {
    AskOwner(Seq<char>),
    AskActions(Seq<char>),
    Found(Seq<char>),
    Exhausted,
}

/// Whether an address is that of the application that owns a bus name.
pub open spec fn addresses(a: GtkApplicationAddress, bus_name: Seq<char>) -> bool {
    a.bus_name@ == bus_name && a.base_path@ == base_path(bus_name)
}

/// Whether `step` is the step that `v` stands for.
pub open spec fn is_step(step: ScanStep, v: ScanView) -> bool {
    match v {
        ScanView::AskOwner(n) => step matches ScanStep::AskOwner(m) && m@ == n,
        ScanView::AskActions(n) => step matches ScanStep::AskActions(a) && addresses(a, n),
        ScanView::Found(n) => step matches ScanStep::Found(a) && addresses(a, n),
        ScanView::Exhausted => step is Exhausted,
    }
}

/// Whether a bus name can be an application's.
pub open spec fn candidate(name: Seq<char>) -> bool {
    !((name.len() > 0 && name[0] == ':') || name == "org.freedesktop.DBus"@)
}

/// The names among which an application can be.
pub open spec fn candidates(names: Seq<Seq<char>>) -> Seq<Seq<char>>
    decreases names.len(),
{
    if names.len() == 0 {
        seq![]
    } else if candidate(names.last()) {
        candidates(names.drop_last()).push(names.last())
    } else {
        candidates(names.drop_last())
    }
}

/// How far a scan has come with the name it is at.
#[derive(Debug, Clone, Copy, PartialEq, Eq, Structural)]
pub enum ScanPhase {
    /// Its owner is not known.
    Unknown,
    /// It belongs to the process; whether it exports actions is not known.
    Owned,
    /// It is the application's.
    Confirmed,
}

/// One scan over the names on the bus for the application of a process: a name that
/// the process owns counts only where it answers for actions.
#[derive(Debug)]
pub struct AppScan {
    names: Vec<String>,
    pid: u32,
    at: usize,
    phase: ScanPhase,
}

/// The mathematical value of an [`AppScan`].
#[verifier::ext_equal]
pub struct AppScanView {
    /// The names to look at.
    pub names: Seq<Seq<char>>,
    pub pid: u32,
    /// Names that are behind.
    pub at: nat,
    pub phase: ScanPhase,
}

impl AppScanView {
    /// The step that is due.
    pub open spec fn due(self) -> ScanView {
        if self.at >= self.names.len() {
            ScanView::Exhausted
        } else {
            let n = self.names[self.at as int];
            match self.phase {
                ScanPhase::Unknown => ScanView::AskOwner(n),
                ScanPhase::Owned => ScanView::AskActions(n),
                ScanPhase::Confirmed => ScanView::Found(n),
            }
        }
    }

    /// The state after the bus told the owner of the name that is due.
    pub open spec fn owned_by(self, pid: Option<u32>) -> AppScanView {
        if pid == Some(self.pid) {
            AppScanView { phase: ScanPhase::Owned, ..self }
        } else {
            self.onward()
        }
    }

    /// The state after the application at the name that is due was asked for its actions.
    pub open spec fn answered_by(self, answered: bool) -> AppScanView {
        if answered {
            AppScanView { phase: ScanPhase::Confirmed, ..self }
        } else {
            self.onward()
        }
    }

    /// The state with the next name due.
    pub open spec fn onward(self) -> AppScanView {
        AppScanView { at: self.at + 1, phase: ScanPhase::Unknown, ..self }
    }
}

impl View for AppScan {
    type V = AppScanView;

    closed spec fn view(&self) -> AppScanView {
        AppScanView {
            names: atspi::texts(self.names@),
            pid: self.pid,
            at: self.at as nat,
            phase: self.phase,
        }
    }
}

impl AppScan {
    /// A scan over the names on the bus for the application of process `pid`.
    pub fn new(names: &Vec<String>, pid: u32) -> (r: Self)
        ensures
            r@ == (AppScanView {
                names: candidates(atspi::texts(names@)),
                pid,
                at: 0,
                phase: ScanPhase::Unknown,
            }),
    {
        let ghost all = atspi::texts(names@);
        let mut kept: Vec<String> = Vec::new();
        let mut i: usize = 0;
        assert(all.take(0) =~= Seq::<Seq<char>>::empty());
        assert(atspi::texts(kept@) =~= Seq::<Seq<char>>::empty());
        while i < names.len()
            invariant
                all == atspi::texts(names@),
                i <= names.len(),
                atspi::texts(kept@) == candidates(all.take(i as int)),
            decreases names.len() - i,
        {
            assert(all.take(i + 1).drop_last() =~= all.take(i as int));
            assert(all.take(i + 1).last() == names@[i as int]@);
            if is_candidate_name(names[i].as_str()) {
                let ghost before = kept@;
                let n = names[i].clone();
                let ghost v = n@;
                kept.push(n);
                assert(atspi::texts(kept@) =~= atspi::texts(before).push(v));
            }
            i = i + 1;
        }
        assert(all.take(i as int) =~= all);
        AppScan { names: kept, pid, at: 0, phase: ScanPhase::Unknown }
    }

    /// What to do next.
    pub fn next(&self) -> (r: ScanStep)
        ensures
            is_step(r, self@.due()),
    {
        if self.at >= self.names.len() {
            return ScanStep::Exhausted;
        }
        let name = self.names[self.at].as_str();
        match self.phase {
            ScanPhase::Unknown => ScanStep::AskOwner(name.to_string()),
            ScanPhase::Owned => ScanStep::AskActions(address_for(name)),
            ScanPhase::Confirmed => ScanStep::Found(address_for(name)),
        }
    }

    /// Takes in the process that owns the name asked for, where it could be told.
    pub fn owner(&mut self, pid: Option<u32>)
        requires
            old(self)@.due() is AskOwner,
        ensures
            final(self)@ == (if pid == Some(old(self)@.pid) {
                AppScanView { phase: ScanPhase::Owned, ..old(self)@ }
            } else {
                old(self)@.onward()
            }),
            final(self)@ == old(self)@.owned_by(pid),
    {
        assert(self.at < self.names.len());
        let own = match pid {
            Some(p) => p == self.pid,
            None => false,
        };
        if own {
            self.phase = ScanPhase::Owned;
        } else {
            self.at = self.at + 1;
        }
    }

    /// Takes in whether the application at the address asked answered for its actions.
    pub fn actions(&mut self, answered: bool)
        requires
            old(self)@.due() is AskActions,
        ensures
            final(self)@ == (if answered {
                AppScanView { phase: ScanPhase::Confirmed, ..old(self)@ }
            } else {
                old(self)@.onward()
            }),
            final(self)@ == old(self)@.answered_by(answered),
    {
        assert(self.at < self.names.len());
        if answered {
            self.phase = ScanPhase::Confirmed;
        } else {
            self.phase = ScanPhase::Unknown;
            self.at = self.at + 1;
        }
    }
}

/// The state of the search for the application: scans made, and the last error.
pub struct Discovery {
    scans: usize,
    last: Option<Error>,
}

/// The mathematical value of a [`Discovery`].
#[verifier::ext_equal]
pub struct DiscoveryView {
    pub scans: nat,
    pub last: Option<ErrorView>,
}

impl View for Discovery {
    type V = DiscoveryView;

    closed spec fn view(&self) -> DiscoveryView {
        DiscoveryView { scans: self.scans as nat, last: error::optional_error(self.last) }
    }
}

impl DiscoveryView {
    /// The error that is reported if the search ends after one more scan, which met `failure`.
    pub open spec fn latest(self, failure: Option<ErrorView>) -> Option<ErrorView> {
        match failure {
            Some(e) => Some(e),
            None => self.last,
        }
    }

    /// What the search ends with after one more scan, which met `failure`; `None` where the bus
    /// is scanned again.
    pub open spec fn ended_by(self, failure: Option<ErrorView>, pid: u32) -> Option<ErrorView> {
        if self.scans + 1 < DISCOVERY_ATTEMPTS {
            None
        } else {
            match self.latest(failure) {
                Some(e) => Some(e),
                None => Some(no_application(pid)),
            }
        }
    }
}

/// The error of a search that found no application and met no other error.
pub open spec fn no_application(pid: u32) -> ErrorView {
    ErrorView::Atspi {
        message: "org.gtk.Actions: no application owned by pid "@ + text::decimal(pid as nat)
            + " found on the session bus (the app may not be a registered GApplication with an id)"@,
        source: None,
    }
}

impl Discovery {
    /// A search with no scan made.
    pub fn new() -> (r: Self)
        ensures
            r@ == (DiscoveryView { scans: 0, last: None }),
    {
        Discovery { scans: 0, last: None }
    }

    /// Takes in a scan that did not find the application, with the error it met,
    /// if any. The last error met by any scan is the one that is reported.
    pub fn missed(&mut self, failure: Option<Error>, pid: u32) -> (r: DiscoveryAction)
        requires
            old(self)@.scans < DISCOVERY_ATTEMPTS,
        ensures
            final(self)@.scans == old(self)@.scans + 1,
            ({
                let last = match error::optional_error(failure) {
                    Some(e) => Some(e),
                    None => old(self)@.last,
                };
                if old(self)@.scans + 1 < DISCOVERY_ATTEMPTS {
                    &&& r is Rescan
                    &&& final(self)@.last == last
                } else {
                    r matches DiscoveryAction::Fail(e) && e@ == (match last {
                        Some(e) => e,
                        None => no_application(pid),
                    })
                }
            }),
            match old(self)@.ended_by(error::optional_error(failure), pid) {
                None => r is Rescan && final(self)@.last == old(self)@.latest(
                    error::optional_error(failure),
                ),
                Some(f) => r matches DiscoveryAction::Fail(e) && e@ == f,
            },
    {
        self.scans = self.scans + 1;
        match failure {
            Some(e) => {
                self.last = Some(e);
            },
            None => {},
        }
        if self.scans < DISCOVERY_ATTEMPTS {
            return DiscoveryAction::Rescan;
        }
        match self.last.take() {
            Some(e) => DiscoveryAction::Fail(e),
            None => {
                let mut m = "org.gtk.Actions: no application owned by pid ".to_string();
                m.append(decimal_u64(pid as u64).as_str());
                m.append(
                    " found on the session bus (the app may not be a registered GApplication with an id)",
                );
                DiscoveryAction::Fail(Error::atspi(m.as_str()))
            },
        }
    }
}

// ── Introspection ───────────────────────────────────────────────────────────

/// The text between the quote that `s` begins with and the next one like it.
pub open spec fn quoted_value(s: Seq<char>) -> Option<Seq<char>> {
    if s.len() == 0 || !(s[0] == '"' || s[0] == '\'') {
        None
    } else {
        let end = text::first_index(s.skip(1), s[0]);
        if end < s.len() - 1 {
            Some(s.skip(1).take(end))
        } else {
            None
        }
    }
}

/// The value of an attribute in the body of a tag: the quoted text behind the
/// first place where white space and the attribute's name with an equals sign
/// stand.
pub open spec fn attr_value(tag: Seq<char>, attr: Seq<char>) -> Option<Seq<char>>
    decreases tag.len(),
{
    if tag.len() == 0 {
        None
    } else if text::white_space(tag[0]) && atspi::begins(tag.skip(1), attr + "="@) {
        quoted_value(tag.skip(attr.len() as int + 2))
    } else {
        attr_value(tag.skip(1), attr)
    }
}

/// The names of the child nodes in an introspection document, read from the start
/// of each `<node` on.
pub open spec fn child_names(s: Seq<char>) -> Seq<Seq<char>>
    decreases s.len(),
{
    if s.len() == 0 {
        Seq::empty()
    } else if s.len() >= 5 && atspi::begins(s, "<node"@) {
        let after = s.skip(5);
        if after.len() > 0 && text::white_space(after[0]) {
            let end = text::first_index(after, '>');
            if end < after.len() {
                match attr_value(after.take(end), "name"@) {
                    Some(n) => seq![n] + child_names(after),
                    None => child_names(after),
                }
            } else {
                Seq::empty()
            }
        } else {
            child_names(after)
        }
    } else {
        child_names(s.skip(1))
    }
}

fn begins_at(cs: &Vec<char>, i: usize, p: &Vec<char>) -> (r: bool)
    requires
        i <= cs.len(),
    ensures
        r == atspi::begins(cs@.skip(i as int), p@),
{
    if cs.len() - i < p.len() {
        return false;
    }
    let ghost s = cs@.skip(i as int);
    let mut k: usize = 0;
    while k < p.len()
        invariant
            s == cs@.skip(i as int),
            i + p.len() <= cs.len(),
            k <= p.len(),
            forall|j: int| 0 <= j < k ==> s[j] == p@[j],
        decreases p.len() - k,
    {
        if cs[i + k] != p[k] {
            assert(s.take(p@.len() as int)[k as int] != p@[k as int]);
            return false;
        }
        k = k + 1;
    }
    assert(s.take(p@.len() as int) =~= p@);
    true
}

fn index_from(cs: &Vec<char>, from: usize, c: char) -> (r: usize)
    requires
        from <= cs.len(),
    ensures
        from <= r <= cs.len(),
        r - from == text::first_index(cs@.skip(from as int), c),
{
    let ghost s = cs@.skip(from as int);
    let mut i: usize = from;
    while i < cs.len() && cs[i] != c
        invariant
            s == cs@.skip(from as int),
            from <= i <= cs.len(),
            forall|k: int| 0 <= k < i - from ==> s[k] != c,
        decreases cs.len() - i,
    {
        i = i + 1;
    }
    proof {
        text::lemma_first_index_is(s, c, i - from);
    }
    i
}

fn quoted_from(cs: &Vec<char>, from: usize) -> (r: Option<String>)
    requires
        from <= cs.len(),
    ensures
        error::optional(r) == quoted_value(cs@.skip(from as int)),
{
    let ghost s = cs@.skip(from as int);
    if from == cs.len() {
        return None;
    }
    let q = cs[from];
    if !(q == '"' || q == '\'') {
        return None;
    }
    let end = index_from(cs, from + 1, q);
    assert(s.skip(1) =~= cs@.skip(from + 1));
    if end < cs.len() {
        assert(cs@.subrange(from + 1, end as int) =~= s.skip(1).take(end - from - 1));
        Some(text_of(cs, from + 1, end))
    } else {
        None
    }
}

fn needle_of(attr: &str) -> (r: Vec<char>)
    ensures
        r@ == attr@ + "="@,
{
    let mut s = attr.to_string();
    s.append("=");
    chars_of(s.as_str())
}

/// Reads the value of `attr="…"`, in either kind of quotes, from the body of a tag.
/// White space has to stand before the name, so that it is not the end of a longer
/// one.
pub fn extract_attr_value(tag: &str, attr: &str) -> (r: Option<String>)
    ensures
        error::optional(r) == attr_value(tag@, attr@),
{
    attr_value_in(&chars_of(tag), attr)
}

fn attr_value_in(cs: &Vec<char>, attr: &str) -> (r: Option<String>)
    ensures
        error::optional(r) == attr_value(cs@, attr@),
{
    let needle = needle_of(attr);
    proof {
        reveal_strlit("=");
    }
    let mut i: usize = 0;
    assert(cs@.skip(0) =~= cs@);
    while i < cs.len()
        invariant
            needle@ == attr@ + "="@,
            needle@.len() == attr@.len() + 1,
            i <= cs.len(),
            attr_value(cs@, attr@) == attr_value(cs@.skip(i as int), attr@),
        decreases cs.len() - i,
    {
        let ghost here = cs@.skip(i as int);
        assert(here.skip(1) =~= cs@.skip(i + 1));
        if is_white_space(cs[i]) && begins_at(cs, i + 1, &needle) {
            let from = i + 1 + needle.len();
            assert(here.skip(attr@.len() as int + 2) =~= cs@.skip(from as int));
            return quoted_from(cs, from);
        }
        i = i + 1;
    }
    None
}

/// Extracts the names of the child nodes from an introspection document. The root
/// node, which has no name, and interfaces are passed over.
pub fn parse_child_node_names(introspect_xml: &str) -> (r: Vec<String>)
    ensures
        atspi::texts(r@) == child_names(introspect_xml@),
{
    let cs = chars_of(introspect_xml);
    let open = chars_of("<node");
    proof {
        reveal_strlit("<node");
    }
    let mut out: Vec<String> = Vec::new();
    let mut i: usize = 0;
    assert(cs@.skip(0) =~= cs@);
    assert(atspi::texts(out@) + child_names(cs@.skip(0)) =~= child_names(cs@));
    while i < cs.len()
        invariant
            cs@ == introspect_xml@,
            open@ == "<node"@,
            open@.len() == 5,
            i <= cs.len(),
            atspi::texts(out@) + child_names(cs@.skip(i as int)) == child_names(cs@),
        decreases cs.len() - i,
    {
        let ghost here = cs@.skip(i as int);
        if begins_at(&cs, i, &open) {
            let from = i + 5;
            let ghost after = cs@.skip(from as int);
            assert(here.skip(5) =~= after);
            if from < cs.len() && is_white_space(cs[from]) {
                let end = index_from(&cs, from, '>');
                if end == cs.len() {
                    assert(atspi::texts(out@) + child_names(here) =~= atspi::texts(out@));
                    return out;
                }
                let mut tag: Vec<char> = Vec::new();
                let mut k: usize = from;
                while k < end
                    invariant
                        from <= k <= end <= cs.len(),
                        tag@ == cs@.subrange(from as int, k as int),
                    decreases end - k,
                {
                    tag.push(cs[k]);
                    k = k + 1;
                }
                assert(tag@ =~= after.take(end - from));
                match attr_value_in(&tag, "name") {
                    Some(n) => {
                        let ghost before = out@;
                        let ghost name = n@;
                        out.push(n);
                        assert(atspi::texts(out@) =~= atspi::texts(before).push(name));
                        assert(atspi::texts(out@) + child_names(after) =~= atspi::texts(before) + (
                        seq![name] + child_names(after)));
                    },
                    None => {},
                }
            }
            i = from;
        } else {
            assert(here.skip(1) =~= cs@.skip(i + 1));
            i = i + 1;
        }
    }
    assert(cs@.skip(i as int) =~= Seq::empty());
    assert(atspi::texts(out@) + child_names(cs@.skip(i as int)) =~= atspi::texts(out@));
    out
}

/// The object paths of an application's windows, given the names of the child
/// nodes below its window root: `window/1` where there are none.
pub open spec fn window_path_list(base: Seq<char>, children: Seq<Seq<char>>) -> Seq<Seq<char>> {
    let root = base + "/window"@;
    if children.len() == 0 {
        seq![root + "/1"@]
    } else {
        children.map_values(|c: Seq<char>| root + "/"@ + c)
    }
}

/// The object paths to look for window actions at. `introspection` is the
/// introspection document of the window root, where there is one.
pub fn window_paths(base: &str, introspection: Option<String>) -> (r: Vec<String>)
    ensures
        atspi::texts(r@) == window_path_list(
            base@,
            match introspection {
                Some(xml) => child_names(xml@),
                None => Seq::empty(),
            },
        ),
{
    let mut root = base.to_string();
    root.append("/window");
    let names = match &introspection {
        Some(xml) => parse_child_node_names(xml.as_str()),
        None => Vec::new(),
    };
    let ghost children = atspi::texts(names@);
    assert(introspection is None ==> children =~= Seq::empty());
    let mut out: Vec<String> = Vec::new();
    let mut i: usize = 0;
    while i < names.len()
        invariant
            children == atspi::texts(names@),
            i <= names.len(),
            root@ == base@ + "/window"@,
            atspi::texts(out@) =~= children.take(i as int).map_values(
                |c: Seq<char>| root@ + "/"@ + c,
            ),
        decreases names.len() - i,
    {
        let mut p = root.clone();
        p.append("/");
        p.append(names[i].as_str());
        let ghost before = out@;
        out.push(p);
        proof {
            let f = |c: Seq<char>| root@ + "/"@ + c;
            assert(atspi::texts(out@) =~= atspi::texts(before).push(f(children[i as int])));
            assert(children.take(i + 1).map_values(f) =~= children.take(i as int).map_values(f).push(
                f(children[i as int]),
            ));
        }
        i = i + 1;
    }
    assert(children.take(i as int) =~= children);
    if out.len() == 0 {
        root.append("/1");
        out.push(root);
        assert(children.len() == 0) by {
            assert(children.take(i as int).map_values(|c: Seq<char>| root@ + "/"@ + c).len()
                == children.len());
        }
        assert(atspi::texts(out@) =~= window_path_list(base@, children));
    }
    out
}

// ── Actions ─────────────────────────────────────────────────────────────────

/// A parsed action name: `group.action` or `group.action::target`.
#[derive(Debug, Clone)]
pub struct ParsedAction {
    /// The group prefix.
    pub group: String,
    /// The action name without its group.
    pub name: String,
    /// String target from the `::target` suffix, if there is one.
    pub target: Option<String>,
}

/// The mathematical value of a [`ParsedAction`].
#[verifier::ext_equal]
pub struct ActionView {
    pub group: Seq<char>,
    pub name: Seq<char>,
    pub target: Option<Seq<char>>,
}

impl View for ParsedAction {
    type V = ActionView;

    open spec fn view(&self) -> ActionView {
        ActionView { group: self.group@, name: self.name@, target: error::optional(self.target) }
    }
}

/// The position of the first `::`.
pub open spec fn double_colon(s: Seq<char>) -> Option<int>
    decreases s.len(),
{
    if s.len() < 2 {
        None
    } else if s[0] == ':' && s[1] == ':' {
        Some(0)
    } else {
        match double_colon(s.skip(1)) {
            Some(i) => Some(i + 1),
            None => None,
        }
    }
}

/// An action's full name and its target.
pub open spec fn detailed(action: Seq<char>) -> (Seq<char>, Option<Seq<char>>) {
    match double_colon(action) {
        Some(i) => (action.take(i), Some(action.skip(i + 2))),
        None => (action, None),
    }
}

/// The error of an action name without a group.
pub open spec fn missing_group(action: Seq<char>) -> ErrorView {
    ErrorView::Atspi {
        message: "action "@ + text::quoted(action)
            + " must be prefixed with its group, e.g. \"app.quit\" or \"win.close\""@,
        source: None,
    }
}

/// The error of an action name with an empty part.
pub open spec fn empty_part(action: Seq<char>) -> ErrorView {
    ErrorView::Atspi {
        message: "action "@ + text::quoted(action) + " has an empty group or action name"@,
        source: None,
    }
}

/// What an action name parses to: the group ends at the first dot of the full
/// name, and neither part may be empty.
pub open spec fn parsed_action(action: Seq<char>) -> Result<ActionView, ErrorView> {
    let (full, target) = detailed(action);
    match text::split_once(full, '.') {
        None => Err(missing_group(action)),
        Some((group, name)) => if group.len() == 0 || name.len() == 0 {
            Err(empty_part(action))
        } else {
            Ok(ActionView { group, name, target })
        },
    }
}

proof fn lemma_double_colon(s: Seq<char>, at: int)
    requires
        0 <= at,
        at + 1 < s.len() ==> (s[at] == ':' && s[at + 1] == ':'),
        forall|i: int| 0 <= i < at && i + 1 < s.len() ==> !(#[trigger] s[i] == ':' && s[i + 1] == ':'),
    ensures
        double_colon(s) == (if at + 1 < s.len() {
            Some(at)
        } else {
            None
        }),
    decreases s.len(),
{
    if s.len() >= 2 && !(s[0] == ':' && s[1] == ':') {
        let rest = s.skip(1);
        assert forall|i: int| 0 <= i < at - 1 && i + 1 < rest.len() implies !(#[trigger] rest[i]
            == ':' && rest[i + 1] == ':') by {
            assert(rest[i] == s[i + 1]);
            assert(rest[i + 1] == s[i + 2]);
        }
        if at == 0 {
            assert(false);
        }
        lemma_double_colon(rest, at - 1);
    } else if s.len() >= 2 {
        if at > 0 {
            assert(s[0] == ':' && s[1] == ':');
            assert(false);
        }
    }
}

fn find_double_colon(cs: &Vec<char>) -> (r: Option<usize>)
    ensures
        match r {
            Some(i) => i + 1 < cs.len() && double_colon(cs@) == Some(i as int),
            None => double_colon(cs@) is None,
        },
{
    let mut i: usize = 0;
    while cs.len() - i >= 2
        invariant
            i <= cs.len(),
            forall|k: int|
                0 <= k < i && k + 1 < cs@.len() ==> !(#[trigger] cs@[k] == ':' && cs@[k + 1] == ':'),
        decreases cs.len() - i,
    {
        if cs[i] == ':' && cs[i + 1] == ':' {
            proof {
                lemma_double_colon(cs@, i as int);
            }
            return Some(i);
        }
        i = i + 1;
    }
    proof {
        lemma_double_colon(cs@, i as int);
    }
    None
}

/// Parses an action name with its group and, after `::`, an optional target.
pub fn parse_action(action: &str) -> (r: Result<ParsedAction, Error>)
    ensures
        (match r {
            Ok(p) => Ok(p@),
            Err(e) => Err(e@),
        }) == parsed_action(action@),
{
    let cs = chars_of(action);
    let (full, target) = match find_double_colon(&cs) {
        Some(i) => {
            assert(cs@.subrange(0, i as int) =~= cs@.take(i as int));
            assert(cs@.subrange(i + 2, cs@.len() as int) =~= cs@.skip(i + 2));
            (text_of(&cs, 0, i), Some(text_of(&cs, i + 2, cs.len())))
        },
        None => (action.to_string(), None),
    };
    match split_once_at(&chars_of(full.as_str()), '.') {
        None => {
            let mut m = "action ".to_string();
            m.append(debug_quoted(action).as_str());
            m.append(" must be prefixed with its group, e.g. \"app.quit\" or \"win.close\"");
            Err(Error::atspi(m.as_str()))
        },
        Some((group, name)) => {
            if group.as_str().unicode_len() == 0 || name.as_str().unicode_len() == 0 {
                let mut m = "action ".to_string();
                m.append(debug_quoted(action).as_str());
                m.append(" has an empty group or action name");
                Err(Error::atspi(m.as_str()))
            } else {
                Ok(ParsedAction { group, name, target })
            }
        },
    }
}

/// Where an action is to be activated.
#[derive(Debug, Clone, Copy, PartialEq, Eq, Structural)]
pub enum ActionScope {
    /// At the application's base path.
    Application,
    /// At the first window that exposes the action.
    Window,
}

/// The error of an action whose group is neither `app` nor `win`.
pub open spec fn unsupported_group(group: Seq<char>, action: Seq<char>) -> ErrorView {
    ErrorView::Atspi {
        message: "org.gtk.Actions: unsupported action group "@ + text::quoted(group) + " in "@
            + text::quoted(action) + "; only \"app\" and \"win\" are addressable"@,
        source: None,
    }
}

/// Where an action of a group is activated; an action of any other group is an error.
pub open spec fn scope_of(group: Seq<char>, action: Seq<char>) -> Result<ActionScope, ErrorView> {
    if group == "app"@ {
        Ok(ActionScope::Application)
    } else if group == "win"@ {
        Ok(ActionScope::Window)
    } else {
        Err(unsupported_group(group, action))
    }
}

/// Decides where a parsed action is to be activated.
pub fn action_scope(parsed: &ParsedAction, action: &str) -> (r: Result<ActionScope, Error>)
    ensures
        error::outcome(r) == (if parsed@.group == "app"@ {
            Ok(ActionScope::Application)
        } else if parsed@.group == "win"@ {
            Ok(ActionScope::Window)
        } else {
            Err(unsupported_group(parsed@.group, action@))
        }),
        error::outcome(r) == scope_of(parsed@.group, action@),
{
    if same_text(parsed.group.as_str(), "app") {
        Ok(ActionScope::Application)
    } else if same_text(parsed.group.as_str(), "win") {
        Ok(ActionScope::Window)
    } else {
        let mut m = "org.gtk.Actions: unsupported action group ".to_string();
        m.append(debug_quoted(parsed.group.as_str()).as_str());
        m.append(" in ");
        m.append(debug_quoted(action).as_str());
        m.append("; only \"app\" and \"win\" are addressable");
        Err(Error::atspi(m.as_str()))
    }
}

/// Whether a window that was asked for its actions exposes `name`; `None` stands
/// for a window that could not be asked.
pub open spec fn exposes(listing: Option<Seq<Seq<char>>>, name: Seq<char>) -> bool {
    listing matches Some(names) && names.contains(name)
}

/// The names in a listing.
pub open spec fn listed(listing: Option<Vec<String>>) -> Option<Seq<Seq<char>>> {
    match listing {
        Some(v) => Some(atspi::texts(v@)),
        None => None,
    }
}

fn holds_name(names: &Vec<String>, name: &str) -> (r: bool)
    ensures
        r == atspi::texts(names@).contains(name@),
{
    let mut i: usize = 0;
    while i < names.len()
        invariant
            i <= names.len(),
            forall|k: int| 0 <= k < i ==> names@[k]@ != name@,
        decreases names.len() - i,
    {
        if same_text(names[i].as_str(), name) {
            assert(atspi::texts(names@)[i as int] == name@);
            return true;
        }
        i = i + 1;
    }
    assert forall|k: int| 0 <= k < atspi::texts(names@).len() implies atspi::texts(names@)[k]
        != name@ by {}
    false
}

/// The search for a window that exposes an action: the windows to ask, in order,
/// and how many were asked in vain.
pub struct WindowSearch {
    paths: Vec<String>,
    asked: usize,
    name: String,
}

/// The mathematical value of a [`WindowSearch`].
#[verifier::ext_equal]
pub struct WindowSearchView {
    pub paths: Seq<Seq<char>>,
    pub asked: nat,
    pub name: Seq<char>,
}

impl View for WindowSearch {
    type V = WindowSearchView;

    closed spec fn view(&self) -> WindowSearchView {
        WindowSearchView {
            paths: atspi::texts(self.paths@),
            asked: self.asked as nat,
            name: self.name@,
        }
    }
}

/// The error of a window action that no window exposes.
pub open spec fn not_on_any_window(name: Seq<char>, paths: nat) -> ErrorView {
    ErrorView::Atspi {
        message: "org.gtk.Actions: win action "@ + text::quoted(name)
            + " not found on any application window ("@ + text::decimal(paths)
            + " window path(s) checked)"@,
        source: None,
    }
}

impl WindowSearchView {
    /// The window to ask next, or the error once all were asked.
    pub open spec fn due(self) -> Result<Seq<char>, ErrorView> {
        if self.asked < self.paths.len() {
            Ok(self.paths[self.asked as int])
        } else {
            Err(not_on_any_window(self.name, self.paths.len()))
        }
    }

    /// The state after the window asked last did not expose the action.
    pub open spec fn onward(self) -> WindowSearchView {
        WindowSearchView { asked: self.asked + 1, ..self }
    }
}

impl WindowSearch {
    /// A search for `name` over `paths`.
    pub fn new(paths: Vec<String>, name: &str) -> (r: Self)
        ensures
            r@ == (WindowSearchView { paths: atspi::texts(paths@), asked: 0, name: name@ }),
    {
        WindowSearch { paths, asked: 0, name: name.to_string() }
    }

    /// The next window to ask for its actions; the error once all were asked.
    pub fn next(&self) -> (r: Result<String, Error>)
        ensures
            match r {
                Ok(p) => self@.asked < self@.paths.len() && p@ == self@.paths[self@.asked as int],
                Err(e) => self@.asked >= self@.paths.len() && e@ == not_on_any_window(
                    self@.name,
                    self@.paths.len(),
                ),
            },
            self@.due() == (match r {
                Ok(p) => Ok(p@),
                Err(e) => Err(e@),
            }),
    {
        if self.asked < self.paths.len() {
            return Ok(self.paths[self.asked].clone());
        }
        let mut m = "org.gtk.Actions: win action ".to_string();
        m.append(debug_quoted(self.name.as_str()).as_str());
        m.append(" not found on any application window (");
        m.append(decimal_u64(self.paths.len() as u64).as_str());
        m.append(" window path(s) checked)");
        Err(Error::atspi(m.as_str()))
    }

    /// Takes in the actions of the window asked last. `true` means that the action
    /// is to be activated there; else the search goes on with the next window.
    pub fn answered(&mut self, listing: Option<Vec<String>>) -> (r: bool)
        requires
            old(self)@.asked < old(self)@.paths.len(),
        ensures
            r == exposes(listed(listing), old(self)@.name),
            final(self)@ == (if r {
                old(self)@
            } else {
                WindowSearchView { asked: old(self)@.asked + 1, ..old(self)@ }
            }),
            !r ==> final(self)@ == old(self)@.onward(),
    {
        match &listing {
            Some(names) => {
                if holds_name(names, self.name.as_str()) {
                    return true;
                }
            },
            None => {},
        }
        assert(self.asked < self.paths.len());
        self.asked = self.asked + 1;
        false
    }
}

// ── Listing ─────────────────────────────────────────────────────────────────

/// The names with a group in front.
pub open spec fn in_group(group: Seq<char>, names: Seq<Seq<char>>) -> Seq<Seq<char>> {
    names.map_values(|n: Seq<char>| group + "."@ + n)
}

/// `out` with the window actions `names` added, each under its group and none
/// twice.
pub open spec fn with_window_actions(out: Seq<Seq<char>>, names: Seq<Seq<char>>) -> Seq<Seq<char>>
    decreases names.len(),
{
    if names.len() == 0 {
        out
    } else {
        let front = with_window_actions(out, names.drop_last());
        let n = "win"@ + "."@ + names.last();
        if front.contains(n) {
            front
        } else {
            front.push(n)
        }
    }
}

/// The names of every action an application exposes, from its own listing and those
/// of its windows, where a window that could not be asked has none.
pub open spec fn all_actions(app: Seq<Seq<char>>, windows: Seq<Option<Seq<Seq<char>>>>) -> Seq<
    Seq<char>,
>
    decreases windows.len(),
{
    if windows.len() == 0 {
        in_group("app"@, app)
    } else {
        let front = all_actions(app, windows.drop_last());
        match windows.last() {
            Some(names) => with_window_actions(front, names),
            None => front,
        }
    }
}

fn grouped_name(group: &str, name: &str) -> (r: String)
    ensures
        r@ == group@ + "."@ + name@,
{
    let mut s = group.to_string();
    s.append(".");
    s.append(name);
    s
}

fn add_window_actions(out: &mut Vec<String>, names: &Vec<String>)
    ensures
        atspi::texts(final(out)@) == with_window_actions(
            atspi::texts(old(out)@),
            atspi::texts(names@),
        ),
{
    let ghost start = atspi::texts(out@);
    let ghost all = atspi::texts(names@);
    let mut i: usize = 0;
    assert(all.take(0) =~= Seq::empty());
    while i < names.len()
        invariant
            all == atspi::texts(names@),
            i <= names.len(),
            atspi::texts(out@) == with_window_actions(start, all.take(i as int)),
        decreases names.len() - i,
    {
        proof {
            assert(all.take(i + 1).drop_last() =~= all.take(i as int));
            assert(all.take(i + 1).last() == names@[i as int]@);
        }
        let n = grouped_name("win", names[i].as_str());
        if !holds_name(out, n.as_str()) {
            let ghost before = out@;
            let ghost v = n@;
            out.push(n);
            assert(atspi::texts(out@) =~= atspi::texts(before).push(v));
        }
        i = i + 1;
    }
    assert(all.take(i as int) =~= all);
}

/// The names in each listing.
pub open spec fn listings(v: Seq<Option<Vec<String>>>) -> Seq<Option<Seq<Seq<char>>>> {
    v.map_values(|l: Option<Vec<String>>| listed(l))
}

/// Lists every action under its group: `app.*` from the application, then `win.*`
/// from each window.
pub fn list_all(app: &Vec<String>, windows: &Vec<Option<Vec<String>>>) -> (r: Vec<String>)
    ensures
        atspi::texts(r@) == all_actions(atspi::texts(app@), listings(windows@)),
{
    let ghost names = atspi::texts(app@);
    let mut out: Vec<String> = Vec::new();
    let mut i: usize = 0;
    while i < app.len()
        invariant
            names == atspi::texts(app@),
            i <= app.len(),
            atspi::texts(out@) =~= in_group("app"@, names.take(i as int)),
        decreases app.len() - i,
    {
        let ghost before = out@;
        out.push(grouped_name("app", app[i].as_str()));
        proof {
            let n = "app"@ + "."@ + names[i as int];
            assert(atspi::texts(out@) =~= atspi::texts(before).push(n));
            assert(in_group("app"@, names.take(i + 1)) =~= in_group(
                "app"@,
                names.take(i as int),
            ).push(n));
        }
        i = i + 1;
    }
    assert(names.take(i as int) =~= names);
    let ghost all = listings(windows@);
    let mut k: usize = 0;
    assert(all.take(0) =~= Seq::empty());
    while k < windows.len()
        invariant
            all == listings(windows@),
            k <= windows.len(),
            atspi::texts(out@) == all_actions(names, all.take(k as int)),
        decreases windows.len() - k,
    {
        proof {
            assert(all.take(k + 1).drop_last() =~= all.take(k as int));
            assert(all.take(k + 1).last() == listed(windows@[k as int]));
        }
        match &windows[k] {
            Some(w) => {
                add_window_actions(&mut out, w);
            },
            None => {},
        }
        k = k + 1;
    }
    assert(all.take(k as int) =~= all);
    out
}

// ── Laws ────────────────────────────────────────────────────────────────────

/// A derived object path begins with a slash and holds neither dots nor hyphens,
/// which object paths do not allow.
pub proof fn law_base_path_shape(bus_name: Seq<char>)
    ensures
        base_path(bus_name).len() == bus_name.len() + 1,
        base_path(bus_name)[0] == '/',
        forall|i: int|
            0 <= i < base_path(bus_name).len() ==> (#[trigger] base_path(bus_name)[i]) != '.'
                && base_path(bus_name)[i] != '-',
{
    let p = base_path(bus_name);
    assert forall|i: int| 0 <= i < p.len() implies (#[trigger] p[i]) != '.' && p[i] != '-' by {
        if i > 0 {
            assert(p[i] == path_char(bus_name[i - 1]));
        }
    }
}

/// An action written from its parts parses back into them: the group holds no dot,
/// and no double colon comes before the target.
pub proof fn law_action_reads_back(group: Seq<char>, name: Seq<char>, target: Seq<char>)
    requires
        group.len() > 0,
        name.len() > 0,
        !group.contains('.'),
        forall|i: int|
            0 <= i < group.len() + name.len() + 1 ==> (#[trigger] (group + "."@ + name + "::"@)[i])
                != ':',
    ensures
        parsed_action(group + "."@ + name + "::"@ + target) == Ok::<ActionView, ErrorView>(
            ActionView { group, name, target: Some(target) },
        ),
{
    reveal_strlit(".");
    reveal_strlit("::");
    let full = group + "."@ + name;
    let head = full + "::"@;
    let s = head + target;
    let n = full.len() as int;
    assert forall|i: int| 0 <= i < n && i + 1 < s.len() implies !(#[trigger] s[i] == ':' && s[i + 1]
        == ':') by {
        assert(s[i] == head[i]);
    }
    assert(s[n] == ':' && s[n + 1] == ':');
    lemma_double_colon(s, n);
    assert(s.take(n) =~= full);
    assert(s.skip(n + 2) =~= target);
    assert forall|i: int| 0 <= i < group.len() implies full[i] != '.' by {
        assert(group.contains(group[i]));
    }
    text::lemma_first_index_is(full, '.', group.len() as int);
    assert(full.take(group.len() as int) =~= group);
    assert(full.skip(group.len() as int + 1) =~= name);
}

/// A window action is listed once at most, however many windows expose it.
pub proof fn law_window_actions_listed_once(out: Seq<Seq<char>>, names: Seq<Seq<char>>)
    requires
        out.no_duplicates(),
    ensures
        with_window_actions(out, names).no_duplicates(),
    decreases names.len(),
{
    if names.len() > 0 {
        law_window_actions_listed_once(out, names.drop_last());
    }
}

/// The object path of an application is its bus name behind a slash, with a slash for each
/// dot, an underscore for each hyphen, and every other character as it is.
pub proof fn law_base_path_follows_the_name(bus_name: Seq<char>)
    ensures
        base_path(bus_name).len() == bus_name.len() + 1,
        forall|i: int|
            0 <= i < bus_name.len() ==> {
                let c = bus_name[i];
                #[trigger] base_path(bus_name)[i + 1] == (if c == '.' {
                    '/'
                } else if c == '-' {
                    '_'
                } else {
                    c
                })
            },
{
}

/// An application can be behind every name but unique ones, which begin with a colon, and the
/// bus's own.
pub proof fn law_candidate_names(name: Seq<char>)
    ensures
        name.len() > 0 && name[0] == ':' ==> !candidate(name),
        !candidate("org.freedesktop.DBus"@),
        name != "org.freedesktop.DBus"@ && (name.len() == 0 || name[0] != ':') ==> candidate(name),
{
}

/// A scan goes over the names that can be an application's, all of them and in their order.
pub proof fn law_scan_goes_over_candidates(a: Seq<Seq<char>>, name: Seq<char>)
    ensures
        candidates(Seq::empty()).len() == 0,
        candidate(name) ==> candidates(a.push(name)) == candidates(a).push(name),
        !candidate(name) ==> candidates(a.push(name)) == candidates(a),
        candidates(a).contains(name) <==> a.contains(name) && candidate(name),
    decreases a.len(),
{
    assert(a.push(name).drop_last() =~= a);
    if a.len() > 0 {
        let front = a.drop_last();
        law_scan_goes_over_candidates(front, name);
        let (f, r) = (candidates(front), candidates(a));
        if r.contains(name) {
            let i = choose|i: int| 0 <= i < r.len() && r[i] == name;
            if i < f.len() {
                assert(f[i] == name);
                let j = choose|j: int| 0 <= j < front.len() && front[j] == name;
                assert(a[j] == name);
            } else {
                assert(a[a.len() - 1] == name);
            }
        }
        if a.contains(name) && candidate(name) {
            let i = choose|i: int| 0 <= i < a.len() && a[i] == name;
            if i < front.len() {
                assert(front[i] == name);
                let j = choose|j: int| 0 <= j < f.len() && f[j] == name;
                assert(r[j] == name);
            } else {
                assert(r[f.len() as int] == name);
            }
        }
    }
}

/// A name is asked for its owner, then for its actions, and found only behind both; when all
/// names are behind, none is found.
pub proof fn law_name_is_asked_before_it_is_found(s: AppScanView)
    ensures
        s.at >= s.names.len() ==> s.due() == ScanView::Exhausted,
        s.at < s.names.len() ==> {
            let name = s.names[s.at as int];
            &&& s.phase == ScanPhase::Unknown ==> s.due() == ScanView::AskOwner(name)
            &&& s.phase == ScanPhase::Owned ==> s.due() == ScanView::AskActions(name)
            &&& s.phase == ScanPhase::Confirmed ==> s.due() == ScanView::Found(name)
        },
        s.onward().at == s.at + 1,
        s.onward().phase == ScanPhase::Unknown,
        s.onward().names == s.names,
        s.onward().pid == s.pid,
{
}

/// The step of a scan is about the name it stands for, with the object path of that name.
pub proof fn law_step_is_about_its_name(step: ScanStep, name: Seq<char>)
    ensures
        is_step(step, ScanView::AskOwner(name)) ==> (step matches ScanStep::AskOwner(n) && n@
            == name),
        is_step(step, ScanView::AskActions(name)) ==> (step matches ScanStep::AskActions(a)
            && a.bus_name@ == name && a.base_path@ == base_path(name)),
        is_step(step, ScanView::Found(name)) ==> (step matches ScanStep::Found(a) && a.bus_name@
            == name && a.base_path@ == base_path(name)),
        is_step(step, ScanView::Exhausted) ==> step is Exhausted,
{
}

/// The windows of an application are those its window root names, each below that root, and
/// the first one where none is named.
pub proof fn law_windows_lie_below_the_root(base: Seq<char>, children: Seq<Seq<char>>)
    ensures
        children.len() == 0 ==> window_path_list(base, children) == seq![base + "/window/1"@],
        children.len() > 0 ==> window_path_list(base, children).len() == children.len(),
        forall|i: int|
            0 <= i < children.len() ==> #[trigger] window_path_list(base, children)[i] == base
                + "/window/"@ + children[i],
{
    reveal_strlit("/window");
    reveal_strlit("/1");
    reveal_strlit("/window/1");
    reveal_strlit("/");
    reveal_strlit("/window/");
    if children.len() == 0 {
        assert(base + "/window"@ + "/1"@ =~= base + "/window/1"@);
        assert(window_path_list(base, children) =~= seq![base + "/window/1"@]);
    } else {
        assert forall|i: int| 0 <= i < children.len() implies #[trigger] window_path_list(
            base,
            children,
        )[i] == base + "/window/"@ + children[i] by {
            assert(window_path_list(base, children)[i] =~= base + "/window/"@ + children[i]);
        }
    }
}

proof fn lemma_no_tag_no_name(t: Seq<char>, rest: Seq<char>)
    requires
        !t.contains('<'),
    ensures
        child_names(t + rest) == child_names(rest),
    decreases t.len(),
{
    if t.len() == 0 {
        assert(t + rest =~= rest);
    } else {
        let s = t + rest;
        reveal_strlit("<node");
        assert(t.contains(t[0]));
        assert(s[0] != '<');
        assert(!atspi::begins(s, "<node"@)) by {
            if s.len() >= 5 {
                assert(s.take(5)[0] == s[0]);
            }
        }
        assert(s.skip(1) =~= t.skip(1) + rest);
        assert forall|i: int| 0 <= i < t.skip(1).len() implies t.skip(1)[i] != '<' by {
            assert(t.contains(t[i + 1]));
        }
        lemma_no_tag_no_name(t.skip(1), rest);
    }
}

proof fn lemma_named_attribute(value: Seq<char>, rest: Seq<char>)
    requires
        !value.contains('"'),
    ensures
        attr_value(" name=\""@ + value + "\""@ + rest, "name"@) == Some(value),
{
    reveal_strlit(" name=\"");
    reveal_strlit("name");
    reveal_strlit("=");
    reveal_strlit("\"");
    let tag = " name=\""@ + value + "\""@ + rest;
    assert("name"@ + "="@ =~= seq!['n', 'a', 'm', 'e', '=']);
    assert(tag.skip(1).take(5) =~= "name"@ + "="@);
    assert(atspi::begins(tag.skip(1), "name"@ + "="@));
    let q = tag.skip(6);
    assert(q =~= seq!['"'] + value + seq!['"'] + rest);
    assert(q.skip(1) =~= value + seq!['"'] + rest);
    assert forall|i: int| 0 <= i < value.len() implies q.skip(1)[i] != '"' by {
        assert(value.contains(value[i]));
    }
    text::lemma_first_index_is(q.skip(1), '"', value.len() as int);
    assert(q.skip(1).take(value.len() as int) =~= value);
}

/// A child node of an introspection document is read off the `name` of its tag, and the rest
/// of the document behind it; whatever is no node's tag contributes nothing.
pub proof fn law_child_nodes_are_read(between: Seq<char>, name: Seq<char>, rest: Seq<char>)
    requires
        !between.contains('<'),
        !name.contains('"'),
        !name.contains('<'),
        !name.contains('>'),
    ensures
        child_names(between + "<node name=\""@ + name + "\"/>"@ + rest) == seq![name]
            + child_names(rest),
        child_names(between + "<node>"@ + rest) == child_names(rest),
        child_names(between + "</node>"@ + rest) == child_names(rest),
        child_names(between) == Seq::<Seq<char>>::empty(),
{
    reveal_strlit("<node");
    reveal_strlit("<node name=\"");
    reveal_strlit("\"/>");
    reveal_strlit("\"");
    reveal_strlit("/");
    reveal_strlit(" name=\"");
    reveal_strlit("<node>");
    reveal_strlit("</node>");
    let none = Seq::<char>::empty();
    lemma_no_tag_no_name(between, none);
    assert(between + none =~= between);
    let tag = "<node name=\""@ + name + "\"/>"@ + rest;
    assert(between + "<node name=\""@ + name + "\"/>"@ + rest =~= between + tag);
    lemma_no_tag_no_name(between, tag);
    assert(tag.take(5) =~= "<node"@);
    let after = tag.skip(5);
    let body = " name=\""@ + name + "\""@ + "/"@;
    assert(after =~= body + (seq!['>'] + rest));
    assert(text::white_space(' '));
    assert forall|i: int| 0 <= i < body.len() implies body[i] != '>' && body[i] != '<' by {
        if 7 <= i < 7 + name.len() {
            assert(body[i] == name[i - 7]);
            assert(name.contains(name[i - 7]));
        }
    }
    text::lemma_first_index_is(after, '>', body.len() as int);
    assert(after.take(body.len() as int) =~= body);
    lemma_named_attribute(name, "/"@);
    lemma_no_tag_no_name(body + seq!['>'], rest);
    assert(after =~= (body + seq!['>']) + rest);
    assert(child_names(tag) == seq![name] + child_names(after));
    let root = "<node>"@ + rest;
    assert(between + "<node>"@ + rest =~= between + root);
    lemma_no_tag_no_name(between, root);
    assert(root.take(5) =~= "<node"@);
    assert(root.skip(5) =~= seq!['>'] + rest);
    lemma_no_tag_no_name(seq!['>'], rest);
    let close = "</node>"@ + rest;
    assert(between + "</node>"@ + rest =~= between + close);
    lemma_no_tag_no_name(between, close);
    assert(close.take(5)[1] == '/');
    assert("<node"@[1] == 'n');
    assert(!atspi::begins(close, "<node"@));
    let behind = close.skip(1);
    assert(behind =~= seq!['/', 'n', 'o', 'd', 'e', '>'] + rest);
    lemma_no_tag_no_name(seq!['/', 'n', 'o', 'd', 'e', '>'], rest);
}

/// An action without a target parses into its group, up to the first dot, and its name.
pub proof fn law_plain_action_reads_back(group: Seq<char>, name: Seq<char>)
    requires
        group.len() > 0,
        name.len() > 0,
        !group.contains('.'),
        !group.contains(':'),
        !name.contains(':'),
    ensures
        parsed_action(group.push('.') + name) == Ok::<ActionView, ErrorView>(
            ActionView { group, name, target: None },
        ),
{
    let s = group.push('.') + name;
    assert forall|i: int| 0 <= i < s.len() implies s[i] != ':' by {
        if i < group.len() {
            assert(group.contains(group[i]));
        } else if i > group.len() {
            assert(name.contains(name[i - group.len() - 1]));
        }
    }
    lemma_no_colon(s);
    assert forall|i: int| 0 <= i < group.len() implies s[i] != '.' by {
        assert(group.contains(group[i]));
    }
    text::lemma_first_index_is(s, '.', group.len() as int);
    assert(s.take(group.len() as int) =~= group);
    assert(s.skip(group.len() as int + 1) =~= name);
}

proof fn lemma_no_colon(s: Seq<char>)
    requires
        forall|i: int| 0 <= i < s.len() ==> s[i] != ':',
    ensures
        double_colon(s) is None,
    decreases s.len(),
{
    if s.len() >= 2 {
        lemma_no_colon(s.skip(1));
    }
}

/// Whatever an action parses into, its group and its name are not empty, the group holds no
/// dot, and the parts stand in the action in their order.
pub proof fn law_parsed_parts_stand_in_the_action(action: Seq<char>)
    ensures
        parsed_action(action) matches Ok(p) ==> {
            &&& p.group.len() > 0
            &&& p.name.len() > 0
            &&& !p.group.contains('.')
            &&& p.target is None ==> action == p.group.push('.') + p.name
            &&& p.target matches Some(t) ==> action == p.group.push('.') + p.name + "::"@ + t
        },
        !action.contains('.') ==> parsed_action(action) is Err,
{
    reveal_strlit("::");
    let (full, target) = detailed(action);
    text::law_split_once(full, '.');
    lemma_double_colon_splits(action);
    if text::split_once(full, '.') is Some {
        let (a, b) = text::split_once(full, '.')->0;
        assert(full[a.len() as int] == '.');
        assert(action[a.len() as int] == '.');
    }
    match double_colon(action) {
        Some(i) => {
            assert(action.take(i) + "::"@ + action.skip(i + 2) =~= action);
        },
        None => {},
    }
}

proof fn lemma_double_colon_splits(s: Seq<char>)
    ensures
        double_colon(s) matches Some(i) ==> 0 <= i && i + 2 <= s.len() && s[i] == ':' && s[i + 1]
            == ':',
    decreases s.len(),
{
    if s.len() >= 2 && !(s[0] == ':' && s[1] == ':') {
        lemma_double_colon_splits(s.skip(1));
        if double_colon(s.skip(1)) is Some {
            let i = double_colon(s.skip(1))->0;
            assert(s.skip(1)[i] == s[i + 1]);
            assert(s.skip(1)[i + 1] == s[i + 2]);
        }
    }
}

/// The target of an action begins behind the first double colon.
pub proof fn law_target_begins_behind_the_first_double_colon(front: Seq<char>, target: Seq<char>)
    requires
        forall|i: int|
            0 <= i < front.len() ==> !(#[trigger] front[i] == ':' && (i + 1 == front.len() || front[i
                + 1] == ':')),
    ensures
        detailed(front + "::"@ + target) == (front, Some(target)),
    decreases front.len(),
{
    reveal_strlit("::");
    let s = front + "::"@ + target;
    lemma_first_double_colon(front, target);
    assert(s.take(front.len() as int) =~= front);
    assert(s.skip(front.len() as int + 2) =~= target);
}

proof fn lemma_first_double_colon(front: Seq<char>, target: Seq<char>)
    requires
        forall|i: int|
            0 <= i < front.len() ==> !(#[trigger] front[i] == ':' && (i + 1 == front.len() || front[i
                + 1] == ':')),
    ensures
        double_colon(front + "::"@ + target) == Some(front.len() as int),
    decreases front.len(),
{
    reveal_strlit("::");
    let s = front + "::"@ + target;
    if front.len() > 0 {
        let rest = front.skip(1);
        assert(s.skip(1) =~= rest + "::"@ + target);
        assert forall|i: int| 0 <= i < rest.len() implies !(#[trigger] rest[i] == ':' && (i + 1
            == rest.len() || rest[i + 1] == ':')) by {
            assert(rest[i] == front[i + 1]);
        }
        lemma_first_double_colon(rest, target);
        assert(s[0] == front[0]);
        if front.len() > 1 {
            assert(s[1] == front[1]);
        }
    } else {
        assert(s[0] == ':' && s[1] == ':');
    }
}

/// Every action of the application is listed under `app`, in its order and in front; every
/// action of a window under `win`; and nothing else.
pub proof fn law_every_action_is_listed(
    app: Seq<Seq<char>>,
    windows: Seq<Option<Seq<Seq<char>>>>,
    x: Seq<char>,
)
    ensures
        ({
            let all = all_actions(app, windows);
            &&& all.len() >= app.len()
            &&& forall|i: int| 0 <= i < app.len() ==> #[trigger] all[i] == "app."@ + app[i]
            &&& all.contains(x) <==> (exists|i: int|
                0 <= i < app.len() && x == "app."@ + #[trigger] app[i]) || (exists|
                w: int,
                i: int,
            |
                0 <= w < windows.len() && windows[w] is Some && 0 <= i < windows[w]->0.len() && x
                    == "win."@ + #[trigger] windows[w]->0[i])
        }),
    decreases windows.len(),
{
    reveal_strlit("app");
    reveal_strlit(".");
    reveal_strlit("app.");
    let all = all_actions(app, windows);
    assert("app"@ + "."@ =~= "app."@);
    if windows.len() == 0 {
        let own = in_group("app"@, app);
        assert forall|i: int| 0 <= i < app.len() implies #[trigger] own[i] == "app."@ + app[i] by {
            assert("app"@ + "."@ + app[i] =~= "app."@ + app[i]);
        }
        if own.contains(x) {
            let i = choose|i: int| 0 <= i < own.len() && own[i] == x;
            assert(x == "app."@ + app[i]);
        }
        if exists|i: int| 0 <= i < app.len() && x == "app."@ + #[trigger] app[i] {
            let i = choose|i: int| 0 <= i < app.len() && x == "app."@ + #[trigger] app[i];
            assert(own[i] == x);
        }
    } else {
        let front = windows.drop_last();
        let n = windows.len() - 1;
        law_every_action_is_listed(app, front, x);
        let before = all_actions(app, front);
        match windows.last() {
            Some(names) => {
                lemma_window_actions(before, names, x);
                assert forall|i: int| 0 <= i < app.len() implies #[trigger] all[i] == "app."@
                    + app[i] by {
                    assert(all.take(before.len() as int)[i] == before[i]);
                }
                if exists|i: int| 0 <= i < names.len() && x == "win."@ + #[trigger] names[i] {
                    let i = choose|i: int| 0 <= i < names.len() && x == "win."@ + #[trigger] names[i];
                    assert(windows[n]->0[i] == names[i]);
                }
            },
            None => {},
        }
        if exists|w: int, i: int|
            0 <= w < front.len() && front[w] is Some && 0 <= i < front[w]->0.len() && x == "win."@
                + #[trigger] front[w]->0[i] {
            let (w, i) = choose|w: int, i: int|
                0 <= w < front.len() && front[w] is Some && 0 <= i < front[w]->0.len() && x
                    == "win."@ + #[trigger] front[w]->0[i];
            assert(windows[w]->0[i] == front[w]->0[i]);
        }
        if exists|w: int, i: int|
            0 <= w < windows.len() && windows[w] is Some && 0 <= i < windows[w]->0.len() && x
                == "win."@ + #[trigger] windows[w]->0[i] {
            let (w, i) = choose|w: int, i: int|
                0 <= w < windows.len() && windows[w] is Some && 0 <= i < windows[w]->0.len() && x
                    == "win."@ + #[trigger] windows[w]->0[i];
            if w < n {
                assert(front[w]->0[i] == windows[w]->0[i]);
            }
        }
    }
}

proof fn lemma_window_actions(out: Seq<Seq<char>>, names: Seq<Seq<char>>, x: Seq<char>)
    ensures
        ({
            let r = with_window_actions(out, names);
            &&& r.len() >= out.len()
            &&& r.take(out.len() as int) == out
            &&& r.contains(x) <==> out.contains(x) || exists|i: int|
                0 <= i < names.len() && x == "win."@ + #[trigger] names[i]
        }),
    decreases names.len(),
{
    reveal_strlit("win");
    reveal_strlit(".");
    reveal_strlit("win.");
    let r = with_window_actions(out, names);
    if names.len() == 0 {
        assert(r.take(out.len() as int) =~= out);
    } else {
        let front = names.drop_last();
        let last = names.len() - 1;
        lemma_window_actions(out, front, x);
        let f = with_window_actions(out, front);
        let n = "win"@ + "."@ + names.last();
        assert(n =~= "win."@ + names[last]);
        if !f.contains(n) {
            assert(r.take(out.len() as int) =~= f.take(out.len() as int));
            if r.contains(x) {
                let i = choose|i: int| 0 <= i < r.len() && r[i] == x;
                if i < f.len() {
                    assert(f[i] == x);
                }
            }
            if f.contains(x) {
                let i = choose|i: int| 0 <= i < f.len() && f[i] == x;
                assert(r[i] == x);
            }
            assert(r[f.len() as int] == n);
        }
        if exists|i: int| 0 <= i < front.len() && x == "win."@ + #[trigger] front[i] {
            let i = choose|i: int| 0 <= i < front.len() && x == "win."@ + #[trigger] front[i];
            assert(names[i] == front[i]);
        }
        if exists|i: int| 0 <= i < names.len() && x == "win."@ + #[trigger] names[i] {
            let i = choose|i: int| 0 <= i < names.len() && x == "win."@ + #[trigger] names[i];
            if i < last {
                assert(front[i] == names[i]);
            }
        }
    }
}

/// A window exposes an action exactly where it could be asked and lists that name.
pub proof fn law_window_exposes_what_it_lists(names: Seq<Seq<char>>, name: Seq<char>)
    ensures
        !exposes(None, name),
        exposes(Some(names), name) <==> exists|i: int|
            0 <= i < names.len() && #[trigger] names[i] == name,
{
}

/// The value of a parsed action: each part is the field of that name.
pub proof fn law_parsed_values_are_their_fields(a: ParsedAction)
    ensures
        a@.group == a.group@,
        a@.name == a.name@,
        a@.target == error::optional(a.target),
{
}

/// A name is asked for its actions only where the process looked for owns it, and found only
/// where it answers; in any other case the scan goes on with the name behind it, of which it
/// knows nothing yet.
pub proof fn law_scan_follows_the_answers(s: AppScanView, pid: u32)
    requires
        s.at < s.names.len(),
    ensures
        s.owned_by(Some(s.pid)) == (AppScanView { phase: ScanPhase::Owned, ..s }),
        s.owned_by(Some(s.pid)).due() == ScanView::AskActions(s.names[s.at as int]),
        pid != s.pid ==> s.owned_by(Some(pid)) == s.onward(),
        s.owned_by(None) == s.onward(),
        s.answered_by(true).due() == ScanView::Found(s.names[s.at as int]),
        s.answered_by(false) == s.onward(),
        s.onward().at == s.at + 1,
        s.onward().names == s.names,
        s.onward().pid == s.pid,
        s.onward().phase == ScanPhase::Unknown,
{
}

/// The bus is scanned five times, a tenth of a second apart. The error at the end is the last
/// one that a scan met, and where none met any it tells the process that was looked for.
pub proof fn law_last_error_is_reported(d: DiscoveryView, e: ErrorView, pid: u32)
    ensures
        d.scans + 1 < 5 ==> d.ended_by(Some(e), pid) is None && d.ended_by(None, pid) is None,
        d.scans + 1 >= 5 ==> d.ended_by(Some(e), pid) == Some(e),
        d.scans + 1 >= 5 && d.last is Some ==> d.ended_by(None, pid) == d.last,
        d.scans + 1 >= 5 && d.last is None ==> d.ended_by(None, pid) == Some(
            ErrorView::Atspi {
                message: "org.gtk.Actions: no application owned by pid "@ + text::decimal_int(
                    pid as int,
                )
                    + " found on the session bus (the app may not be a registered GApplication with an id)"@,
                source: None,
            },
        ),
        d.latest(Some(e)) == Some(e),
        d.latest(None) == d.last,
        DISCOVERY_INTERVAL_MS == 100,
        GTK_ACTIONS_IFACE@ == "org.gtk.Actions"@,
{
}

/// An action of the group `app` is activated on the application and one of the group `win` on
/// a window; any other group is refused.
pub proof fn law_scope_follows_the_group(group: Seq<char>, action: Seq<char>)
    ensures
        scope_of("app"@, action) == Ok::<ActionScope, ErrorView>(ActionScope::Application),
        scope_of("win"@, action) == Ok::<ActionScope, ErrorView>(ActionScope::Window),
        group != "app"@ && group != "win"@ ==> scope_of(group, action) is Err,
        scope_of(group, action) matches Err(e) ==> e is Atspi && e == unsupported_group(
            group,
            action,
        ),
{
    reveal_strlit("app");
    reveal_strlit("win");
    assert("app"@[0] != "win"@[0]);
}

/// The windows are asked one after the other, from the first on; once each was asked, the error
/// tells the action and how many there are.
pub proof fn law_windows_are_asked_in_turn(s: WindowSearchView)
    ensures
        s.asked < s.paths.len() ==> s.due() == Ok::<Seq<char>, ErrorView>(
            s.paths[s.asked as int],
        ),
        s.asked >= s.paths.len() ==> s.due() == Err::<Seq<char>, ErrorView>(
            ErrorView::Atspi {
                message: "org.gtk.Actions: win action "@ + text::quoted(s.name)
                    + " not found on any application window ("@ + text::decimal_int(
                    s.paths.len() as int,
                ) + " window path(s) checked)"@,
                source: None,
            },
        ),
        s.onward().asked == s.asked + 1,
        s.onward().paths == s.paths,
        s.onward().name == s.name,
{
}

/// A quoted value ends at the next quote like the one it begins with, and may hold the other
/// one; without a quote at its begin, or without one that ends it, it is no value.
pub proof fn law_quoted_values_are_read(q: char, v: Seq<char>, rest: Seq<char>)
    requires
        q == '"' || q == '\'',
        !v.contains(q),
    ensures
        quoted_value(seq![q] + v + seq![q] + rest) == Some(v),
        quoted_value(seq![q] + v) is None,
        quoted_value(Seq::empty()) is None,
        rest.len() > 0 && rest[0] != '"' && rest[0] != '\'' ==> quoted_value(rest) is None,
{
    let s = seq![q] + v + seq![q] + rest;
    assert(s.skip(1) =~= v + (seq![q] + rest));
    lemma_index_behind(v, seq![q] + rest, q);
    assert(s.skip(1).take(v.len() as int) =~= v);
    let t = seq![q] + v;
    assert(t.skip(1) =~= v);
    assert(v + Seq::<char>::empty() =~= v);
    lemma_index_behind(v, Seq::empty(), q);
}

proof fn lemma_index_behind(v: Seq<char>, rest: Seq<char>, q: char)
    requires
        !v.contains(q),
        rest.len() > 0 ==> rest[0] == q,
    ensures
        text::first_index(v + rest, q) == v.len(),
{
    let s = v + rest;
    assert forall|i: int| 0 <= i < v.len() implies s[i] != q by {
        assert(s[i] == v[i]);
        if v[i] == q {
            assert(v.contains(q));
        }
    }
    text::lemma_first_index_is(s, q, v.len() as int);
}

/// An action that cannot be addressed is told, with what is wrong about it.
pub proof fn law_wrong_actions_are_told(group: Seq<char>, action: Seq<char>)
    ensures
        unsupported_group(group, action) == (ErrorView::Atspi {
            message: "org.gtk.Actions: unsupported action group "@ + text::quoted(group) + " in "@
                + text::quoted(action) + "; only \"app\" and \"win\" are addressable"@,
            source: None,
        }),
        missing_group(action) == (ErrorView::Atspi {
            message: "action "@ + text::quoted(action)
                + " must be prefixed with its group, e.g. \"app.quit\" or \"win.close\""@,
            source: None,
        }),
        empty_part(action) == (ErrorView::Atspi {
            message: "action "@ + text::quoted(action) + " has an empty group or action name"@,
            source: None,
        }),
{
}

/// The names in a listing are its own, in their order; a window that gave none has none.
pub proof fn law_listings_keep_their_names(v: Vec<String>, all: Seq<Option<Vec<String>>>, i: int)
    requires
        0 <= i < all.len(),
    ensures
        listed(None) is None,
        listed(Some(v)) matches Some(names) && names.len() == v@.len() && forall|k: int|
            0 <= k < v@.len() ==> names[k] == (#[trigger] v@[k])@,
        listings(all).len() == all.len(),
        listings(all)[i] == listed(all[i]),
{
}

} // verus!
