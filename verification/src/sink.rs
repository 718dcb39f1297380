//! Capture of what an application sends out of its process: desktop notifications
//! and requests to open a URI.
use crate::atspi;
use crate::error::{Error, ErrorView};
use crate::snapshot;
use crate::text::{self, chars_of, comes_before, decimal_u64, duration_debug};
use vstd::prelude::*;
use vstd::string::*;

verus! {

/// Bus name and object path of the notification service.
pub const NOTIFICATIONS_NAME: &'static str = "org.freedesktop.Notifications";

pub const NOTIFICATIONS_PATH: &'static str = "/org/freedesktop/Notifications";

/// Bus name and object path of the desktop portal.
pub const PORTAL_NAME: &'static str = "org.freedesktop.portal.Desktop";

pub const PORTAL_PATH: &'static str = "/org/freedesktop/portal/desktop";

/// Version of the portal interface that is served.
pub const PORTAL_VERSION: u32 = 4;

/// Request handle used where a derived one is no valid object path.
pub const FALLBACK_HANDLE: &'static str = "/org/freedesktop/portal/desktop/request/wd/wd";

// ── Logs ────────────────────────────────────────────────────────────────────

/// An append-only log.
#[derive(Debug)]
pub struct Records<T> {
    items: Vec<T>,
}

impl<T> View for Records<T> {
    type V = Seq<T>;

    closed spec fn view(&self) -> Seq<T> {
        self.items@
    }
}

impl<T> Default for Records<T> {
    fn default() -> (r: Self)
        ensures
            r@ == Seq::<T>::empty(),
    {
        Records { items: Vec::new() }
    }
}

impl<T> Records<T> {
    /// Appends the entry that `make` builds from its position in the log.
    pub fn push<F: FnOnce(u64) -> T>(&mut self, make: F)
        requires
            make.requires((old(self)@.len() as u64,)),
        ensures
            final(self)@.len() == old(self)@.len() + 1,
            final(self)@.drop_last() == old(self)@,
            make.ensures((old(self)@.len() as u64,), final(self)@.last()),
    {
        let item = make(self.items.len() as u64);
        self.append(item);
    }

    /// Appends one entry.
    pub fn append(&mut self, item: T)
        ensures
            final(self)@ == old(self)@.push(item),
            final(self)@.last() == item,
            final(self)@.drop_last() == old(self)@,
    {
        let ghost before = self.items@;
        self.items.push(item);
        assert(self.items@.drop_last() =~= before);
    }

    /// How many entries there are.
    pub fn len(&self) -> (r: usize)
        ensures
            r == self@.len(),
    {
        self.items.len()
    }

    /// The entry at position `i`.
    pub fn get(&self, i: usize) -> (r: &T)
        requires
            i < self@.len(),
        ensures
            *r == self@[i as int],
    {
        &self.items[i]
    }

    /// The position of the first entry from `after` on that satisfies `pred`.
    pub fn find_after<F: Fn(&T) -> bool>(&self, after: usize, pred: F) -> (r: Option<usize>)
        requires
            forall|i: int| 0 <= i < self@.len() ==> pred.requires((&#[trigger] self@[i],)),
        ensures
            match r {
                Some(k) => {
                    &&& after <= k < self@.len()
                    &&& pred.ensures((&self@[k as int],), true)
                    &&& forall|i: int|
                        after <= i < k ==> pred.ensures((&#[trigger] self@[i],), false)
                },
                None => forall|i: int|
                    after <= i < self@.len() ==> pred.ensures((&#[trigger] self@[i],), false),
            },
    {
        let mut k: usize = after;
        while k < self.items.len()
            invariant
                after <= k,
                forall|i: int| 0 <= i < self@.len() ==> pred.requires((&#[trigger] self@[i],)),
                forall|i: int|
                    after <= i < k && i < self@.len() ==> pred.ensures(
                        (&#[trigger] self@[i],),
                        false,
                    ),
            decreases self.items.len() - k,
        {
            assert(pred.requires((&self@[k as int],)));
            if pred(&self.items[k]) {
                return Some(k);
            }
            k = k + 1;
        }
        None
    }
}

impl<T> Records<T> {
    /// One look of a waiter for an entry from `after` on that satisfies `pred`.
    /// `expired` tells whether the time is up; a match counts even then.
    pub fn look<F: Fn(&T) -> bool>(
        &self,
        after: usize,
        pred: F,
        expired: bool,
        secs: u64,
        nanos: u32,
    ) -> (r: WaitAction)
        requires
            forall|i: int| 0 <= i < self@.len() ==> pred.requires((&#[trigger] self@[i],)),
            nanos < 1_000_000_000,
        ensures
            looked(self@, after, pred, expired, secs, nanos, r),
    {
        match self.find_after(after, pred) {
            Some(k) => WaitAction::Ready(k),
            None => if expired {
                WaitAction::Fail(unmatched_error(secs, nanos))
            } else {
                WaitAction::Sleep
            },
        }
    }
}

impl<T: Clone> Records<T> {
    /// A copy of every entry.
    pub fn snapshot(&self) -> (r: Vec<T>)
        ensures
            r@.len() == self@.len(),
            forall|i: int| 0 <= i < r@.len() ==> cloned::<T>(self@[i], #[trigger] r@[i]),
    {
        self.items.clone()
    }
}

/// What a waiter does after it looked at a log.
#[derive(Debug)]
pub enum WaitAction {
    /// The entry at this position is the one waited for.
    Ready(usize),
    /// Sleep until the log grows, the time is up or the session is cancelled.
    Sleep,
    /// Give up.
    Fail(Error),
}

/// What ended a waiter's sleep.
#[derive(Debug, Clone, Copy, PartialEq, Eq, Structural)]
pub enum WakeUp {
    /// The log grew.
    Grown,
    /// The time is up.
    Elapsed,
    /// The session was cancelled.
    Cancelled,
}

/// The error of a wait that ended without a match.
pub open spec fn unmatched(secs: u64, nanos: u32) -> ErrorView {
    ErrorView::Timeout(
        "no captured entry matched within "@ + text::duration_text(secs, nanos),
    )
}

/// Whether `action` is what a waiter does after a look at a log: the first match from
/// `after` on is what it waits for; without one it fails if and only if its time is up.
pub open spec fn looked<T, F: Fn(&T) -> bool>(
    items: Seq<T>,
    after: usize,
    pred: F,
    expired: bool,
    secs: u64,
    nanos: u32,
    action: WaitAction,
) -> bool {
    match action {
        WaitAction::Ready(k) => {
            &&& after <= k < items.len()
            &&& pred.ensures((&items[k as int],), true)
            &&& forall|i: int| after <= i < k ==> pred.ensures((&#[trigger] items[i],), false)
        },
        WaitAction::Sleep => {
            &&& !expired
            &&& forall|i: int|
                after <= i < items.len() ==> pred.ensures((&#[trigger] items[i],), false)
        },
        WaitAction::Fail(e) => {
            &&& expired
            &&& e@ == unmatched(secs, nanos)
            &&& forall|i: int|
                after <= i < items.len() ==> pred.ensures((&#[trigger] items[i],), false)
        },
    }
}

/// The error of a wait of the given length that ended without a match.
pub fn unmatched_error(secs: u64, nanos: u32) -> (r: Error)
    requires
        nanos < 1_000_000_000,
    ensures
        r@ == unmatched(secs, nanos),
{
    let mut m = "no captured entry matched within ".to_string();
    m.append(duration_debug(secs, nanos).as_str());
    Error::Timeout(m)
}

/// What a waiter ends with after it woke up, given the error of a wait without a match; `None`
/// where it looks again.
pub open spec fn woken(wake: WakeUp, unmatched: ErrorView) -> Option<ErrorView> {
    match wake {
        WakeUp::Grown => None,
        WakeUp::Elapsed => Some(unmatched),
        WakeUp::Cancelled => Some(ErrorView::Cancelled),
    }
}

/// Decides whether a waiter looks again after it woke up: `None`, or the error it
/// ends with.
pub fn after_sleep(wake: WakeUp, secs: u64, nanos: u32) -> (r: Option<Error>)
    requires
        nanos < 1_000_000_000,
    ensures
        match wake {
            WakeUp::Grown => r is None,
            WakeUp::Elapsed => r matches Some(e) && e@ == unmatched(secs, nanos),
            WakeUp::Cancelled => r matches Some(e) && e@ == ErrorView::Cancelled,
        },
        crate::error::optional_error(r) == woken(wake, unmatched(secs, nanos)),
{
    match wake {
        WakeUp::Grown => None,
        WakeUp::Elapsed => Some(unmatched_error(secs, nanos)),
        WakeUp::Cancelled => Some(Error::Cancelled),
    }
}

// ── Dictionaries ────────────────────────────────────────────────────────────

/// `key=value` for each pair.
pub open spec fn rendered(pairs: Seq<(Seq<char>, Seq<char>)>) -> Seq<Seq<char>> {
    pairs.map_values(|p: (Seq<char>, Seq<char>)| p.0 + "="@ + p.1)
}

/// Whether texts come in order.
pub open spec fn in_text_order(s: Seq<Seq<char>>) -> bool {
    forall|i: int, j: int|
        0 <= i < j < s.len() ==> text::precedes_or_same(#[trigger] s[i], #[trigger] s[j])
}

proof fn lemma_insert_in_order(s: Seq<Seq<char>>, at: int, x: Seq<char>)
    requires
        0 <= at <= s.len(),
        in_text_order(s),
        at > 0 ==> text::precedes_or_same(s[at - 1], x),
        at < s.len() ==> text::precedes_or_same(x, s[at]),
    ensures
        in_text_order(s.insert(at, x)),
{
    let r = s.insert(at, x);
    assert forall|i: int, j: int| 0 <= i < j < r.len() implies text::precedes_or_same(
        #[trigger] r[i],
        #[trigger] r[j],
    ) by {
        if j == at {
            assert(r[i] == s[i]);
            if i < at - 1 {
                lemma_order_transitive(s[i], s[at - 1], x);
            }
        } else if i == at {
            assert(r[j] == s[j - 1]);
            if at < j - 1 {
                lemma_order_transitive(x, s[at], s[j - 1]);
            }
        } else {
            let a = if i < at {
                i
            } else {
                i - 1
            };
            let b = if j < at {
                j
            } else {
                j - 1
            };
            assert(r[i] == s[a]);
            assert(r[j] == s[b]);
        }
    }
}

proof fn lemma_order_transitive(a: Seq<char>, b: Seq<char>, c: Seq<char>)
    requires
        text::precedes_or_same(a, b),
        text::precedes_or_same(b, c),
    ensures
        text::precedes_or_same(a, c),
{
    if a != b && b != c {
        text::lemma_precedes_transitive(a, b, c);
    }
}

/// Renders a dictionary, given as keys and the values' text, into sorted
/// `key=value` lines.
pub fn render_dict(dict: &Vec<(String, String)>) -> (r: Vec<String>)
    ensures
        in_text_order(atspi::texts(r@)),
        atspi::texts(r@).to_multiset() == rendered(snapshot::keys_of(dict@)).to_multiset(),
{
    let ghost lines = rendered(snapshot::keys_of(dict@));
    let mut out: Vec<String> = Vec::new();
    let mut i: usize = 0;
    assert(atspi::texts(out@) =~= lines.take(0));
    while i < dict.len()
        invariant
            lines == rendered(snapshot::keys_of(dict@)),
            i <= dict.len(),
            in_text_order(atspi::texts(out@)),
            atspi::texts(out@).to_multiset() == lines.take(i as int).to_multiset(),
        decreases dict.len() - i,
    {
        let mut line = dict[i].0.clone();
        line.append("=");
        line.append(dict[i].1.as_str());
        assert(line@ == lines[i as int]);
        let ghost s = atspi::texts(out@);
        let mut at: usize = out.len();
        while at > 0 && comes_before(line.as_str(), out[at - 1].as_str())
            invariant
                s == atspi::texts(out@),
                at <= out.len(),
                at < out.len() ==> text::precedes(line@, s[at as int]),
            decreases at,
        {
            at = at - 1;
        }
        proof {
            if at > 0 {
                text::lemma_precedes_total(s[at - 1], line@);
            }
            lemma_insert_in_order(s, at as int, line@);
            assert(lines.take(i + 1) =~= lines.take(i as int).push(lines[i as int]));
            broadcast use vstd::seq_lib::group_to_multiset_ensures;

            vstd::seq_lib::to_multiset_insert(s, at as int, line@);
        }
        let ghost x = line@;
        out.insert(at, line);
        assert(atspi::texts(out@) =~= s.insert(at as int, x));
        i = i + 1;
    }
    assert(lines.take(i as int) =~= lines);
    out
}

// ── Notifications ───────────────────────────────────────────────────────────

/// One captured desktop notification.
#[derive(Debug)]
pub struct CapturedNotification {
    /// Position in the session's log.
    pub seq: u64,
    pub app_name: String,
    /// Id of the notification that this one replaces, 0 for a new one.
    pub replaces_id: u32,
    pub app_icon: String,
    pub summary: String,
    pub body: String,
    /// Action ids and labels, as sent.
    pub actions: Vec<String>,
    /// Hints as sorted `key=value` lines.
    pub hints: Vec<String>,
    /// Expiry in milliseconds (`-1` for the server's default, `0` for never).
    pub expire_timeout: i32,
    /// The id returned to the caller.
    pub id: u32,
}

impl Clone for CapturedNotification {
    fn clone(&self) -> (r: Self)
        ensures
            r.seq == self.seq,
            r.app_name == self.app_name,
            r.replaces_id == self.replaces_id,
            r.app_icon == self.app_icon,
            r.summary == self.summary,
            r.body == self.body,
            r.actions@ == self.actions@,
            r.hints@ == self.hints@,
            r.expire_timeout == self.expire_timeout,
            r.id == self.id,
    {
        CapturedNotification {
            seq: self.seq,
            app_name: self.app_name.clone(),
            replaces_id: self.replaces_id,
            app_icon: self.app_icon.clone(),
            summary: self.summary.clone(),
            body: self.body.clone(),
            actions: text::clone_texts(&self.actions),
            hints: text::clone_texts(&self.hints),
            expire_timeout: self.expire_timeout,
            id: self.id,
        }
    }
}

/// The id that a notification gets: the one it replaces, or the next fresh one.
pub open spec fn given_id(replaces_id: u32, upcoming: u32) -> u32 {
    if replaces_id != 0 {
        replaces_id
    } else {
        upcoming
    }
}

/// The next fresh id after a notification. Past the last one, ids begin at 0 again.
pub open spec fn id_after(replaces_id: u32, upcoming: u32) -> u32 {
    if replaces_id != 0 {
        upcoming
    } else if upcoming == u32::MAX {
        0
    } else {
        (upcoming + 1) as u32
    }
}

/// Whether an entry is the capture of a notification with these arguments, numbered
/// `seq` and answered with `id`.
pub open spec fn captures(
    n: CapturedNotification,
    seq: nat,
    app_name: String,
    replaces_id: u32,
    app_icon: String,
    summary: String,
    body: String,
    actions: Vec<String>,
    hints: Seq<snapshot::Key>,
    expire_timeout: i32,
    id: u32,
) -> bool {
    &&& n.seq == seq
    &&& n.app_name == app_name
    &&& n.replaces_id == replaces_id
    &&& n.app_icon == app_icon
    &&& n.summary == summary
    &&& n.body == body
    &&& n.actions == actions
    &&& in_text_order(atspi::texts(n.hints@))
    &&& atspi::texts(n.hints@).to_multiset() == rendered(hints).to_multiset()
    &&& n.expire_timeout == expire_timeout
    &&& n.id == id
}

/// The notification service: the log, and the next id to hand out.
#[derive(Debug)]
pub struct NotificationLog {
    records: Records<CapturedNotification>,
    next_id: u32,
}

impl NotificationLog {
    /// The captured notifications.
    pub closed spec fn entries(self) -> Seq<CapturedNotification> {
        self.records@
    }

    /// The id the next new notification gets.
    pub closed spec fn upcoming(self) -> u32 {
        self.next_id
    }

    /// Whether every entry is numbered by its place in the log.
    pub open spec fn numbered(self) -> bool {
        forall|i: int| 0 <= i < self.entries().len() ==> (#[trigger] self.entries()[i]).seq == i
    }

    /// A service that has captured nothing. Ids start at 1.
    pub fn new() -> (r: Self)
        ensures
            r.entries() == Seq::<CapturedNotification>::empty(),
            r.upcoming() == 1,
            r.numbered(),
    {
        NotificationLog { records: Records::default(), next_id: 1 }
    }

    /// Captures one notification and gives the id it is known by from now on: the
    /// one it replaces, or a fresh one.
    pub fn notify(
        &mut self,
        app_name: String,
        replaces_id: u32,
        app_icon: String,
        summary: String,
        body: String,
        actions: Vec<String>,
        hints: &Vec<(String, String)>,
        expire_timeout: i32,
    ) -> (r: u32)
        requires
            old(self).numbered(),
        ensures
            final(self).numbered(),
            r == given_id(replaces_id, old(self).upcoming()),
            final(self).upcoming() == id_after(replaces_id, old(self).upcoming()),
            final(self).entries().drop_last() == old(self).entries(),
            final(self).entries().len() == old(self).entries().len() + 1,
            captures(
                final(self).entries().last(),
                old(self).entries().len(),
                app_name,
                replaces_id,
                app_icon,
                summary,
                body,
                actions,
                snapshot::keys_of(hints@),
                expire_timeout,
                r,
            ),
    {
        let id: u32 = if replaces_id != 0 {
            replaces_id
        } else {
            let fresh: u32 = self.next_id;
            self.next_id = if fresh == u32::MAX {
                0
            } else {
                fresh + 1
            };
            fresh
        };
        let lines = render_dict(hints);
        let seq: u64 = self.records.len() as u64;
        self.records.append(
            CapturedNotification {
                seq,
                app_name,
                replaces_id,
                app_icon,
                summary,
                body,
                actions,
                hints: lines,
                expire_timeout,
                id,
            },
        );
        proof {
            let was = old(self).entries();
            let now = self.entries();
            assert(now.drop_last() == was);
            assert forall|i: int| 0 <= i < now.len() implies (#[trigger] now[i]).seq == i by {
                if i < was.len() {
                    assert(now[i] == was[i]);
                }
            }
        }
        id
    }

    /// The log of captured notifications.
    pub fn records(&self) -> (r: &Records<CapturedNotification>)
        ensures
            r@ == self.entries(),
    {
        &self.records
    }
}

/// What the notification service says it can do.
pub fn get_capabilities() -> (r: Vec<String>)
    ensures
        atspi::texts(r@) == seq!["body"@, "body-markup"@, "actions"@],
{
    let v = vec!["body".to_string(), "body-markup".to_string(), "actions".to_string()];
    assert(atspi::texts(v@) =~= seq!["body"@, "body-markup"@, "actions"@]);
    v
}

/// What the notification service says of itself: name, vendor, version and the
/// version of the protocol.
pub fn get_server_information(version: &str) -> (r: (String, String, String, String))
    ensures
        r.0@ == "waydriver"@,
        r.1@ == "waydriver"@,
        r.2@ == version@,
        r.3@ == "1.2"@,
{
    (
        "waydriver".to_string(),
        "waydriver".to_string(),
        version.to_string(),
        "1.2".to_string(),
    )
}

// ── Open-URI requests ───────────────────────────────────────────────────────

/// One captured request to open a URI.
#[derive(Debug)]
pub struct CapturedOpenUri {
    /// Position in the session's log.
    pub seq: u64,
    /// The parent window identifier that the caller passed.
    pub parent_window: String,
    pub uri: String,
    /// Options as sorted `key=value` lines.
    pub options: Vec<String>,
}

impl Clone for CapturedOpenUri {
    fn clone(&self) -> (r: Self)
        ensures
            r.seq == self.seq,
            r.parent_window == self.parent_window,
            r.uri == self.uri,
            r.options@ == self.options@,
    {
        CapturedOpenUri {
            seq: self.seq,
            parent_window: self.parent_window.clone(),
            uri: self.uri.clone(),
            options: text::clone_texts(&self.options),
        }
    }
}

/// `s` without the colons it begins with.
pub open spec fn without_leading_colons(s: Seq<char>) -> Seq<char>
    decreases s.len(),
{
    if s.len() > 0 && s[0] == ':' {
        without_leading_colons(s.skip(1))
    } else {
        s
    }
}

/// A sender's part of a request handle.
pub open spec fn sender_id(sender: Seq<char>) -> Seq<char> {
    let id = without_leading_colons(sender).map_values(
        |c: char|
            if c == '.' {
                '_'
            } else {
                c
            },
    );
    if id.len() == 0 {
        "wd"@
    } else {
        id
    }
}

/// The handle of a portal request.
pub open spec fn request_handle(sender: Seq<char>, token: Seq<char>) -> Seq<char> {
    "/org/freedesktop/portal/desktop/request/"@ + sender_id(sender) + "/"@ + token
}

/// Whether `c` may stand between the slashes of an object path.
pub open spec fn path_char(c: char) -> bool {
    atspi::alphanumeric(c) || c == '_'
}

/// Whether `s` is a valid object path: it begins with a slash, holds names of ASCII
/// letters, digits and underscores, and has no empty name in it.
pub open spec fn object_path(s: Seq<char>) -> bool {
    &&& s.len() > 0
    &&& s[0] == '/'
    &&& s.len() > 1 ==> s.last() != '/'
    &&& forall|i: int| 0 <= i < s.len() ==> #[trigger] s[i] == '/' || path_char(s[i])
    &&& forall|i: int| 0 < i < s.len() && #[trigger] s[i] == '/' ==> s[i - 1] != '/'
}

/// The handle that a portal request is answered with.
pub open spec fn answered_handle(sender: Seq<char>, token: Seq<char>) -> Seq<char> {
    if object_path(request_handle(sender, token)) {
        request_handle(sender, token)
    } else {
        FALLBACK_HANDLE@
    }
}

/// Calls `zvariant::ObjectPath::try_from` (through `zbus`), which accepts a text if
/// and only if it keeps the rules for object paths.
#[verifier::external_body]
fn valid_object_path(path: &str) -> (r: bool)
    ensures
        r == object_path(path@),
{
    ::zbus::zvariant::ObjectPath::try_from(path).is_ok()
}

fn sender_id_of(sender: &str) -> (r: String)
    ensures
        r@ == sender_id(sender@),
{
    let cs = chars_of(sender);
    let mut from: usize = 0;
    assert(cs@.skip(0) =~= cs@);
    while from < cs.len() && cs[from] == ':'
        invariant
            cs@ == sender@,
            from <= cs.len(),
            without_leading_colons(sender@) == without_leading_colons(cs@.skip(from as int)),
        decreases cs.len() - from,
    {
        assert(cs@.skip(from as int).skip(1) =~= cs@.skip(from + 1));
        from = from + 1;
    }
    let ghost rest = cs@.skip(from as int);
    let ghost id = rest.map_values(
        |c: char|
            if c == '.' {
                '_'
            } else {
                c
            },
    );
    if from == cs.len() {
        return "wd".to_string();
    }
    let mut out = String::new();
    let mut i: usize = from;
    while i < cs.len()
        invariant
            rest == cs@.skip(from as int),
            id == rest.map_values(
                |c: char|
                    if c == '.' {
                        '_'
                    } else {
                        c
                    },
            ),
            from <= i <= cs.len(),
            out@ == id.take(i - from),
        decreases cs.len() - i,
    {
        if cs[i] == '.' {
            out.push('_');
        } else {
            out.push(cs[i]);
        }
        assert(out@ =~= id.take(i + 1 - from));
        i = i + 1;
    }
    assert(out@ =~= id);
    out
}

/// Derives the handle of a portal request from the caller's unique bus name and the
/// request's token. A caller without a name counts as `wd`.
pub fn request_handle_path(sender: &str, token: &str) -> (r: String)
    ensures
        r@ == request_handle(sender@, token@),
{
    let mut s = "/org/freedesktop/portal/desktop/request/".to_string();
    s.append(sender_id_of(sender).as_str());
    s.append("/");
    s.append(token);
    s
}

/// The token of a request: the caller's, or one made up from a number.
pub open spec fn token_used(handle_token: Option<Seq<char>>, upcoming: u64) -> Seq<char> {
    match handle_token {
        Some(t) => t,
        None => "wd"@ + text::decimal(upcoming as nat),
    }
}

/// The number of the next token made up after a request.
pub open spec fn token_after(given: bool, upcoming: u64) -> u64 {
    if given {
        upcoming
    } else if upcoming == u64::MAX {
        0
    } else {
        (upcoming + 1) as u64
    }
}

/// Whether an entry is the capture of a request with these arguments, numbered `seq`.
pub open spec fn requests(
    q: CapturedOpenUri,
    seq: nat,
    parent_window: String,
    uri: String,
    options: Seq<snapshot::Key>,
) -> bool {
    &&& q.seq == seq
    &&& q.parent_window == parent_window
    &&& q.uri == uri
    &&& in_text_order(atspi::texts(q.options@))
    &&& atspi::texts(q.options@).to_multiset() == rendered(options).to_multiset()
}

/// The portal's open-URI service: the log, and the number of the next token it makes
/// up itself.
#[derive(Debug)]
pub struct OpenUriLog {
    records: Records<CapturedOpenUri>,
    next_token: u64,
}

impl OpenUriLog {
    /// The captured requests.
    pub closed spec fn entries(self) -> Seq<CapturedOpenUri> {
        self.records@
    }

    /// The number of the next token made up for a request without one.
    pub closed spec fn upcoming(self) -> u64 {
        self.next_token
    }

    /// Whether every entry is numbered by its place in the log.
    pub open spec fn numbered(self) -> bool {
        forall|i: int| 0 <= i < self.entries().len() ==> (#[trigger] self.entries()[i]).seq == i
    }

    /// A service that has captured nothing. Tokens start at 1.
    pub fn new() -> (r: Self)
        ensures
            r.entries() == Seq::<CapturedOpenUri>::empty(),
            r.upcoming() == 1,
            r.numbered(),
    {
        OpenUriLog { records: Records::default(), next_token: 1 }
    }

    /// Captures one request and gives its handle, made from the token that the
    /// caller chose or else from one of the service's own.
    pub fn open_uri(
        &mut self,
        sender: &str,
        handle_token: Option<String>,
        parent_window: String,
        uri: String,
        options: &Vec<(String, String)>,
    ) -> (r: String)
        requires
            old(self).numbered(),
        ensures
            final(self).numbered(),
            r@ == answered_handle(
                sender@,
                token_used(crate::error::optional(handle_token), old(self).upcoming()),
            ),
            final(self).upcoming() == token_after(handle_token is Some, old(self).upcoming()),
            final(self).entries().drop_last() == old(self).entries(),
            final(self).entries().len() == old(self).entries().len() + 1,
            requests(
                final(self).entries().last(),
                old(self).entries().len(),
                parent_window,
                uri,
                snapshot::keys_of(options@),
            ),
    {
        let token = match handle_token {
            Some(t) => t,
            None => {
                let n: u64 = self.next_token;
                self.next_token = if n == u64::MAX {
                    0
                } else {
                    n + 1
                };
                let mut t = "wd".to_string();
                t.append(decimal_u64(n).as_str());
                t
            },
        };
        let handle = request_handle_path(sender, token.as_str());
        let lines = render_dict(options);
        let seq: u64 = self.records.len() as u64;
        self.records.append(CapturedOpenUri { seq, parent_window, uri, options: lines });
        proof {
            let was = old(self).entries();
            let now = self.entries();
            assert(now.drop_last() == was);
            assert forall|i: int| 0 <= i < now.len() implies (#[trigger] now[i]).seq == i by {
                if i < was.len() {
                    assert(now[i] == was[i]);
                }
            }
        }
        if valid_object_path(handle.as_str()) {
            handle
        } else {
            FALLBACK_HANDLE.to_string()
        }
    }

    /// The log of captured requests.
    pub fn records(&self) -> (r: &Records<CapturedOpenUri>)
        ensures
            r@ == self.entries(),
    {
        &self.records
    }
}

/// The handle of a request is a valid object path, and so is what the caller gets,
/// wherever the caller's name has no other characters than a bus name's letters,
/// digits, underscores and dots, and the token is a path name.
pub proof fn law_handle_is_object_path(sender: Seq<char>, token: Seq<char>)
    requires
        forall|i: int|
            0 <= i < without_leading_colons(sender).len() ==> path_char(
                #[trigger] without_leading_colons(sender)[i],
            ) || without_leading_colons(sender)[i] == '.',
        token.len() > 0,
        forall|i: int| 0 <= i < token.len() ==> path_char(#[trigger] token[i]),
    ensures
        object_path(request_handle(sender, token)),
        answered_handle(sender, token) == request_handle(sender, token),
{
    let id = sender_id(sender);
    reveal_strlit("wd");
    reveal_strlit("/");
    reveal_strlit("/org/freedesktop/portal/desktop/request/");
    let base = "/org/freedesktop/portal/desktop/request/"@;
    assert(id.len() > 0);
    assert(forall|i: int| 0 <= i < id.len() ==> path_char(#[trigger] id[i]));
    let h = request_handle(sender, token);
    let n = base.len() as int;
    let m = n + id.len();
    assert(h == base + id + "/"@ + token);
    assert forall|i: int| 0 <= i < h.len() implies #[trigger] h[i] == '/' || path_char(h[i]) by {
        if i < n {
            assert(h[i] == base[i]);
        } else if i < m {
            assert(h[i] == id[i - n]);
        } else if i > m {
            assert(h[i] == token[i - m - 1]);
        }
    }
    assert forall|i: int| 0 < i < h.len() && #[trigger] h[i] == '/' implies h[i - 1] != '/' by {
        if i < n {
            assert(h[i] == base[i]);
            assert(h[i - 1] == base[i - 1]);
        } else if i < m {
            assert(h[i] == id[i - n]);
        } else if i > m {
            assert(h[i] == token[i - m - 1]);
        } else {
            assert(h[i - 1] == id[id.len() - 1]);
        }
    }
    assert(h.last() == token.last());
}

/// The peer that the answer to a request is addressed to: its sender, or everyone
/// where that is not known.
pub fn response_destination(sender: &str) -> (r: Option<String>)
    ensures
        match r {
            Some(s) => sender@.len() > 0 && s@ == sender@,
            None => sender@.len() == 0,
        },
{
    if sender.unicode_len() > 0 {
        Some(sender.to_string())
    } else {
        None
    }
}

// ── Both services ───────────────────────────────────────────────────────────

/// The capture of external effects.
#[derive(Debug)]
pub struct ExternalSinks {
    pub notifications: NotificationLog,
    pub open_uris: OpenUriLog,
}

impl ExternalSinks {
    /// Whether both logs are numbered by place.
    pub open spec fn numbered(self) -> bool {
        self.notifications.numbered() && self.open_uris.numbered()
    }

    /// Nothing captured yet.
    pub fn new() -> (r: Self)
        ensures
            r.notifications.entries() == Seq::<CapturedNotification>::empty(),
            r.notifications.upcoming() == 1,
            r.open_uris.entries() == Seq::<CapturedOpenUri>::empty(),
            r.open_uris.upcoming() == 1,
            r.numbered(),
    {
        ExternalSinks { notifications: NotificationLog::new(), open_uris: OpenUriLog::new() }
    }

    /// Every notification captured so far.
    pub fn notifications(&self) -> (r: Vec<CapturedNotification>)
        ensures
            r@.len() == self.notifications.entries().len(),
            forall|i: int|
                0 <= i < r@.len() ==> cloned::<CapturedNotification>(
                    self.notifications.entries()[i],
                    #[trigger] r@[i],
                ),
    {
        self.notifications.records().snapshot()
    }

    /// Every request to open a URI captured so far.
    pub fn open_uri_requests(&self) -> (r: Vec<CapturedOpenUri>)
        ensures
            r@.len() == self.open_uris.entries().len(),
            forall|i: int|
                0 <= i < r@.len() ==> cloned::<CapturedOpenUri>(
                    self.open_uris.entries()[i],
                    #[trigger] r@[i],
                ),
    {
        self.open_uris.records().snapshot()
    }

    /// How many notifications were captured so far.
    pub fn notification_count(&self) -> (r: usize)
        ensures
            r == self.notifications.entries().len(),
    {
        self.notifications.records().len()
    }

    /// How many requests to open a URI were captured so far.
    pub fn open_uri_count(&self) -> (r: usize)
        ensures
            r == self.open_uris.entries().len(),
    {
        self.open_uris.records().len()
    }
}

// ── Laws ────────────────────────────────────────────────────────────────────

/// A captured notification holds what was sent, each part in its place, and the id that the
/// caller was answered.
pub proof fn law_capture_keeps_every_argument(
    n: CapturedNotification,
    seq: nat,
    app_name: String,
    replaces_id: u32,
    app_icon: String,
    summary: String,
    body: String,
    actions: Vec<String>,
    hints: Seq<snapshot::Key>,
    expire_timeout: i32,
    id: u32,
)
    requires
        captures(
            n,
            seq,
            app_name,
            replaces_id,
            app_icon,
            summary,
            body,
            actions,
            hints,
            expire_timeout,
            id,
        ),
    ensures
        n.seq == seq,
        n.app_name@ == app_name@,
        n.replaces_id == replaces_id,
        n.app_icon@ == app_icon@,
        n.summary@ == summary@,
        n.body@ == body@,
        n.actions@ == actions@,
        n.expire_timeout == expire_timeout,
        n.id == id,
        n.hints@.len() == hints.len(),
        forall|i: int|
            0 <= i < hints.len() ==> atspi::texts(n.hints@).contains(
                (#[trigger] hints[i]).0.push('=') + hints[i].1,
            ),
        in_text_order(atspi::texts(n.hints@)),
{
    lemma_lines_of_pairs(atspi::texts(n.hints@), hints);
}

proof fn lemma_lines_of_pairs(lines: Seq<Seq<char>>, pairs: Seq<snapshot::Key>)
    requires
        lines.to_multiset() == rendered(pairs).to_multiset(),
    ensures
        lines.len() == pairs.len(),
        forall|i: int|
            0 <= i < pairs.len() ==> lines.contains((#[trigger] pairs[i]).0.push('=') + pairs[i].1),
{
    broadcast use vstd::seq_lib::group_to_multiset_ensures;

    reveal_strlit("=");
    let r = rendered(pairs);
    lines.to_multiset_ensures();
    r.to_multiset_ensures();
    assert forall|i: int| 0 <= i < pairs.len() implies lines.contains(
        (#[trigger] pairs[i]).0.push('=') + pairs[i].1,
    ) by {
        assert(r[i] =~= pairs[i].0.push('=') + pairs[i].1);
        assert(r.contains(r[i]));
        assert(r.to_multiset().contains(r[i]));
        assert(lines.to_multiset().contains(r[i]));
    }
}

/// A captured request to open a URI holds what was sent, each part in its place.
pub proof fn law_request_keeps_every_argument(
    q: CapturedOpenUri,
    seq: nat,
    parent_window: String,
    uri: String,
    options: Seq<snapshot::Key>,
)
    requires
        requests(q, seq, parent_window, uri, options),
    ensures
        q.seq == seq,
        q.parent_window@ == parent_window@,
        q.uri@ == uri@,
        q.options@.len() == options.len(),
        forall|i: int|
            0 <= i < options.len() ==> atspi::texts(q.options@).contains(
                (#[trigger] options[i]).0.push('=') + options[i].1,
            ),
        in_text_order(atspi::texts(q.options@)),
{
    lemma_lines_of_pairs(atspi::texts(q.options@), options);
}

/// A line of a dictionary falls apart into its key and its value at the first equals sign,
/// wherever the key holds none.
pub proof fn law_dictionary_lines_read_back(pairs: Seq<snapshot::Key>, i: int)
    requires
        0 <= i < pairs.len(),
        !pairs[i].0.contains('='),
    ensures
        rendered(pairs).len() == pairs.len(),
        text::split_once(rendered(pairs)[i], '=') == Some(pairs[i]),
{
    reveal_strlit("=");
    let (k, v) = pairs[i];
    let line = rendered(pairs)[i];
    assert forall|j: int| 0 <= j < k.len() implies line[j] != '=' by {
        assert(k.contains(k[j]));
    }
    text::lemma_first_index_is(line, '=', k.len() as int);
    assert(line.take(k.len() as int) =~= k);
    assert(line.skip(k.len() as int + 1) =~= v);
}

/// A notification that replaces another keeps that one's id and uses up none. A new one gets
/// the next id, and the one behind it is next: no two new ones share an id before all are
/// used up.
pub proof fn law_ids_are_handed_out(replaces_id: u32, upcoming: u32)
    ensures
        replaces_id != 0 ==> given_id(replaces_id, upcoming) == replaces_id && id_after(
            replaces_id,
            upcoming,
        ) == upcoming,
        given_id(0, upcoming) == upcoming,
        upcoming < u32::MAX ==> id_after(0, upcoming) == upcoming + 1,
        id_after(0, u32::MAX) == 0,
        given_id(0, id_after(0, upcoming)) != given_id(0, upcoming),
{
}

/// A request keeps the token its caller chose, and uses up none of the service's own. Without
/// one it gets the next token, and the one behind it is next; made-up tokens of different
/// numbers differ.
pub proof fn law_tokens_are_handed_out(token: Seq<char>, m: u64, n: u64)
    ensures
        token_used(Some(token), n) == token,
        token_after(true, n) == n,
        n < u64::MAX ==> token_after(false, n) == n + 1,
        token_after(false, u64::MAX) == 0,
        token_used(None, n) == "wd"@ + text::decimal_int(n as int),
        token_used(None, m) == token_used(None, n) ==> m == n,
{
    if token_used(None, m) == token_used(None, n) {
        let front = "wd"@.len() as int;
        assert(token_used(None, m).skip(front) =~= text::decimal(m as nat));
        assert(token_used(None, n).skip(front) =~= text::decimal(n as nat));
        text::law_numerals_differ(m as int, n as int);
    }
}

/// A handle lies below the portal's requests, under its sender and then under its token. The
/// sender's part is the bus name without its leading colons and with underscores for dots; a
/// sender without a name counts as `wd`.
pub proof fn law_handle_names_sender_and_token(colons: nat, name: Seq<char>, token: Seq<char>)
    requires
        name.len() > 0 ==> name[0] != ':',
    ensures
        ({
            let sender = Seq::new(colons, |i: int| ':') + name;
            let id = sender_id(sender);
            &&& request_handle(sender, token) == "/org/freedesktop/portal/desktop/request/"@ + id
                + "/"@ + token
            &&& name.len() > 0 ==> id.len() == name.len() && forall|i: int|
                0 <= i < name.len() ==> #[trigger] id[i] == (if name[i] == '.' {
                    '_'
                } else {
                    name[i]
                })
            &&& name.len() == 0 ==> id == "wd"@
        }),
    decreases colons,
{
    let sender = Seq::new(colons, |i: int| ':') + name;
    lemma_colons_are_dropped(colons, name);
}

proof fn lemma_colons_are_dropped(colons: nat, name: Seq<char>)
    requires
        name.len() > 0 ==> name[0] != ':',
    ensures
        without_leading_colons(Seq::new(colons, |i: int| ':') + name) == name,
    decreases colons,
{
    let sender = Seq::new(colons, |i: int| ':') + name;
    if colons == 0 {
        assert(sender =~= name);
    } else {
        let rest = Seq::new((colons - 1) as nat, |i: int| ':') + name;
        assert(sender.skip(1) =~= rest);
        assert(sender[0] == ':');
        lemma_colons_are_dropped((colons - 1) as nat, name);
    }
}

/// A request is answered with its handle where that is an object path, and with one handle
/// for all otherwise. Requests of one sender with different tokens have different handles.
pub proof fn law_answered_handles(sender: Seq<char>, a: Seq<char>, b: Seq<char>)
    ensures
        object_path(request_handle(sender, a)) ==> answered_handle(sender, a) == request_handle(
            sender,
            a,
        ),
        !object_path(request_handle(sender, a)) ==> answered_handle(sender, a)
            == "/org/freedesktop/portal/desktop/request/wd/wd"@,
        request_handle(sender, a) == request_handle(sender, b) ==> a == b,
{
    let front = "/org/freedesktop/portal/desktop/request/"@ + sender_id(sender) + "/"@;
    if request_handle(sender, a) == request_handle(sender, b) {
        assert(request_handle(sender, a).skip(front.len() as int) =~= a);
        assert(request_handle(sender, b).skip(front.len() as int) =~= b);
    }
}

/// A look finds the first entry that matches, at or behind the place it begins at; without
/// one the waiter sleeps while it has time, and fails when it has none.
pub proof fn law_look_finds_the_first_match<T, F: Fn(&T) -> bool>(
    items: Seq<T>,
    after: usize,
    pred: F,
    expired: bool,
    secs: u64,
    nanos: u32,
    action: WaitAction,
    matching: spec_fn(T) -> bool,
)
    requires
        looked(items, after, pred, expired, secs, nanos, action),
        forall|t: T, b: bool| #[trigger] pred.ensures((&t,), b) ==> b == matching(t),
    ensures
        match action {
            WaitAction::Ready(k) => after <= k < items.len() && matching(items[k as int]) && forall|
                i: int,
            |
                after <= i < k ==> !matching(#[trigger] items[i]),
            WaitAction::Sleep => !expired && forall|i: int|
                after <= i < items.len() ==> !matching(#[trigger] items[i]),
            WaitAction::Fail(e) => expired && e@ is Timeout && forall|i: int|
                after <= i < items.len() ==> !matching(#[trigger] items[i]),
        },
{
    match action {
        WaitAction::Ready(k) => {
            assert forall|i: int| after <= i < k implies !matching(#[trigger] items[i]) by {
                assert(pred.ensures((&items[i],), false));
            }
        },
        _ => {
            assert forall|i: int| after <= i < items.len() implies !matching(
                #[trigger] items[i],
            ) by {
                assert(pred.ensures((&items[i],), false));
            }
        },
    }
}

/// A waiter looks again only where the log grew; a wait whose time is up ends with its own
/// error, and one on a cancelled session as cancelled.
pub proof fn law_waiter_wakes_up(e: ErrorView, secs: u64, nanos: u32)
    ensures
        woken(WakeUp::Grown, e) is None,
        woken(WakeUp::Elapsed, e) == Some(e),
        woken(WakeUp::Cancelled, e) == Some(ErrorView::Cancelled),
        unmatched(secs, nanos) == ErrorView::Timeout(
            "no captured entry matched within "@ + text::duration_text(secs, nanos),
        ),
{
}

/// The names that the services answer to.
pub proof fn law_service_names()
    ensures
        NOTIFICATIONS_NAME@ == "org.freedesktop.Notifications"@,
        NOTIFICATIONS_PATH@ == "/org/freedesktop/Notifications"@,
        PORTAL_NAME@ == "org.freedesktop.portal.Desktop"@,
        PORTAL_PATH@ == "/org/freedesktop/portal/desktop"@,
        PORTAL_VERSION == 4,
        FALLBACK_HANDLE@ == "/org/freedesktop/portal/desktop/request/wd/wd"@,
{
}

} // verus!
