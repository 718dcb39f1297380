//! A running session: what is known of its application, what it has printed and sent
//! out, and where its windows lie.
use crate::cache::{AccessibleView, CachedAccessible};
use crate::error::{self, Error, ErrorView};
use crate::geometry::Rect;
use crate::gsettings::GSettingEntry;
use crate::launch::{
    self, resolve_default_timeout, SecondaryLaunchSpec, SessionConfig, FALLBACK_DEFAULT_TIMEOUT_MS,
};
use crate::lifecycle::Holdings;
use crate::locator::{self, Locator};
use crate::query::{self, evaluate_xpath_detailed, ElementInfo, InfoView};
use crate::selector::{self, find_by_id_xpath, find_by_name_xpath, find_by_role_name_xpath};
use crate::sink::{
    self, CapturedNotification, CapturedOpenUri, ExternalSinks, Records, WaitAction, WakeUp,
};
use crate::snapshot;
use crate::text::{self, decimal_u64, duration_debug, same_text};
use vstd::prelude::*;
use vstd::string::*;

verus! {

// ── Windows on the screen ───────────────────────────────────────────────────

/// The area of a rectangle.
pub open spec fn area(r: Rect) -> int {
    r.width * r.height
}

/// Whether a rectangle is no larger than the screen.
pub open spec fn fits(r: Rect, sw: i32, sh: i32) -> bool {
    r.width <= sw && r.height <= sh
}

/// The largest of the rectangles that are no larger than the screen, the last of
/// several that are equally large.
pub open spec fn content_box(bounds: Seq<Rect>, sw: i32, sh: i32) -> Option<Rect>
    decreases bounds.len(),
{
    if bounds.len() == 0 {
        None
    } else {
        let before = content_box(bounds.drop_last(), sw, sh);
        let b = bounds.last();
        if fits(b, sw, sh) && (before matches Some(c) ==> area(b) >= area(c)) {
            Some(b)
        } else {
            before
        }
    }
}

/// The distance that centres `inner` in `outer`.
pub open spec fn margin(outer: i32, inner: i32) -> int {
    (outer - inner) / 2
}

/// The largest of the rectangles that are no larger than the screen.
pub fn largest_fitting(bounds: &[Rect], sw: i32, sh: i32) -> (r: Option<Rect>)
    ensures
        r == content_box(bounds@, sw, sh),
{
    let mut best: Option<Rect> = None;
    let mut i: usize = 0;
    assert(bounds@.take(0) =~= Seq::<Rect>::empty());
    while i < bounds.len()
        invariant
            i <= bounds.len(),
            best == content_box(bounds@.take(i as int), sw, sh),
        decreases bounds.len() - i,
    {
        assert(bounds@.take(i + 1).drop_last() =~= bounds@.take(i as int));
        assert(bounds@.take(i + 1).last() == bounds@[i as int]);
        let b = bounds[i];
        if b.width <= sw && b.height <= sh {
            let size: i64 = product(b.width, b.height);
            let larger = match best {
                None => true,
                Some(c) => size >= product(c.width, c.height),
            };
            if larger {
                best = Some(b);
            }
        }
        i = i + 1;
    }
    assert(bounds@.take(i as int) =~= bounds@);
    best
}

fn product(a: i32, b: i32) -> (r: i64)
    ensures
        r == a * b,
{
    assert(-0x4000_0000_0000_0000 <= a * b <= 0x4000_0000_0000_0000) by (nonlinear_arith)
        requires
            -0x8000_0000 <= a <= 0x7fff_ffff,
            -0x8000_0000 <= b <= 0x7fff_ffff,
    ;
    a as i64 * b as i64
}

/// The origin on the screen of the application's window, which the compositor centres:
/// derived from the window-relative bounds of its elements and the size of the screen.
/// Gives `None` where no element is as small as the screen.
pub fn centered_window_origin(bounds: &[Rect], sw: i32, sh: i32) -> (r: Option<(i32, i32)>)
    requires
        content_box(bounds@, sw, sh) matches Some(c) ==> sw - c.width <= i32::MAX && sh - c.height
            <= i32::MAX,
    ensures
        match content_box(bounds@, sw, sh) {
            Some(c) => r matches Some(o) && o.0 == margin(sw, c.width) && o.1 == margin(
                sh,
                c.height,
            ),
            None => r is None,
        },
{
    proof {
        lemma_content_fits(bounds@, sw, sh);
    }
    match largest_fitting(bounds, sw, sh) {
        Some(c) => Some(((sw - c.width) / 2, (sh - c.height) / 2)),
        None => None,
    }
}

proof fn lemma_content_fits(bounds: Seq<Rect>, sw: i32, sh: i32)
    ensures
        content_box(bounds, sw, sh) matches Some(c) ==> fits(c, sw, sh) && bounds.contains(c),
        forall|i: int|
            0 <= i < bounds.len() && fits(#[trigger] bounds[i], sw, sh) ==> (content_box(
                bounds,
                sw,
                sh,
            ) matches Some(c) && area(c) >= area(bounds[i])),
    decreases bounds.len(),
{
    if bounds.len() > 0 {
        let front = bounds.drop_last();
        lemma_content_fits(front, sw, sh);
        if content_box(bounds, sw, sh) is Some {
            let c = content_box(bounds, sw, sh).unwrap();
            if c == bounds.last() {
                assert(bounds[bounds.len() - 1] == c);
            } else {
                let k = choose|k: int| 0 <= k < front.len() && front[k] == c;
                assert(bounds[k] == c);
            }
        }
        assert forall|i: int| 0 <= i < bounds.len() && fits(#[trigger] bounds[i], sw, sh) implies (
        content_box(bounds, sw, sh) matches Some(c) && area(c) >= area(bounds[i])) by {
            if i < front.len() {
                assert(front[i] == bounds[i]);
            }
        }
    }
}

/// The window's content is one of the rectangles, is no larger than the screen, and is
/// as large as any such rectangle; the origin derived from it lies on the screen.
pub proof fn law_window_lies_on_screen(bounds: Seq<Rect>, sw: i32, sh: i32)
    ensures
        match content_box(bounds, sw, sh) {
            Some(c) => {
                &&& bounds.contains(c)
                &&& fits(c, sw, sh)
                &&& margin(sw, c.width) >= 0
                &&& margin(sh, c.height) >= 0
                &&& forall|i: int|
                    0 <= i < bounds.len() && fits(#[trigger] bounds[i], sw, sh) ==> area(c)
                        >= area(bounds[i])
            },
            None => forall|i: int| 0 <= i < bounds.len() ==> !fits(#[trigger] bounds[i], sw, sh),
        },
{
    lemma_content_fits(bounds, sw, sh);
}

/// The bounds of the elements that have any.
pub open spec fn known_bounds(elements: Seq<InfoView>) -> Seq<Rect>
    decreases elements.len(),
{
    if elements.len() == 0 {
        seq![]
    } else {
        match elements.last().bounds {
            Some(b) => known_bounds(elements.drop_last()).push(b),
            None => known_bounds(elements.drop_last()),
        }
    }
}

/// The bounds of the elements that have any.
pub fn element_bounds(elements: &[ElementInfo]) -> (r: Vec<Rect>)
    ensures
        r@ == known_bounds(query::infos(elements@)),
{
    let ghost all = query::infos(elements@);
    let mut out: Vec<Rect> = Vec::new();
    let mut i: usize = 0;
    assert(all.take(0) =~= Seq::<InfoView>::empty());
    while i < elements.len()
        invariant
            all == query::infos(elements@),
            i <= elements.len(),
            out@ == known_bounds(all.take(i as int)),
        decreases elements.len() - i,
    {
        assert(all.take(i + 1).drop_last() =~= all.take(i as int));
        assert(all.take(i + 1).last() == elements@[i as int]@);
        if let Some(b) = elements[i].bounds {
            out.push(b);
        }
        i = i + 1;
    }
    assert(all.take(i as int) =~= all);
    out
}

/// What the search for the window's origin comes to.
pub open spec fn origin_of(elements: Seq<InfoView>, sw: i32, sh: i32) -> Result<
    (int, int),
    ErrorView,
> {
    match content_box(known_bounds(elements), sw, sh) {
        Some(c) => Ok((margin(sw, c.width), margin(sh, c.height))),
        None => Err(
            ErrorView::Atspi {
                message:
                    "window_origin: AT-SPI tree has no on-screen-sized elements to size the toplevel"@,
                source: None,
            },
        ),
    }
}

/// The origin on the screen of the application's window, given every element of its
/// tree and the size of the screen.
pub fn window_origin(elements: &[ElementInfo], sw: i32, sh: i32) -> (r: Result<
    (i32, i32),
    Error,
>)
    requires
        content_box(known_bounds(query::infos(elements@)), sw, sh) matches Some(c) ==> sw - c.width
            <= i32::MAX && sh - c.height <= i32::MAX,
    ensures
        (match r {
            Ok(o) => Ok((o.0 as int, o.1 as int)),
            Err(e) => Err(e@),
        }) == origin_of(query::infos(elements@), sw, sh),
{
    let bounds = element_bounds(elements);
    match centered_window_origin(bounds.as_slice(), sw, sh) {
        Some(o) => Ok(o),
        None => Err(
            Error::atspi(
                "window_origin: AT-SPI tree has no on-screen-sized elements to size the toplevel",
            ),
        ),
    }
}

/// Whether a window-relative rectangle has screen coordinates of 32 bits.
pub open spec fn placeable(r: Rect, origin: (i32, i32)) -> bool {
    &&& i32::MIN <= r.x + origin.0 <= i32::MAX
    &&& i32::MIN <= r.y + origin.1 <= i32::MAX
}

/// A window-relative rectangle in screen coordinates.
pub open spec fn on_screen(r: Rect, origin: (i32, i32)) -> Rect {
    Rect { x: (r.x + origin.0) as i32, y: (r.y + origin.1) as i32, ..r }
}

/// A window-relative rectangle in screen coordinates, given the window's origin.
pub fn to_screen_bounds(window_rel: Rect, origin: (i32, i32)) -> (r: Rect)
    requires
        placeable(window_rel, origin),
    ensures
        r.x == window_rel.x + origin.0,
        r.y == window_rel.y + origin.1,
        r.width == window_rel.width,
        r.height == window_rel.height,
        r == on_screen(window_rel, origin),
{
    Rect {
        x: window_rel.x + origin.0,
        y: window_rel.y + origin.1,
        width: window_rel.width,
        height: window_rel.height,
    }
}

// ── The session ─────────────────────────────────────────────────────────────

/// A running session, as far as decisions are taken on it.
#[derive(Debug)]
pub struct Session {
    pub id: String,
    pub app_name: String,
    /// Bus name of the application in the registry.
    pub app_bus_name: String,
    /// Object path of the application in the registry.
    pub app_path: String,
    connected: bool,
    sinks: Option<ExternalSinks>,
    secondary: SecondaryLaunchSpec,
    default_timeout_ns: u64,
    gsettings_isolated: bool,
    cancelled: bool,
    holdings: Holdings,
    stdout: Records<String>,
}

/// The mathematical value of a [`Session`].
#[verifier::ext_equal]
pub struct SessionView {
    pub id: Seq<char>,
    pub app_name: Seq<char>,
    pub app_bus_name: Seq<char>,
    pub app_path: Seq<char>,
    /// Whether there is a connection to the accessibility bus.
    pub connected: bool,
    /// The capture of external effects, where it is enabled.
    pub captured: Option<ExternalSinks>,
    /// What it takes to launch the application again.
    pub relaunch: SecondaryLaunchSpec,
    /// The default time limit of waits, in nanoseconds.
    pub limit: u64,
    /// Whether the application runs on the private settings store.
    pub isolated: bool,
    /// Whether the session was cancelled.
    pub over: bool,
    /// What has to be taken down at the end.
    pub held: Holdings,
    /// The lines that the application has printed.
    pub printed: Seq<String>,
}

impl View for Session {
    type V = SessionView;

    closed spec fn view(&self) -> SessionView {
        SessionView {
            id: self.id@,
            app_name: self.app_name@,
            app_bus_name: self.app_bus_name@,
            app_path: self.app_path@,
            connected: self.connected,
            captured: self.sinks,
            relaunch: self.secondary,
            limit: self.default_timeout_ns,
            isolated: self.gsettings_isolated,
            over: self.cancelled,
            held: self.holdings,
            printed: self.stdout@,
        }
    }
}

/// Nanoseconds as they are stored: in 64 bits, what lies beyond being cut off.
pub open spec fn stored_nanos(ns: nat) -> nat {
    ns % 0x1_0000_0000_0000_0000
}

fn cut_nanos(ns: u128) -> (r: u64)
    ensures
        r == stored_nanos(ns as nat),
{
    (ns % 0x1_0000_0000_0000_0000) as u64
}

/// The error of a request that needs the accessibility bus, on a session without it.
pub open spec fn no_connection() -> ErrorView {
    ErrorView::Atspi { message: "session has no AT-SPI connection"@, source: None }
}

/// The error of reading captured effects where none are captured.
pub open spec fn no_capture() -> ErrorView {
    ErrorView::Process {
        message:
            "external-effect capture is not enabled for this session; start it with SessionConfig.capture_external_effects = true"@,
        source: None,
    }
}

/// The error of changing a setting of an application on the host's settings.
pub open spec fn not_isolated() -> ErrorView {
    ErrorView::Process {
        message:
            "set_setting requires gsettings isolation; start with SessionConfig.gsettings_isolated = true"@,
        source: None,
    }
}

/// The error of a wait for a printed line that ended without a match.
pub open spec fn no_line(secs: u64, nanos: u32, printed: nat, after: nat) -> ErrorView {
    ErrorView::Timeout(
        "no stdout line matched within "@ + text::duration_text(secs, nanos) + " (buffer had "@
            + text::decimal(
            if printed > after {
                (printed - after) as nat
            } else {
                0
            },
        ) + " line(s) after cursor "@ + text::decimal(after) + ")"@,
    )
}

impl Session {
    /// A session that has just come up, given where its application was found, how it
    /// can be launched again, what the session holds and the value of the variable for
    /// the default time limit.
    pub fn started(
        id: String,
        cfg: &SessionConfig,
        app: (String, String),
        secondary: SecondaryLaunchSpec,
        holdings: Holdings,
        timeout_var: Option<&str>,
    ) -> (r: Self)
        ensures
            r@.id == id@,
            r@.app_name == cfg.app_name@,
            r@.app_bus_name == app.0@,
            r@.app_path == app.1@,
            r@.connected,
            match r@.captured {
                Some(s) => {
                    &&& holdings.sinks
                    &&& s.numbered()
                    &&& s.notifications.entries().len() == 0
                    &&& s.notifications.upcoming() == 1
                    &&& s.open_uris.entries().len() == 0
                    &&& s.open_uris.upcoming() == 1
                },
                None => !holdings.sinks,
            },
            r@.relaunch == secondary,
            r@.limit == stored_nanos(
                (1_000_000 * launch::default_timeout_ms(
                    match timeout_var {
                        Some(v) => Some(v@),
                        None => None,
                    },
                )) as nat,
            ),
            r@.isolated == cfg.gsettings_isolated,
            !r@.over,
            r@.held == holdings,
            r@.printed == Seq::<String>::empty(),
    {
        let ms: u64 = resolve_default_timeout(timeout_var);
        let sinks = if holdings.sinks {
            Some(ExternalSinks::new())
        } else {
            None
        };
        Session {
            id,
            app_name: cfg.app_name.clone(),
            app_bus_name: app.0,
            app_path: app.1,
            connected: true,
            sinks,
            secondary,
            default_timeout_ns: cut_nanos(1_000_000 * ms as u128),
            gsettings_isolated: cfg.gsettings_isolated,
            cancelled: false,
            holdings,
            stdout: Records::default(),
        }
    }

    /// A session without an application, a display or a bus, for tests.
    pub fn new_for_test(id: &str, app_name: &str) -> (r: Self)
        ensures
            r@.id == id@,
            r@.app_name == app_name@,
            r@.app_bus_name == Seq::<char>::empty(),
            r@.app_path == Seq::<char>::empty(),
            !r@.connected,
            r@.captured is None,
            r@.relaunch.command@ == "sleep"@,
            r@.relaunch.env@ == Seq::<(String, String)>::empty(),
            r@.relaunch.cwd is None,
            r@.limit == 1_000_000 * FALLBACK_DEFAULT_TIMEOUT_MS,
            !r@.isolated,
            !r@.over,
            r@.held == (Holdings {
                sinks: false,
                reader: false,
                recorder: false,
                recorder_stream: false,
                keepalive: false,
            }),
            r@.printed == Seq::<String>::empty(),
    {
        Session {
            id: id.to_string(),
            app_name: app_name.to_string(),
            app_bus_name: String::new(),
            app_path: String::new(),
            connected: false,
            sinks: None,
            secondary: SecondaryLaunchSpec {
                command: "sleep".to_string(),
                env: Vec::new(),
                cwd: None,
            },
            default_timeout_ns: 1_000_000 * FALLBACK_DEFAULT_TIMEOUT_MS,
            gsettings_isolated: false,
            cancelled: false,
            holdings: Holdings {
                sinks: false,
                reader: false,
                recorder: false,
                recorder_stream: false,
                keepalive: false,
            },
            stdout: Records::default(),
        }
    }

    // ── Locators ────────────────────────────────────────────────────────────

    /// A locator for a selector.
    pub fn locate(&self, xpath: &str) -> (r: Locator)
        ensures
            r@ == (locator::LocatorView { xpath: xpath@, timeout: None }),
    {
        Locator::new(xpath)
    }

    /// A locator for the root of the application's tree.
    pub fn root(&self) -> (r: Locator)
        ensures
            r@ == (locator::LocatorView { xpath: "/*"@, timeout: None }),
    {
        Locator::new("/*")
    }

    /// A locator for the elements with this toolkit id.
    pub fn find_by_id(&self, id: &str) -> (r: Locator)
        ensures
            r@ == (locator::LocatorView { xpath: selector::by_id(id@), timeout: None }),
            !query::uses_prefix(r@.xpath),
    {
        proof {
            selector::law_lookup_has_no_prefix(id@);
        }
        Locator::new(find_by_id_xpath(id).as_str())
    }

    /// A locator for the elements with this accessible name.
    pub fn find_by_name(&self, name: &str) -> (r: Locator)
        ensures
            r@ == (locator::LocatorView { xpath: selector::by_name(name@), timeout: None }),
            !query::uses_prefix(r@.xpath),
    {
        proof {
            selector::law_lookup_has_no_prefix(name@);
        }
        Locator::new(find_by_name_xpath(name).as_str())
    }

    /// A locator for the elements with this tag and accessible name.
    pub fn find_by_role_name(&self, role: &str, name: &str) -> (r: Locator)
        ensures
            r@ == (locator::LocatorView {
                xpath: selector::by_role_name(role@, name@),
                timeout: None,
            }),
    {
        Locator::new(find_by_role_name_xpath(role, name).as_str())
    }

    // ── State ───────────────────────────────────────────────────────────────

    /// The default time limit of waits, in nanoseconds.
    pub fn default_timeout(&self) -> (r: u64)
        ensures
            r == self@.limit,
    {
        self.default_timeout_ns
    }

    /// Sets the default time limit of waits, in nanoseconds. A limit that does not fit
    /// into 64 bits loses its upper ones.
    pub fn set_default_timeout(&mut self, timeout_ns: u128)
        ensures
            final(self)@ == (SessionView {
                limit: stored_nanos(timeout_ns as nat) as u64,
                ..old(self)@
            }),
    {
        self.default_timeout_ns = cut_nanos(timeout_ns);
    }

    /// Cancels whatever waits on this session. Cancelling twice changes nothing more.
    pub fn cancel(&mut self)
        ensures
            final(self)@ == (SessionView { over: true, ..old(self)@ }),
    {
        self.cancelled = true;
    }

    /// Ends the capture of external effects: what was captured is given up, and no
    /// more is captured.
    pub fn release_sinks(&mut self)
        ensures
            final(self)@ == (SessionView {
                captured: None,
                held: Holdings { sinks: false, ..old(self)@.held },
                ..old(self)@
            }),
    {
        self.sinks = None;
        self.holdings.sinks = false;
    }

    /// Whether the session was cancelled.
    pub fn is_cancelled(&self) -> (r: bool)
        ensures
            r == self@.over,
    {
        self.cancelled
    }

    /// Checks that the session has a connection to the accessibility bus.
    pub fn require_connection(&self) -> (r: Result<(), Error>)
        ensures
            error::outcome(r) == (if self@.connected {
                Ok(())
            } else {
                Err(no_connection())
            }),
    {
        if self.connected {
            Ok(())
        } else {
            Err(Error::atspi("session has no AT-SPI connection"))
        }
    }

    /// Checks that the session has a stream to take screenshots from.
    pub fn require_stream(&self) -> (r: Result<(), Error>)
        ensures
            error::outcome(r) == (if self@.held.keepalive {
                Ok(())
            } else {
                Err(
                    ErrorView::Screenshot { message: "no keepalive stream"@, source: None },
                )
            }),
    {
        if self.holdings.keepalive {
            Ok(())
        } else {
            Err(Error::screenshot("no keepalive stream"))
        }
    }

    /// What has to be taken down at the end.
    pub fn holdings(&self) -> (r: Holdings)
        ensures
            r == self@.held,
    {
        self.holdings
    }

    /// What it takes to launch the application again, unless the session is cancelled.
    pub fn launch_secondary(&self) -> (r: Result<&SecondaryLaunchSpec, Error>)
        ensures
            if self@.over {
                r matches Err(e) && e@ == ErrorView::Cancelled
            } else {
                r matches Ok(s) && *s == self@.relaunch
            },
    {
        if self.cancelled {
            return Err(Error::Cancelled);
        }
        Ok(&self.secondary)
    }

    /// The entry to write into the running application's settings store. Only a
    /// private store is ever written to.
    pub fn set_setting(&self, schema: &str, key: &str, value: &str) -> (r: Result<
        GSettingEntry,
        Error,
    >)
        ensures
            if self@.isolated {
                r matches Ok(e) && e.schema@ == schema@ && e.key@ == key@ && e.value@ == value@
            } else {
                r matches Err(e) && e@ == not_isolated()
            },
    {
        if !self.gsettings_isolated {
            return Err(
                Error::process(
                    "set_setting requires gsettings isolation; start with SessionConfig.gsettings_isolated = true",
                ),
            );
        }
        Ok(GSettingEntry::new(schema, key, value))
    }

    // ── Captured effects ────────────────────────────────────────────────────

    /// Whether external effects are captured.
    pub fn external_effects_enabled(&self) -> (r: bool)
        ensures
            r == (self@.captured is Some),
    {
        self.sinks.is_some()
    }

    fn sinks(&self) -> (r: Result<&ExternalSinks, Error>)
        ensures
            match self@.captured {
                Some(s) => r matches Ok(t) && *t == s,
                None => r matches Err(e) && e@ == no_capture(),
            },
    {
        match &self.sinks {
            Some(s) => Ok(s),
            None => Err(
                Error::process(
                    "external-effect capture is not enabled for this session; start it with SessionConfig.capture_external_effects = true",
                ),
            ),
        }
    }

    /// Captures one notification, if any are captured, and gives the id it is known by.
    pub fn notify(
        &mut self,
        app_name: String,
        replaces_id: u32,
        app_icon: String,
        summary: String,
        body: String,
        actions: Vec<String>,
        hints: &Vec<(String, String)>,
        expire_timeout: i32,
    ) -> (r: Option<u32>)
        requires
            old(self)@.captured matches Some(s) ==> s.numbered(),
        ensures
            match old(self)@.captured {
                Some(s) => {
                    &&& r == Some(sink::given_id(replaces_id, s.notifications.upcoming()))
                    &&& final(self)@.captured matches Some(t) && {
                        &&& t.numbered()
                        &&& t.open_uris == s.open_uris
                        &&& t.notifications.upcoming() == sink::id_after(
                            replaces_id,
                            s.notifications.upcoming(),
                        )
                        &&& t.notifications.entries().drop_last() == s.notifications.entries()
                        &&& t.notifications.entries().len() == s.notifications.entries().len() + 1
                        &&& sink::captures(
                            t.notifications.entries().last(),
                            s.notifications.entries().len(),
                            app_name,
                            replaces_id,
                            app_icon,
                            summary,
                            body,
                            actions,
                            snapshot::keys_of(hints@),
                            expire_timeout,
                            r.unwrap(),
                        )
                    }
                },
                None => r is None && final(self)@ == old(self)@,
            },
            final(self)@ == (SessionView { captured: final(self)@.captured, ..old(self)@ }),
    {
        match self.sinks.take() {
            Some(mut s) => {
                let id: u32 = s.notifications.notify(
                    app_name,
                    replaces_id,
                    app_icon,
                    summary,
                    body,
                    actions,
                    hints,
                    expire_timeout,
                );
                self.sinks = Some(s);
                Some(id)
            },
            None => None,
        }
    }

    /// Captures one request to open a URI, if any are captured, and gives its handle.
    pub fn open_uri(
        &mut self,
        sender: &str,
        handle_token: Option<String>,
        parent_window: String,
        uri: String,
        options: &Vec<(String, String)>,
    ) -> (r: Option<String>)
        requires
            old(self)@.captured matches Some(s) ==> s.numbered(),
        ensures
            match old(self)@.captured {
                Some(s) => {
                    &&& error::optional(r) == Some(
                        sink::answered_handle(
                            sender@,
                            sink::token_used(
                                error::optional(handle_token),
                                s.open_uris.upcoming(),
                            ),
                        ),
                    )
                    &&& final(self)@.captured matches Some(t) && {
                        &&& t.numbered()
                        &&& t.notifications == s.notifications
                        &&& t.open_uris.upcoming() == sink::token_after(
                            handle_token is Some,
                            s.open_uris.upcoming(),
                        )
                        &&& t.open_uris.entries().drop_last() == s.open_uris.entries()
                        &&& t.open_uris.entries().len() == s.open_uris.entries().len() + 1
                        &&& sink::requests(
                            t.open_uris.entries().last(),
                            s.open_uris.entries().len(),
                            parent_window,
                            uri,
                            snapshot::keys_of(options@),
                        )
                    }
                },
                None => r is None && final(self)@ == old(self)@,
            },
            final(self)@ == (SessionView { captured: final(self)@.captured, ..old(self)@ }),
    {
        match self.sinks.take() {
            Some(mut s) => {
                let handle = s.open_uris.open_uri(
                    sender,
                    handle_token,
                    parent_window,
                    uri,
                    options,
                );
                self.sinks = Some(s);
                Some(handle)
            },
            None => None,
        }
    }

    /// Every notification captured so far.
    pub fn notifications(&self) -> (r: Result<Vec<CapturedNotification>, Error>)
        ensures
            match self@.captured {
                Some(s) => r matches Ok(v) && v@.len() == s.notifications.entries().len() && forall|
                    i: int,
                |
                    0 <= i < v@.len() ==> cloned::<CapturedNotification>(
                        s.notifications.entries()[i],
                        #[trigger] v@[i],
                    ),
                None => r matches Err(e) && e@ == no_capture(),
            },
    {
        match self.sinks() {
            Ok(s) => Ok(s.notifications()),
            Err(e) => Err(e),
        }
    }

    /// Every request to open a URI captured so far.
    pub fn open_uri_requests(&self) -> (r: Result<Vec<CapturedOpenUri>, Error>)
        ensures
            match self@.captured {
                Some(s) => r matches Ok(v) && v@.len() == s.open_uris.entries().len() && forall|
                    i: int,
                |
                    0 <= i < v@.len() ==> cloned::<CapturedOpenUri>(
                        s.open_uris.entries()[i],
                        #[trigger] v@[i],
                    ),
                None => r matches Err(e) && e@ == no_capture(),
            },
    {
        match self.sinks() {
            Ok(s) => Ok(s.open_uri_requests()),
            Err(e) => Err(e),
        }
    }

    /// How many notifications were captured so far: where to begin to wait for later
    /// ones.
    pub fn notification_cursor(&self) -> (r: Result<usize, Error>)
        ensures
            match self@.captured {
                Some(s) => r matches Ok(n) && n == s.notifications.entries().len(),
                None => r matches Err(e) && e@ == no_capture(),
            },
    {
        match self.sinks() {
            Ok(s) => Ok(s.notification_count()),
            Err(e) => Err(e),
        }
    }

    /// How many requests to open a URI were captured so far.
    pub fn open_uri_cursor(&self) -> (r: Result<usize, Error>)
        ensures
            match self@.captured {
                Some(s) => r matches Ok(n) && n == s.open_uris.entries().len(),
                None => r matches Err(e) && e@ == no_capture(),
            },
    {
        match self.sinks() {
            Ok(s) => Ok(s.open_uri_count()),
            Err(e) => Err(e),
        }
    }

    /// One look of a waiter for a captured notification, from position `after` on, that satisfies
    /// `pred`. `expired` tells whether the time is up; a match counts even then.
    pub fn look_for_notification<F: Fn(&CapturedNotification) -> bool>(
        &self,
        after: usize,
        pred: F,
        expired: bool,
        secs: u64,
        nanos: u32,
    ) -> (r: Result<WaitAction, Error>)
        requires
            self@.captured matches Some(s) ==> forall|i: int|
                0 <= i < s.notifications.entries().len() ==> pred.requires(
                    (&#[trigger] s.notifications.entries()[i],),
                ),
            nanos < 1_000_000_000,
        ensures
            match self@.captured {
                Some(s) => r matches Ok(action) && sink::looked(
                    s.notifications.entries(),
                    after,
                    pred,
                    expired,
                    secs,
                    nanos,
                    action,
                ),
                None => r matches Err(e) && e@ == no_capture(),
            },
    {
        match self.sinks() {
            Ok(s) => Ok(s.notifications.records().look(after, pred, expired, secs, nanos)),
            Err(e) => Err(e),
        }
    }

    /// One look of a waiter for a captured request, from position `after` on, that satisfies
    /// `pred`. `expired` tells whether the time is up; a match counts even then.
    pub fn look_for_open_uri<F: Fn(&CapturedOpenUri) -> bool>(
        &self,
        after: usize,
        pred: F,
        expired: bool,
        secs: u64,
        nanos: u32,
    ) -> (r: Result<WaitAction, Error>)
        requires
            self@.captured matches Some(s) ==> forall|i: int|
                0 <= i < s.open_uris.entries().len() ==> pred.requires(
                    (&#[trigger] s.open_uris.entries()[i],),
                ),
            nanos < 1_000_000_000,
        ensures
            match self@.captured {
                Some(s) => r matches Ok(action) && sink::looked(
                    s.open_uris.entries(),
                    after,
                    pred,
                    expired,
                    secs,
                    nanos,
                    action,
                ),
                None => r matches Err(e) && e@ == no_capture(),
            },
    {
        match self.sinks() {
            Ok(s) => Ok(s.open_uris.records().look(after, pred, expired, secs, nanos)),
            Err(e) => Err(e),
        }
    }

    // ── Printed lines ───────────────────────────────────────────────────────

    /// Takes in a line that the application printed.
    pub fn push_stdout_line(&mut self, line: String)
        ensures
            final(self)@ == (SessionView {
                printed: old(self)@.printed.push(line),
                ..old(self)@
            }),
    {
        self.stdout.append(line);
    }

    /// Every line that the application has printed.
    pub fn stdout_lines(&self) -> (r: Vec<String>)
        ensures
            r@ == self@.printed,
    {
        let v = self.stdout.snapshot();
        assert(v@ =~= self.stdout@);
        v
    }

    /// How many lines the application has printed: where to begin to wait for later
    /// ones.
    pub fn stdout_cursor(&self) -> (r: usize)
        ensures
            r == self@.printed.len(),
    {
        self.stdout.len()
    }

    fn no_line_error(&self, after: usize, secs: u64, nanos: u32) -> (r: Error)
        requires
            nanos < 1_000_000_000,
        ensures
            r@ == no_line(secs, nanos, self@.printed.len(), after as nat),
    {
        let printed: usize = self.stdout.len();
        let later: usize = if printed > after {
            printed - after
        } else {
            0
        };
        let mut m = "no stdout line matched within ".to_string();
        m.append(duration_debug(secs, nanos).as_str());
        m.append(" (buffer had ");
        m.append(decimal_u64(later as u64).as_str());
        m.append(" line(s) after cursor ");
        m.append(decimal_u64(after as u64).as_str());
        m.append(")");
        Error::Timeout(m)
    }

    /// One look of a waiter for a printed line, from position `after` on, that
    /// satisfies `pred`. `expired` tells whether the time is up; a match counts even
    /// then.
    pub fn look_for_stdout_line<F: Fn(&String) -> bool>(
        &self,
        after: usize,
        pred: F,
        expired: bool,
        secs: u64,
        nanos: u32,
    ) -> (r: WaitAction)
        requires
            forall|i: int| 0 <= i < self@.printed.len() ==> pred.requires(
                (&#[trigger] self@.printed[i],),
            ),
            nanos < 1_000_000_000,
        ensures
            match r {
                WaitAction::Ready(k) => {
                    &&& after <= k < self@.printed.len()
                    &&& pred.ensures((&self@.printed[k as int],), true)
                    &&& forall|i: int|
                        after <= i < k ==> pred.ensures((&#[trigger] self@.printed[i],), false)
                },
                WaitAction::Sleep => {
                    &&& !expired
                    &&& forall|i: int|
                        after <= i < self@.printed.len() ==> pred.ensures(
                            (&#[trigger] self@.printed[i],),
                            false,
                        )
                },
                WaitAction::Fail(e) => {
                    &&& expired
                    &&& e@ == no_line(secs, nanos, self@.printed.len(), after as nat)
                    &&& forall|i: int|
                        after <= i < self@.printed.len() ==> pred.ensures(
                            (&#[trigger] self@.printed[i],),
                            false,
                        )
                },
            },
    {
        match self.stdout.find_after(after, pred) {
            Some(k) => WaitAction::Ready(k),
            None => if expired {
                WaitAction::Fail(self.no_line_error(after, secs, nanos))
            } else {
                WaitAction::Sleep
            },
        }
    }

    /// Decides whether a waiter for a printed line looks again after it woke up: `None`,
    /// or the error it ends with.
    pub fn stdout_wake_up(&self, wake: WakeUp, after: usize, secs: u64, nanos: u32) -> (r: Option<
        Error,
    >)
        requires
            nanos < 1_000_000_000,
        ensures
            match wake {
                WakeUp::Grown => r is None,
                WakeUp::Elapsed => r matches Some(e) && e@ == no_line(
                    secs,
                    nanos,
                    self@.printed.len(),
                    after as nat,
                ),
                WakeUp::Cancelled => r matches Some(e) && e@ == ErrorView::Cancelled,
            },
            error::optional_error(r) == sink::woken(
                wake,
                no_line(secs, nanos, self@.printed.len(), after as nat),
            ),
    {
        match wake {
            WakeUp::Grown => None,
            WakeUp::Elapsed => Some(self.no_line_error(after, secs, nanos)),
            WakeUp::Cancelled => Some(Error::Cancelled),
        }
    }
}

// ── Accessibles outside the tree ────────────────────────────────────────────

/// Whether some element of the tree has this path.
pub open spec fn in_tree(tree: Seq<InfoView>, path: Seq<char>) -> bool {
    exists|i: int| 0 <= i < tree.len() && (#[trigger] tree[i]).ref_.1 == path
}

/// The cached accessibles whose path no element of the tree has.
pub open spec fn outside_tree(tree: Seq<InfoView>, cached: Seq<AccessibleView>) -> Seq<
    AccessibleView,
>
    decreases cached.len(),
{
    if cached.len() == 0 {
        seq![]
    } else if in_tree(tree, cached.last().ref_.1) {
        outside_tree(tree, cached.drop_last())
    } else {
        outside_tree(tree, cached.drop_last()).push(cached.last())
    }
}

/// The mathematical values of cached accessibles.
pub open spec fn accessibles(v: Seq<CachedAccessible>) -> Seq<AccessibleView> {
    v.map_values(|c: CachedAccessible| c@)
}

fn tree_has(tree: &[ElementInfo], path: &str) -> (r: bool)
    ensures
        r == in_tree(query::infos(tree@), path@),
{
    let ghost all = query::infos(tree@);
    let mut i: usize = 0;
    while i < tree.len()
        invariant
            all == query::infos(tree@),
            i <= tree.len(),
            forall|k: int| 0 <= k < i ==> (#[trigger] all[k]).ref_.1 != path@,
        decreases tree.len() - i,
    {
        assert(all[i as int] == tree@[i as int]@);
        if same_text(tree[i].ref_.1.as_str(), path) {
            assert(all[i as int].ref_.1 == path@);
            return true;
        }
        i = i + 1;
    }
    false
}

/// Picks the cached accessibles that the tree does not hold, in their order.
pub fn not_in_tree(tree: &[ElementInfo], cached: &[CachedAccessible]) -> (r: Vec<
    CachedAccessible,
>)
    ensures
        accessibles(r@) == outside_tree(query::infos(tree@), accessibles(cached@)),
{
    let ghost all = accessibles(cached@);
    let mut out: Vec<CachedAccessible> = Vec::new();
    let mut i: usize = 0;
    assert(all.take(0) =~= Seq::<AccessibleView>::empty());
    assert(accessibles(out@) =~= Seq::<AccessibleView>::empty());
    while i < cached.len()
        invariant
            all == accessibles(cached@),
            i <= cached.len(),
            accessibles(out@) == outside_tree(query::infos(tree@), all.take(i as int)),
        decreases cached.len() - i,
    {
        assert(all.take(i + 1).drop_last() =~= all.take(i as int));
        assert(all.take(i + 1).last() == cached@[i as int]@);
        if !tree_has(tree, cached[i].ref_.1.as_str()) {
            let ghost before = out@;
            let c = cached[i].clone();
            let ghost v = c@;
            out.push(c);
            assert(accessibles(out@) =~= accessibles(before).push(v));
        }
        i = i + 1;
    }
    assert(all.take(i as int) =~= all);
    out
}

/// The accessibles of the application's cache that a snapshot of its tree does not
/// hold, and that selectors therefore cannot reach.
pub fn hidden_accessibles(xml: &str, cached: &[CachedAccessible]) -> (r: Result<
    Vec<CachedAccessible>,
    Error,
>)
    ensures
        exists|tree: Result<Seq<InfoView>, ErrorView>|
            {
                &&& #[trigger] locator::described_answer(xml@, "//*"@, tree)
                &&& match tree {
                    Ok(t) => r matches Ok(v) && accessibles(v@) == outside_tree(
                        t,
                        accessibles(cached@),
                    ),
                    Err(e) => r matches Err(f) && f@ == e,
                }
            },
{
    proof {
        selector::law_whole_tree_is_reproducible(xml@);
    }
    let tree = evaluate_xpath_detailed(xml, "//*");
    let ghost found = locator::infos_outcome(tree);
    assert(locator::described_answer(xml@, "//*"@, found));
    match tree {
        Ok(t) => Ok(not_in_tree(t.as_slice(), cached)),
        Err(e) => Err(e),
    }
}

/// What is hidden is exactly what is cached and not in the tree.
pub proof fn law_hidden_is_the_difference(
    tree: Seq<InfoView>,
    cached: Seq<AccessibleView>,
    a: AccessibleView,
)
    ensures
        outside_tree(tree, cached).contains(a) <==> cached.contains(a) && !in_tree(
            tree,
            a.ref_.1,
        ),
    decreases cached.len(),
{
    if cached.len() > 0 {
        let front = cached.drop_last();
        law_hidden_is_the_difference(tree, front, a);
        let hidden = outside_tree(tree, front);
        assert(cached =~= front.push(cached.last()));
        assert(cached.contains(a) <==> front.contains(a) || cached.last() == a) by {
            if cached.contains(a) {
                let k = choose|k: int| 0 <= k < cached.len() && cached[k] == a;
                if k < front.len() {
                    assert(front[k] == a);
                }
            }
            if front.contains(a) {
                let k = choose|k: int| 0 <= k < front.len() && front[k] == a;
                assert(cached[k] == a);
            }
            if cached.last() == a {
                assert(cached[cached.len() - 1] == a);
            }
        }
        let grown = hidden.push(cached.last());
        assert(grown.contains(a) <==> hidden.contains(a) || cached.last() == a) by {
            if grown.contains(a) {
                let k = choose|k: int| 0 <= k < grown.len() && grown[k] == a;
                if k < hidden.len() {
                    assert(hidden[k] == a);
                }
            }
            if hidden.contains(a) {
                let k = choose|k: int| 0 <= k < hidden.len() && hidden[k] == a;
                assert(grown[k] == a);
            }
            if cached.last() == a {
                assert(grown[grown.len() - 1] == a);
            }
        }
    }
}

/// The window's content is the largest rectangle by width times height of those that are
/// neither wider nor higher than the screen; of several that are equally large it is the last.
pub proof fn law_last_of_the_largest_is_taken(bounds: Seq<Rect>, sw: i32, sh: i32)
    ensures
        match content_box(bounds, sw, sh) {
            Some(c) => exists|k: int|
                {
                    &&& 0 <= k < bounds.len()
                    &&& #[trigger] bounds[k] == c
                    &&& c.width <= sw && c.height <= sh
                    &&& forall|j: int|
                        0 <= j < bounds.len() && (#[trigger] bounds[j]).width <= sw
                            && bounds[j].height <= sh ==> bounds[j].width * bounds[j].height
                            <= c.width * c.height
                    &&& forall|j: int|
                        k < j < bounds.len() && (#[trigger] bounds[j]).width <= sw
                            && bounds[j].height <= sh ==> bounds[j].width * bounds[j].height
                            < c.width * c.height
                },
            None => forall|j: int|
                0 <= j < bounds.len() ==> (#[trigger] bounds[j]).width > sw || bounds[j].height
                    > sh,
        },
    decreases bounds.len(),
{
    if bounds.len() > 0 {
        let front = bounds.drop_last();
        let last = bounds.len() - 1;
        law_last_of_the_largest_is_taken(front, sw, sh);
        lemma_content_fits(front, sw, sh);
        lemma_content_fits(bounds, sw, sh);
        match content_box(bounds, sw, sh) {
            Some(c) => {
                let b = bounds[last];
                let before = content_box(front, sw, sh);
                if fits(b, sw, sh) && (before matches Some(d) ==> area(b) >= area(d)) {
                    assert(bounds[last] == c);
                } else {
                    let k = choose|k: int|
                        {
                            &&& 0 <= k < front.len()
                            &&& #[trigger] front[k] == c
                            &&& forall|j: int|
                                k < j < front.len() && (#[trigger] front[j]).width <= sw
                                    && front[j].height <= sh ==> front[j].width * front[j].height
                                    < c.width * c.height
                        };
                    assert(bounds[k] == c);
                    assert forall|j: int|
                        k < j < bounds.len() && (#[trigger] bounds[j]).width <= sw
                            && bounds[j].height <= sh implies bounds[j].width * bounds[j].height
                        < c.width * c.height by {
                        if j < front.len() {
                            assert(front[j] == bounds[j]);
                        }
                    }
                }
                assert forall|j: int|
                    0 <= j < bounds.len() && (#[trigger] bounds[j]).width <= sw && bounds[j].height
                        <= sh implies bounds[j].width * bounds[j].height <= c.width * c.height by {
                    assert(fits(bounds[j], sw, sh));
                }
            },
            None => {
                assert forall|j: int| 0 <= j < bounds.len() implies (#[trigger] bounds[j]).width
                    > sw || bounds[j].height > sh by {
                    if fits(bounds[j], sw, sh) {
                    }
                }
            },
        }
    }
}

/// The margins on the two sides of a centred window differ by less than two, and the smaller
/// one is in front.
pub proof fn law_window_is_centred(outer: i32, inner: i32)
    ensures
        ({
            let behind = outer - inner - margin(outer, inner);
            0 <= behind - margin(outer, inner) <= 1
        }),
{
}

/// The bounds of elements are listed in the elements' order; an element without bounds adds
/// nothing.
pub proof fn law_bounds_keep_their_order(elements: Seq<InfoView>, e: InfoView)
    ensures
        known_bounds(Seq::empty()).len() == 0,
        e.bounds is None ==> known_bounds(elements.push(e)) == known_bounds(elements),
        e.bounds is Some ==> known_bounds(elements.push(e)) == known_bounds(elements).push(
            e.bounds->0,
        ),
{
    assert(elements.push(e).drop_last() =~= elements);
}

proof fn lemma_known_bounds(elements: Seq<InfoView>, b: Rect)
    ensures
        known_bounds(elements).contains(b) <==> exists|i: int|
            0 <= i < elements.len() && (#[trigger] elements[i]).bounds == Some(b),
    decreases elements.len(),
{
    if elements.len() > 0 {
        let front = elements.drop_last();
        lemma_known_bounds(front, b);
        let (f, r) = (known_bounds(front), known_bounds(elements));
        if r.contains(b) {
            let k = choose|k: int| 0 <= k < r.len() && r[k] == b;
            if k < f.len() {
                assert(f[k] == b);
                let i = choose|i: int|
                    0 <= i < front.len() && (#[trigger] front[i]).bounds == Some(b);
                assert(elements[i] == front[i]);
            } else {
                assert(elements[elements.len() - 1].bounds == Some(b));
            }
        }
        if exists|i: int| 0 <= i < elements.len() && (#[trigger] elements[i]).bounds == Some(b) {
            let i = choose|i: int|
                0 <= i < elements.len() && (#[trigger] elements[i]).bounds == Some(b);
            if i < front.len() {
                assert(front[i] == elements[i]);
                let k = choose|k: int| 0 <= k < f.len() && f[k] == b;
                assert(r[k] == b);
            } else {
                assert(r[f.len() as int] == b);
            }
        }
    }
}

/// The window's origin centres the largest element that is neither wider nor higher than the
/// screen; where there is none, the origin is not known.
pub proof fn law_origin_centres_the_largest_element(elements: Seq<InfoView>, sw: i32, sh: i32)
    ensures
        match origin_of(elements, sw, sh) {
            Ok(o) => exists|i: int|
                {
                    &&& 0 <= i < elements.len()
                    &&& (#[trigger] elements[i]).bounds matches Some(c)
                    &&& c.width <= sw && c.height <= sh
                    &&& 0 <= sw - c.width - 2 * o.0 <= 1
                    &&& 0 <= sh - c.height - 2 * o.1 <= 1
                    &&& forall|j: int|
                        0 <= j < elements.len() ==> ((#[trigger] elements[j]).bounds matches Some(b)
                            ==> b.width <= sw && b.height <= sh ==> b.width * b.height <= c.width
                            * c.height)
                },
            Err(e) => {
                &&& e == (ErrorView::Atspi {
                    message:
                        "window_origin: AT-SPI tree has no on-screen-sized elements to size the toplevel"@,
                    source: None,
                })
                &&& forall|j: int|
                    0 <= j < elements.len() ==> ((#[trigger] elements[j]).bounds matches Some(b)
                        ==> b.width > sw || b.height > sh)
            },
        },
{
    let bounds = known_bounds(elements);
    lemma_content_fits(bounds, sw, sh);
    match content_box(bounds, sw, sh) {
        Some(c) => {
            lemma_known_bounds(elements, c);
            law_window_is_centred(sw, c.width);
            law_window_is_centred(sh, c.height);
            assert forall|j: int| 0 <= j < elements.len() implies ((
            #[trigger] elements[j]).bounds matches Some(b) ==> b.width <= sw && b.height <= sh
                ==> b.width * b.height <= c.width * c.height) by {
                if let Some(b) = elements[j].bounds {
                    lemma_known_bounds(elements, b);
                    let k = choose|k: int| 0 <= k < bounds.len() && bounds[k] == b;
                    if fits(bounds[k], sw, sh) {
                    }
                }
            }
            let i = choose|i: int|
                0 <= i < elements.len() && (#[trigger] elements[i]).bounds == Some(c);
            assert(elements[i].bounds == Some(c));
        },
        None => {
            assert forall|j: int| 0 <= j < elements.len() implies ((
            #[trigger] elements[j]).bounds matches Some(b) ==> b.width > sw || b.height > sh) by {
                if let Some(b) = elements[j].bounds {
                    lemma_known_bounds(elements, b);
                    let k = choose|k: int| 0 <= k < bounds.len() && bounds[k] == b;
                    if fits(bounds[k], sw, sh) {
                    }
                }
            }
        },
    }
}

/// Moving a rectangle onto the screen moves each of its points by the origin and leaves its
/// size alone; moving it by the opposite brings it back.
pub proof fn law_screen_position_is_shifted(r: Rect, x: i32, y: i32)
    requires
        placeable(r, (x, y)),
    ensures
        on_screen(r, (x, y)).x - r.x == x,
        on_screen(r, (x, y)).y - r.y == y,
        on_screen(r, (x, y)).width == r.width,
        on_screen(r, (x, y)).height == r.height,
        x > i32::MIN && y > i32::MIN ==> on_screen(on_screen(r, (x, y)), ((-x) as i32, (-y) as i32))
            == r,
{
}

/// A time limit is stored as it is, up to the largest that is kept; beyond it, limits that
/// differ by the number of those that are kept are stored alike.
pub proof fn law_limits_are_stored(ns: nat)
    ensures
        ns <= u64::MAX ==> stored_nanos(ns) == ns,
        stored_nanos(ns) <= u64::MAX,
        stored_nanos(ns + 0x1_0000_0000_0000_0000) == stored_nanos(ns),
{
}

/// The error of a wait for a line tells the time waited, how many lines there were behind the
/// position that the wait began at, and that position.
pub proof fn law_missing_line_is_told(secs: u64, nanos: u32, after: nat, more: nat, fewer: nat)
    requires
        fewer <= after,
    ensures
        no_line(secs, nanos, after + more, after) == ErrorView::Timeout(
            "no stdout line matched within "@ + text::duration_text(secs, nanos) + " (buffer had "@
                + text::decimal(more) + " line(s) after cursor "@ + text::decimal(after) + ")"@,
        ),
        no_line(secs, nanos, (after - fewer) as nat, after) == no_line(secs, nanos, after, after),
{
}

/// What a session cannot do is refused with the reason.
pub proof fn law_refusals_say_why()
    ensures
        no_connection() == (ErrorView::Atspi {
            message: "session has no AT-SPI connection"@,
            source: None,
        }),
        no_capture() == (ErrorView::Process {
            message:
                "external-effect capture is not enabled for this session; start it with SessionConfig.capture_external_effects = true"@,
            source: None,
        }),
        not_isolated() == (ErrorView::Process {
            message:
                "set_setting requires gsettings isolation; start with SessionConfig.gsettings_isolated = true"@,
            source: None,
        }),
{
}

/// Hidden accessibles are listed in the cache's order: the next one is added at the end where
/// no element of the tree has its path, and left out where one does.
pub proof fn law_hidden_keep_their_order(
    tree: Seq<InfoView>,
    cached: Seq<AccessibleView>,
    a: AccessibleView,
)
    ensures
        outside_tree(tree, Seq::empty()).len() == 0,
        (exists|i: int| 0 <= i < tree.len() && (#[trigger] tree[i]).ref_.1 == a.ref_.1)
            ==> outside_tree(tree, cached.push(a)) == outside_tree(tree, cached),
        (forall|i: int| 0 <= i < tree.len() ==> (#[trigger] tree[i]).ref_.1 != a.ref_.1)
            ==> outside_tree(tree, cached.push(a)) == outside_tree(tree, cached).push(a),
{
    assert(cached.push(a).drop_last() =~= cached);
}

/// The value of a session: each part that is public is the field of that name.
proof fn law_session_values_are_its_fields(s: Session)
    ensures
        s@.id == s.id@,
        s@.app_name == s.app_name@,
        s@.app_bus_name == s.app_bus_name@,
        s@.app_path == s.app_path@,
{
}

} // verus!
