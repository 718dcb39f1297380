//! Bringing an element into the viewport of its scrollable ancestor.
//!
//! Toolkits differ in which request they honour, so several are made in turn: the
//! element is asked to scroll itself into view, then given the focus, and at last
//! the wheel is turned over the viewport until the element lies inside it.
use crate::error::{self, Error, ErrorView};
use crate::geometry::Rect;
use crate::query::{ElementInfo, InfoView};
use crate::session::{self, to_screen_bounds};
use vstd::prelude::*;
use vstd::string::*;

verus! {

/// Most wheel ticks that are spent on one element.
pub const MAX_WHEEL_TICKS: u32 = 20;

/// Pause after each request, until the toolkit has scrolled.
pub const POST_SCROLL_SETTLE_MS: u64 = 80;

/// Far enough to drive the pointer into the corner of any display.
pub const CLAMP_DISTANCE: i32 = -10_000;

/// Where in the viewport an element is asked to go.
#[derive(Debug, Clone, Copy, PartialEq, Eq, Structural)]
pub enum ScrollKind {
    Anywhere,
    TopLeft,
    TopEdge,
}

/// What to do next.
#[derive(Debug, Clone, Copy, PartialEq, Eq, Structural)]
pub enum ScrollAction {
    /// Ask the element to scroll itself into view.
    ScrollTo(ScrollKind),
    /// Ask the element to scroll itself to this point of its window.
    ScrollToPoint { x: i32, y: i32 },
    /// Pause for so many milliseconds.
    Settle(u64),
    /// Read the element's bounds anew.
    Look,
    /// Give the element the focus.
    GrabFocus,
    /// Find where the window lies on the screen.
    Locate,
    /// Move the pointer by so much.
    MovePointer { dx: i32, dy: i32 },
    /// Turn the wheel vertically by so many ticks.
    Wheel(i32),
    /// Nothing is left to do.
    Finished,
}

/// What became of an action.
#[derive(Debug)]
pub enum ScrollEvent {
    /// The element answered a request to scroll; a failed request counts as `false`.
    Replied(bool),
    /// A pause is over.
    Settled,
    /// The bounds of the element, where it has any, or why they could not be read.
    Looked(Result<Option<Rect>, Error>),
    /// The origin of the window on the screen, or why it could not be found.
    Located(Result<(i32, i32), Error>),
    /// An input event, or a request for the focus, was carried out or failed.
    Acted(Result<(), Error>),
}

/// The mathematical value of a [`ScrollEvent`].
#[verifier::ext_equal]
pub enum EventView {
    Replied(bool),
    Settled,
    Looked(Result<Option<Rect>, ErrorView>),
    Located(Result<(i32, i32), ErrorView>),
    Acted(Result<(), ErrorView>),
}

impl View for ScrollEvent {
    type V = EventView;

    open spec fn view(&self) -> EventView {
        match *self {
            ScrollEvent::Replied(b) => EventView::Replied(b),
            ScrollEvent::Settled => EventView::Settled,
            ScrollEvent::Looked(r) => EventView::Looked(error::outcome(r)),
            ScrollEvent::Located(r) => EventView::Located(error::outcome(r)),
            ScrollEvent::Acted(r) => EventView::Acted(error::outcome(r)),
        }
    }
}

/// How far the attempt has come.
#[derive(Debug, Clone, Copy, PartialEq, Eq, Structural)]
pub enum ScrollPhase {
    /// The request to scroll with this number is due.
    Ask(u32),
    /// The request to scroll to a point is due.
    Point,
    SettleAsked,
    LookAsked,
    /// The request for the focus is due.
    Focus,
    SettleFocused,
    LookFocused,
    /// The window's place on the screen is due to be found.
    Locate,
    /// The pointer is due to be driven into the corner.
    Clamp,
    /// The pointer is due to be moved from the corner over the viewport.
    Centre,
    /// The wheel tick with this number is due.
    Turn(u32),
    SettleTurned(u32),
    LookTurned(u32),
    Ended,
}

/// An attempt to bring an element into view.
#[derive(Debug)]
pub struct ScrollRun {
    xpath: String,
    viewport: Rect,
    shown: Rect,
    direction: i32,
    focusable: bool,
    phase: ScrollPhase,
    failure: Option<Error>,
}

/// The mathematical value of a [`ScrollRun`].
#[verifier::ext_equal]
pub struct ScrollState {
    pub xpath: Seq<char>,
    /// The bounds to bring the element into, in the window.
    pub viewport: Rect,
    /// The same bounds on the screen, once the window was located.
    pub shown: Rect,
    /// Which way to turn the wheel, 0 for not at all.
    pub direction: i32,
    /// Whether the element can take the focus.
    pub focusable: bool,
    pub phase: ScrollPhase,
    /// The error that the attempt ended with.
    pub failure: Option<ErrorView>,
}

/// Which way to turn the wheel to bring `elem` closer to lying inside `scrollable`:
/// up, down, or not at all.
pub open spec fn direction_to(elem: Rect, scrollable: Rect) -> i32 {
    if elem.y < scrollable.y {
        -1i32
    } else if elem.bottom_edge() > scrollable.bottom_edge() {
        1
    } else {
        0
    }
}

/// Which way to turn the wheel: -1 for up, where the element lies above the viewport,
/// 1 for down, and 0 where it lies inside vertically.
pub fn wheel_direction(elem: &Rect, scrollable: &Rect) -> (r: i32)
    ensures
        r == direction_to(*elem, *scrollable),
        r == -1 <==> elem.y < scrollable.y,
        r == 0 ==> elem.y >= scrollable.y,
        -1 <= r <= 1,
{
    if elem.y < scrollable.y {
        -1
    } else if elem.bottom() > scrollable.bottom() {
        1
    } else {
        0
    }
}

/// The error of an attempt that has run out of wheel ticks.
pub open spec fn exhausted(xpath: Seq<char>) -> ErrorView {
    ErrorView::Atspi {
        message: "scroll_into_view exhausted 20 wheel ticks for "@ + xpath
            + " — toolkit likely ignored synthesized axis events"@,
        source: None,
    }
}

impl ScrollState {
    /// Whether the numbers of the phase are within their bounds.
    pub open spec fn valid(self) -> bool {
        match self.phase {
            ScrollPhase::Ask(k) => k < 3,
            ScrollPhase::Turn(n) => n < MAX_WHEEL_TICKS,
            ScrollPhase::SettleTurned(n) => n < MAX_WHEEL_TICKS,
            ScrollPhase::LookTurned(n) => n < MAX_WHEEL_TICKS,
            _ => true,
        }
    }

    /// The action that is due.
    pub open spec fn due(self) -> ScrollAction {
        match self.phase {
            ScrollPhase::Ask(k) => ScrollAction::ScrollTo(
                if k == 0 {
                    ScrollKind::Anywhere
                } else if k == 1 {
                    ScrollKind::TopLeft
                } else {
                    ScrollKind::TopEdge
                },
            ),
            ScrollPhase::Point => ScrollAction::ScrollToPoint {
                x: self.viewport.x,
                y: self.viewport.y,
            },
            ScrollPhase::SettleAsked => ScrollAction::Settle(POST_SCROLL_SETTLE_MS),
            ScrollPhase::LookAsked => ScrollAction::Look,
            ScrollPhase::Focus => ScrollAction::GrabFocus,
            ScrollPhase::Locate => ScrollAction::Locate,
            ScrollPhase::SettleFocused => ScrollAction::Settle(POST_SCROLL_SETTLE_MS),
            ScrollPhase::LookFocused => ScrollAction::Look,
            ScrollPhase::Clamp => ScrollAction::MovePointer {
                dx: CLAMP_DISTANCE,
                dy: CLAMP_DISTANCE,
            },
            ScrollPhase::Centre => ScrollAction::MovePointer {
                dx: self.shown.middle_x(),
                dy: self.shown.middle_y(),
            },
            ScrollPhase::Turn(_) => ScrollAction::Wheel(self.direction),
            ScrollPhase::SettleTurned(_) => ScrollAction::Settle(POST_SCROLL_SETTLE_MS),
            ScrollPhase::LookTurned(_) => ScrollAction::Look,
            ScrollPhase::Ended => ScrollAction::Finished,
        }
    }

    /// Whether an event can follow from the action that is due.
    pub open spec fn fits(self, event: EventView) -> bool {
        match self.due() {
            ScrollAction::ScrollTo(_) => event is Replied,
            ScrollAction::ScrollToPoint { x: _, y: _ } => event is Replied,
            ScrollAction::Settle(_) => event is Settled,
            ScrollAction::Look => event is Looked,
            ScrollAction::GrabFocus => event is Acted,
            ScrollAction::Locate => {
                &&& event is Located
                &&& event matches EventView::Located(Ok(origin)) ==> session::placeable(
                    self.viewport,
                    origin,
                )
            },
            ScrollAction::MovePointer { dx: _, dy: _ } => event is Acted,
            ScrollAction::Wheel(_) => event is Acted,
            ScrollAction::Finished => false,
        }
    }

    /// Whether an event shows the element inside the viewport.
    pub open spec fn in_view(self, event: EventView) -> bool {
        event matches EventView::Looked(Ok(Some(b))) && b.inside(self.viewport)
    }

    pub open spec fn at(self, phase: ScrollPhase) -> ScrollState {
        ScrollState { phase, ..self }
    }

    pub open spec fn succeeded(self) -> ScrollState {
        ScrollState { phase: ScrollPhase::Ended, failure: None, ..self }
    }

    pub open spec fn failed(self, e: ErrorView) -> ScrollState {
        ScrollState { phase: ScrollPhase::Ended, failure: Some(e), ..self }
    }

    /// The state before wheel tick `n`, if there is to be one.
    pub open spec fn turning(self, n: int) -> ScrollState {
        if n >= MAX_WHEEL_TICKS || self.direction == 0 {
            self.failed(exhausted(self.xpath))
        } else {
            self.at(ScrollPhase::Turn(n as u32))
        }
    }

    /// The state after a look that goes on to `phase` where the element is not in
    /// view. An element that is not found is not in view.
    pub open spec fn looked_on(self, event: EventView, phase: ScrollPhase) -> ScrollState {
        if self.in_view(event) {
            self.succeeded()
        } else {
            match event {
                EventView::Looked(Err(e)) if !(e is ElementNotFound) => self.failed(e),
                _ => self.at(phase),
            }
        }
    }

    /// The state after an event that fits.
    pub open spec fn after(self, event: EventView) -> ScrollState {
        match self.phase {
            ScrollPhase::Ask(k) => if event == EventView::Replied(true) || k >= 2 {
                self.at(ScrollPhase::Point)
            } else {
                self.at(ScrollPhase::Ask((k + 1) as u32))
            },
            ScrollPhase::Point => self.at(ScrollPhase::SettleAsked),
            ScrollPhase::SettleAsked => self.at(ScrollPhase::LookAsked),
            ScrollPhase::LookAsked => self.looked_on(
                event,
                if self.focusable {
                    ScrollPhase::Focus
                } else {
                    ScrollPhase::Locate
                },
            ),
            ScrollPhase::Focus => if event matches EventView::Acted(Err(_)) {
                self.at(ScrollPhase::Locate)
            } else {
                self.at(ScrollPhase::SettleFocused)
            },
            ScrollPhase::SettleFocused => self.at(ScrollPhase::LookFocused),
            ScrollPhase::LookFocused => self.looked_on(event, ScrollPhase::Locate),
            ScrollPhase::Locate => match event {
                EventView::Located(Ok(origin)) => ScrollState {
                    shown: session::on_screen(self.viewport, origin),
                    phase: ScrollPhase::Clamp,
                    ..self
                },
                EventView::Located(Err(e)) => self.failed(e),
                _ => self,
            },
            ScrollPhase::Clamp => match event {
                EventView::Acted(Err(e)) => self.failed(e),
                _ => self.at(ScrollPhase::Centre),
            },
            ScrollPhase::Centre => match event {
                EventView::Acted(Err(e)) => self.failed(e),
                _ => self.turning(0),
            },
            ScrollPhase::Turn(n) => match event {
                EventView::Acted(Err(e)) => self.failed(e),
                _ => self.at(ScrollPhase::SettleTurned(n)),
            },
            ScrollPhase::SettleTurned(n) => self.at(ScrollPhase::LookTurned(n)),
            ScrollPhase::LookTurned(n) => if self.in_view(event) {
                self.succeeded()
            } else {
                match event {
                    EventView::Looked(Err(e)) => if e is ElementNotFound {
                        self.succeeded()
                    } else {
                        self.failed(e)
                    },
                    _ => self.turning(n + 1),
                }
            },
            ScrollPhase::Ended => self,
        }
    }
}

impl View for ScrollRun {
    type V = ScrollState;

    closed spec fn view(&self) -> ScrollState {
        ScrollState {
            xpath: self.xpath@,
            viewport: self.viewport,
            shown: self.shown,
            direction: self.direction,
            focusable: self.focusable,
            phase: self.phase,
            failure: error::optional_error(self.failure),
        }
    }
}

fn scroll_error(before: &str, xpath: &str, after: &str) -> (r: Error)
    ensures
        r@ == (ErrorView::Atspi { message: before@ + xpath@ + after@, source: None }),
{
    let mut m = before.to_string();
    m.append(xpath);
    m.append(after);
    Error::atspi(m.as_str())
}

/// The error of an element without bounds.
pub open spec fn no_extents(xpath: Seq<char>) -> ErrorView {
    ErrorView::Atspi {
        message: "no bounds available for "@ + xpath
            + " — can't scroll without Component extents"@,
        source: None,
    }
}

/// The bounds of the element to bring into view.
pub fn scroll_target(xpath: &str, info: &ElementInfo) -> (r: Result<Rect, Error>)
    ensures
        error::outcome(r) == (match info@.bounds {
            Some(b) => Ok(b),
            None => Err(no_extents(xpath@)),
        }),
{
    match info.bounds {
        Some(b) => Ok(b),
        None => Err(
            scroll_error(
                "no bounds available for ",
                xpath,
                " — can't scroll without Component extents",
            ),
        ),
    }
}

/// What a request to bring an element into view comes to before anything is done:
/// an error, nothing to do, or an attempt.
pub open spec fn scroll_request(
    xpath: Seq<char>,
    target: Rect,
    focusable: bool,
    ancestor: Option<InfoView>,
) -> Result<Option<ScrollState>, ErrorView> {
    match ancestor {
        None => Err(
            ErrorView::Atspi {
                message: "no scrollable ancestor for "@ + xpath
                    + " — element isn't inside a ScrollPane/Viewport"@,
                source: None,
            },
        ),
        Some(a) => match a.bounds {
            None => Err(
                ErrorView::Atspi {
                    message: "scrollable ancestor for "@ + xpath
                        + " has no bounds — toolkit doesn't expose Component on it"@,
                    source: None,
                },
            ),
            Some(viewport) => if target.inside(viewport) {
                Ok(None)
            } else {
                Ok(
                    Some(
                        ScrollState {
                            xpath,
                            viewport,
                            shown: viewport,
                            direction: direction_to(target, viewport),
                            focusable,
                            phase: ScrollPhase::Ask(0),
                            failure: None,
                        },
                    ),
                )
            },
        },
    }
}

impl ScrollRun {
    /// Begins to bring an element with the bounds `target` into the viewport of its
    /// scrollable ancestor. Gives `None` where it lies inside already.
    pub fn begin(
        xpath: &str,
        target: Rect,
        focusable: bool,
        ancestor: Option<&ElementInfo>,
    ) -> (r: Result<Option<Self>, Error>)
        ensures
            (match r {
                Ok(Some(run)) => Ok(Some(run@)),
                Ok(None) => Ok(None),
                Err(e) => Err(e@),
            }) == scroll_request(
                xpath@,
                target,
                focusable,
                match ancestor {
                    Some(a) => Some(a@),
                    None => None,
                },
            ),
            r matches Ok(Some(run)) ==> run@.valid(),
    {
        let viewport = match ancestor {
            None => {
                return Err(
                    scroll_error(
                        "no scrollable ancestor for ",
                        xpath,
                        " — element isn't inside a ScrollPane/Viewport",
                    ),
                );
            },
            Some(a) => match a.bounds {
                None => {
                    return Err(
                        scroll_error(
                            "scrollable ancestor for ",
                            xpath,
                            " has no bounds — toolkit doesn't expose Component on it",
                        ),
                    );
                },
                Some(b) => b,
            },
        };
        if target.is_inside(&viewport) {
            return Ok(None);
        }
        Ok(
            Some(
                ScrollRun {
                    xpath: xpath.to_string(),
                    viewport,
                    shown: viewport,
                    direction: wheel_direction(&target, &viewport),
                    focusable,
                    phase: ScrollPhase::Ask(0),
                    failure: None,
                },
            ),
        )
    }

    /// The action that is due.
    pub fn next(&self) -> (r: ScrollAction)
        ensures
            r == self@.due(),
    {
        match self.phase {
            ScrollPhase::Ask(k) => if k == 0 {
                ScrollAction::ScrollTo(ScrollKind::Anywhere)
            } else if k == 1 {
                ScrollAction::ScrollTo(ScrollKind::TopLeft)
            } else {
                ScrollAction::ScrollTo(ScrollKind::TopEdge)
            },
            ScrollPhase::Point => ScrollAction::ScrollToPoint {
                x: self.viewport.x,
                y: self.viewport.y,
            },
            ScrollPhase::SettleAsked => ScrollAction::Settle(POST_SCROLL_SETTLE_MS),
            ScrollPhase::LookAsked => ScrollAction::Look,
            ScrollPhase::Focus => ScrollAction::GrabFocus,
            ScrollPhase::Locate => ScrollAction::Locate,
            ScrollPhase::SettleFocused => ScrollAction::Settle(POST_SCROLL_SETTLE_MS),
            ScrollPhase::LookFocused => ScrollAction::Look,
            ScrollPhase::Clamp => ScrollAction::MovePointer {
                dx: CLAMP_DISTANCE,
                dy: CLAMP_DISTANCE,
            },
            ScrollPhase::Centre => ScrollAction::MovePointer {
                dx: self.shown.center_x(),
                dy: self.shown.center_y(),
            },
            ScrollPhase::Turn(_) => ScrollAction::Wheel(self.direction),
            ScrollPhase::SettleTurned(_) => ScrollAction::Settle(POST_SCROLL_SETTLE_MS),
            ScrollPhase::LookTurned(_) => ScrollAction::Look,
            ScrollPhase::Ended => ScrollAction::Finished,
        }
    }

    fn turn(&mut self, n: u32)
        ensures
            final(self)@ == old(self)@.turning(n as int),
    {
        if n >= MAX_WHEEL_TICKS || self.direction == 0 {
            self.failure = Some(
                scroll_error(
                    "scroll_into_view exhausted 20 wheel ticks for ",
                    self.xpath.as_str(),
                    " — toolkit likely ignored synthesized axis events",
                ),
            );
            self.phase = ScrollPhase::Ended;
        } else {
            self.phase = ScrollPhase::Turn(n);
        }
    }

    fn look(&mut self, seen: Result<Option<Rect>, Error>, otherwise: ScrollPhase)
        ensures
            final(self)@ == old(self)@.looked_on(
                EventView::Looked(error::outcome(seen)),
                otherwise,
            ),
    {
        match seen {
            Ok(Some(b)) => {
                if b.is_inside(&self.viewport) {
                    self.phase = ScrollPhase::Ended;
                    self.failure = None;
                } else {
                    self.phase = otherwise;
                }
            },
            Ok(None) => {
                self.phase = otherwise;
            },
            Err(e) => {
                let absent = match &e {
                    Error::ElementNotFound { xpath: _ } => true,
                    _ => false,
                };
                if absent {
                    self.phase = otherwise;
                } else {
                    self.failure = Some(e);
                    self.phase = ScrollPhase::Ended;
                }
            },
        }
    }

    fn act(&mut self, done: Result<(), Error>, otherwise: ScrollPhase)
        ensures
            final(self)@ == (match error::outcome(done) {
                Ok(_) => old(self)@.at(otherwise),
                Err(e) => old(self)@.failed(e),
            }),
    {
        match done {
            Ok(_) => {
                self.phase = otherwise;
            },
            Err(e) => {
                self.failure = Some(e);
                self.phase = ScrollPhase::Ended;
            },
        }
    }

    /// Takes in what became of the due action.
    pub fn report(&mut self, event: ScrollEvent)
        requires
            old(self)@.valid(),
            old(self)@.fits(event@),
        ensures
            final(self)@.valid(),
            final(self)@ == old(self)@.after(event@),
    {
        match (self.phase, event) {
            (ScrollPhase::Ask(k), ScrollEvent::Replied(scrolled)) => {
                if scrolled || k >= 2 {
                    self.phase = ScrollPhase::Point;
                } else {
                    self.phase = ScrollPhase::Ask(k + 1);
                }
            },
            (ScrollPhase::Point, _) => {
                self.phase = ScrollPhase::SettleAsked;
            },
            (ScrollPhase::SettleAsked, _) => {
                self.phase = ScrollPhase::LookAsked;
            },
            (ScrollPhase::LookAsked, ScrollEvent::Looked(seen)) => {
                let otherwise = if self.focusable {
                    ScrollPhase::Focus
                } else {
                    ScrollPhase::Locate
                };
                self.look(seen, otherwise);
            },
            (ScrollPhase::Focus, ScrollEvent::Acted(done)) => {
                match done {
                    Ok(_) => {
                        self.phase = ScrollPhase::SettleFocused;
                    },
                    Err(_) => {
                        self.phase = ScrollPhase::Locate;
                    },
                }
            },
            (ScrollPhase::SettleFocused, _) => {
                self.phase = ScrollPhase::LookFocused;
            },
            (ScrollPhase::LookFocused, ScrollEvent::Looked(seen)) => {
                self.look(seen, ScrollPhase::Locate);
            },
            (ScrollPhase::Locate, ScrollEvent::Located(found)) => {
                match found {
                    Ok(origin) => {
                        self.shown = to_screen_bounds(self.viewport, origin);
                        self.phase = ScrollPhase::Clamp;
                    },
                    Err(e) => {
                        self.failure = Some(e);
                        self.phase = ScrollPhase::Ended;
                    },
                }
            },
            (ScrollPhase::Clamp, ScrollEvent::Acted(done)) => {
                self.act(done, ScrollPhase::Centre);
            },
            (ScrollPhase::Centre, ScrollEvent::Acted(done)) => {
                match done {
                    Ok(_) => {
                        self.turn(0);
                    },
                    Err(e) => {
                        self.failure = Some(e);
                        self.phase = ScrollPhase::Ended;
                    },
                }
            },
            (ScrollPhase::Turn(n), ScrollEvent::Acted(done)) => {
                self.act(done, ScrollPhase::SettleTurned(n));
            },
            (ScrollPhase::SettleTurned(n), _) => {
                self.phase = ScrollPhase::LookTurned(n);
            },
            (ScrollPhase::LookTurned(n), ScrollEvent::Looked(seen)) => {
                match seen {
                    Ok(Some(b)) => {
                        if b.is_inside(&self.viewport) {
                            self.phase = ScrollPhase::Ended;
                            self.failure = None;
                        } else {
                            self.turn(n + 1);
                        }
                    },
                    Ok(None) => {
                        self.turn(n + 1);
                    },
                    Err(e) => {
                        let absent = match &e {
                            Error::ElementNotFound { xpath: _ } => true,
                            _ => false,
                        };
                        self.failure = if absent {
                            None
                        } else {
                            Some(e)
                        };
                        self.phase = ScrollPhase::Ended;
                    },
                }
            },
            _ => {},
        }
    }

    /// The outcome of an attempt that is finished.
    pub fn finish(self) -> (r: Result<(), Error>)
        requires
            self@.phase == ScrollPhase::Ended,
        ensures
            match self@.failure {
                Some(e) => r matches Err(f) && f@ == e,
                None => r is Ok,
            },
    {
        match self.failure {
            Some(e) => Err(e),
            None => Ok(()),
        }
    }
}

// ── Laws ────────────────────────────────────────────────────────────────────

/// How many events an attempt can still take in, at most.
pub open spec fn remaining(phase: ScrollPhase) -> int {
    match phase {
        ScrollPhase::Ask(k) => 72 - k,
        ScrollPhase::Point => 69,
        ScrollPhase::SettleAsked => 68,
        ScrollPhase::LookAsked => 67,
        ScrollPhase::Focus => 66,
        ScrollPhase::SettleFocused => 65,
        ScrollPhase::LookFocused => 64,
        ScrollPhase::Locate => 63,
        ScrollPhase::Clamp => 62,
        ScrollPhase::Centre => 61,
        ScrollPhase::Turn(n) => 3 * (MAX_WHEEL_TICKS - n),
        ScrollPhase::SettleTurned(n) => 3 * (MAX_WHEEL_TICKS - n) - 1,
        ScrollPhase::LookTurned(n) => 3 * (MAX_WHEEL_TICKS - n) - 2,
        ScrollPhase::Ended => 0,
    }
}

/// Every event brings an attempt closer to its end, so that it ends after 72 events
/// at the latest.
pub proof fn law_scrolling_ends(s: ScrollState, event: EventView)
    requires
        s.valid(),
        s.fits(event),
    ensures
        s.after(event).valid(),
        0 <= remaining(s.after(event).phase) < remaining(s.phase) <= 72,
{
}

/// An attempt ends well only when the element was seen inside the viewport, or had
/// gone from the tree after a turn of the wheel.
pub proof fn law_success_is_observed(s: ScrollState, event: EventView)
    requires
        s.valid(),
        s.fits(event),
        s.after(event).phase == ScrollPhase::Ended,
        s.after(event).failure is None,
    ensures
        s.in_view(event) || (s.phase is LookTurned && (event matches EventView::Looked(Err(e))
            && e is ElementNotFound)),
{
}

/// The state after a whole series of events.
pub open spec fn scroll_after(s: ScrollState, events: Seq<EventView>) -> ScrollState
    decreases events.len(),
{
    if events.len() == 0 {
        s
    } else {
        scroll_after(s.after(events[0]), events.skip(1))
    }
}

/// Whether each event of a series follows from the action that was due.
pub open spec fn scroll_fits(s: ScrollState, events: Seq<EventView>) -> bool
    decreases events.len(),
{
    events.len() > 0 ==> s.fits(events[0]) && scroll_fits(s.after(events[0]), events.skip(1))
}

/// How often a series turned the wheel.
pub open spec fn turns(s: ScrollState, events: Seq<EventView>) -> nat
    decreases events.len(),
{
    if events.len() == 0 {
        0
    } else {
        (if s.due() is Wheel {
            1nat
        } else {
            0
        }) + turns(s.after(events[0]), events.skip(1))
    }
}

spec fn turns_left(phase: ScrollPhase) -> int {
    match phase {
        ScrollPhase::Turn(n) => MAX_WHEEL_TICKS - n,
        ScrollPhase::SettleTurned(n) => MAX_WHEEL_TICKS - n - 1,
        ScrollPhase::LookTurned(n) => MAX_WHEEL_TICKS - n - 1,
        ScrollPhase::Ended => 0,
        _ => MAX_WHEEL_TICKS as int,
    }
}

proof fn lemma_turns(s: ScrollState, events: Seq<EventView>)
    requires
        s.valid(),
        scroll_fits(s, events),
    ensures
        turns(s, events) <= turns_left(s.phase),
    decreases events.len(),
{
    if events.len() > 0 {
        law_scrolling_ends(s, events[0]);
        lemma_turns(s.after(events[0]), events.skip(1));
    }
}

/// However an attempt goes, the wheel is turned no more often than allowed.
pub proof fn law_wheel_is_bounded(s: ScrollState, events: Seq<EventView>)
    requires
        s.phase == ScrollPhase::Ask(0),
        scroll_fits(s, events),
    ensures
        turns(s, events) <= MAX_WHEEL_TICKS,
{
    lemma_turns(s, events);
}

/// The wheel is turned with the pointer over the middle of the viewport on the screen: from
/// the corner the pointer is moved there, wherever the window lies.
pub proof fn law_wheel_turns_over_the_viewport(s: ScrollState, origin: (i32, i32))
    requires
        s.phase == ScrollPhase::Locate,
        session::placeable(s.viewport, origin),
    ensures
        ({
            let located = s.after(EventView::Located(Ok(origin)));
            let cornered = located.after(EventView::Acted(Ok(())));
            let over = cornered.after(EventView::Acted(Ok(())));
            let place = session::on_screen(s.viewport, origin);
            &&& located.due() == (ScrollAction::MovePointer {
                dx: CLAMP_DISTANCE,
                dy: CLAMP_DISTANCE,
            })
            &&& cornered.due() == (ScrollAction::MovePointer {
                dx: place.middle_x(),
                dy: place.middle_y(),
            })
            &&& s.direction != 0 ==> over.due() == ScrollAction::Wheel(s.direction)
        }),
{
}

/// An element that lies inside its viewport already is left alone.
pub proof fn law_inside_is_left_alone(
    xpath: Seq<char>,
    target: Rect,
    focusable: bool,
    ancestor: InfoView,
)
    requires
        ancestor.bounds matches Some(v) && target.inside(v),
    ensures
        scroll_request(xpath, target, focusable, Some(ancestor)) == Ok::<
            Option<ScrollState>,
            ErrorView,
        >(None),
{
}

/// Where an element reaches out of the viewport above, the wheel is turned up; where it only
/// reaches out below, down; and it stays still exactly where neither is so.
pub proof fn law_wheel_goes_by_the_overhang(elem: Rect, viewport: Rect)
    requires
        i32::MIN <= elem.y + elem.height <= i32::MAX,
        i32::MIN <= viewport.y + viewport.height <= i32::MAX,
    ensures
        direction_to(elem, viewport) == -1 <==> elem.y < viewport.y,
        direction_to(elem, viewport) == 1 <==> elem.y >= viewport.y && elem.y + elem.height
            > viewport.y + viewport.height,
        direction_to(elem, viewport) == 0 <==> viewport.y <= elem.y && elem.y + elem.height
            <= viewport.y + viewport.height,
{
}

/// Turning the wheel the chosen way can help: an element that is no taller than the viewport
/// and reaches out of it comes to lie inside by moving against the turn, and not at all by
/// moving along with it.
pub proof fn law_wheel_turns_the_way_that_helps(elem: Rect, viewport: Rect, by: int)
    requires
        0 <= elem.height <= viewport.height,
        elem.y + elem.height <= i32::MAX,
        viewport.y + viewport.height <= i32::MAX,
    ensures
        ({
            let way = direction_to(elem, viewport);
            let lies_inside = |moved: int|
                viewport.y <= elem.y + moved && elem.y + moved + elem.height <= viewport.y
                    + viewport.height;
            &&& way == 0 <==> lies_inside(0)
            &&& way != 0 && by * way >= 0 ==> !lies_inside(by)
            &&& way < 0 ==> lies_inside(viewport.y - elem.y) && viewport.y - elem.y > 0
            &&& way > 0 ==> lies_inside(viewport.y + viewport.height - elem.y - elem.height)
                && viewport.y + viewport.height - elem.y - elem.height < 0
        }),
{
    let way = direction_to(elem, viewport);
    assert(way == -1 || way == 0 || way == 1);
    if way == -1 && by * way >= 0 {
        assert(by <= 0) by (nonlinear_arith)
            requires
                by * way >= 0,
                way == -1,
        ;
    }
    if way == 1 && by * way >= 0 {
        assert(by >= 0) by (nonlinear_arith)
            requires
                by * way >= 0,
                way == 1,
        ;
    }
}

/// The edges that count are those of the coordinate range where an element or a viewport
/// reaches beyond it.
pub proof fn law_wheel_direction_is_total(elem: Rect, viewport: Rect)
    ensures
        direction_to(elem, viewport) == -1 <==> elem.y < viewport.y,
        elem.y >= viewport.y && viewport.y + viewport.height >= i32::MAX ==> direction_to(
            elem,
            viewport,
        ) == 0,
        elem.y >= viewport.y && elem.y + elem.height >= i32::MAX && viewport.y + viewport.height
            < i32::MAX ==> direction_to(elem, viewport) == 1,
{
}

/// An attempt is begun exactly where a viewport with bounds is known and does not hold the
/// element; it is about that element and that viewport, and turns the wheel toward it.
pub proof fn law_attempt_is_about_the_element(
    xpath: Seq<char>,
    target: Rect,
    focusable: bool,
    ancestor: Option<InfoView>,
)
    ensures
        ({
            let request = scroll_request(xpath, target, focusable, ancestor);
            &&& request is Ok <==> ancestor is Some && ancestor->0.bounds is Some
            &&& request matches Ok(None) ==> target.inside(ancestor->0.bounds->0)
            &&& request matches Ok(Some(s)) ==> {
                let viewport = ancestor->0.bounds->0;
                &&& !target.inside(viewport)
                &&& s.xpath == xpath
                &&& s.viewport == viewport
                &&& s.focusable == focusable
                &&& s.failure is None
                &&& s.due() == ScrollAction::ScrollTo(ScrollKind::Anywhere)
                &&& target.y < viewport.y <==> s.direction == -1
                &&& s.direction == direction_to(target, viewport)
            }
        }),
{
}

/// The error of a request that cannot be attempted names the element.
pub proof fn law_refused_attempt_names_the_element(
    xpath: Seq<char>,
    target: Rect,
    focusable: bool,
    ancestor: Option<InfoView>,
)
    ensures
        scroll_request(xpath, target, focusable, ancestor) matches Err(e) ==> {
            &&& e matches ErrorView::Atspi { message, source: None }
            &&& crate::text::occurs(message, xpath)
        },
        no_extents(xpath) matches ErrorView::Atspi { message, source: None }
            && crate::text::occurs(message, xpath),
        exhausted(xpath) matches ErrorView::Atspi { message, source: None }
            && crate::text::occurs(message, xpath),
{
    let a = "no scrollable ancestor for "@;
    let b = " — element isn't inside a ScrollPane/Viewport"@;
    let c = "scrollable ancestor for "@;
    let d = " has no bounds — toolkit doesn't expose Component on it"@;
    let f = "no bounds available for "@;
    let g = " — can't scroll without Component extents"@;
    let h = "scroll_into_view exhausted 20 wheel ticks for "@;
    let k = " — toolkit likely ignored synthesized axis events"@;
    crate::text::law_occurs_between(a + xpath + b, xpath);
    crate::text::law_occurs_between(c + xpath + d, xpath);
    crate::text::law_occurs_between(f + xpath + g, xpath);
    crate::text::law_occurs_between(h + xpath + k, xpath);
}

/// An element is asked to come into view in three ways, one after the other until it grants
/// one, and then to move to the corner of the viewport; after that the toolkit has its pause
/// and the element is looked at.
pub proof fn law_element_is_asked_first(s: ScrollState, granted: bool)
    requires
        s.phase == ScrollPhase::Ask(0),
    ensures
        ({
            let no = EventView::Replied(false);
            let yes = EventView::Replied(true);
            let second = s.after(no);
            let third = second.after(no);
            let corner = ScrollAction::ScrollToPoint { x: s.viewport.x, y: s.viewport.y };
            let asked = third.after(EventView::Replied(granted));
            let settled = asked.after(EventView::Replied(granted));
            &&& s.due() == ScrollAction::ScrollTo(ScrollKind::Anywhere)
            &&& second.due() == ScrollAction::ScrollTo(ScrollKind::TopLeft)
            &&& third.due() == ScrollAction::ScrollTo(ScrollKind::TopEdge)
            &&& s.after(yes).due() == corner
            &&& second.after(yes).due() == corner
            &&& asked.due() == corner
            &&& settled.due() == ScrollAction::Settle(80)
            &&& settled.after(EventView::Settled).due() == ScrollAction::Look
        }),
{
}

/// A look that shows the element inside the viewport ends an attempt well, at whatever stage.
/// A look that fails ends it with that error, unless the element was not found: behind the
/// wheel that ends it well, before it the attempt goes on as with an element that is
/// elsewhere.
pub proof fn law_look_decides(s: ScrollState, seen: Result<Option<Rect>, ErrorView>)
    requires
        s.valid(),
        s.due() == ScrollAction::Look,
        s.failure is None,
    ensures
        ({
            let next = s.after(EventView::Looked(seen));
            let elsewhere = match s.phase {
                ScrollPhase::LookAsked => next.due() == (if s.focusable {
                    ScrollAction::GrabFocus
                } else {
                    ScrollAction::Locate
                }),
                ScrollPhase::LookFocused => next.due() == ScrollAction::Locate,
                ScrollPhase::LookTurned(n) => if n + 1 < 20 && s.direction != 0 {
                    next.due() == ScrollAction::Wheel(s.direction)
                } else {
                    next.due() == ScrollAction::Finished && next.failure == Some(
                        exhausted(s.xpath),
                    )
                },
                _ => false,
            };
            match seen {
                Ok(Some(b)) => if b.inside(s.viewport) {
                    next.due() == ScrollAction::Finished && next.failure is None
                } else {
                    elsewhere
                },
                Ok(None) => elsewhere,
                Err(e) => if !(e is ElementNotFound) {
                    next.due() == ScrollAction::Finished && next.failure == Some(e)
                } else if s.phase is LookTurned {
                    next.due() == ScrollAction::Finished && next.failure is None
                } else {
                    elsewhere
                },
            }
        }),
{
}

/// An input event that fails ends an attempt with that error. A focus that is refused only
/// leads on to the wheel, and one that is taken is given its pause and looked at.
pub proof fn law_failed_input_ends_the_attempt(s: ScrollState, e: ErrorView)
    requires
        s.valid(),
    ensures
        ({
            let failed = s.after(EventView::Acted(Err(e)));
            let done = s.after(EventView::Acted(Ok(())));
            &&& s.due() is MovePointer || s.due() is Wheel ==> failed.due()
                == ScrollAction::Finished && failed.failure == Some(e)
            &&& s.due() is GrabFocus ==> {
                &&& failed.due() == ScrollAction::Locate
                &&& done.due() == ScrollAction::Settle(80)
                &&& done.after(EventView::Settled).due() == ScrollAction::Look
            }
            &&& s.due() is Wheel ==> {
                &&& done.due() == ScrollAction::Settle(80)
                &&& done.after(EventView::Settled).due() == ScrollAction::Look
            }
            &&& s.due() is Locate ==> {
                let lost = s.after(EventView::Located(Err(e)));
                lost.due() == ScrollAction::Finished && lost.failure == Some(e)
            }
        }),
{
}

/// The pointer is driven at least ten thousand pixels into the corner, and from there to the
/// middle of the viewport: its position in the window, the window's position on the screen
/// and half its extent.
pub proof fn law_pointer_goes_to_the_middle(s: ScrollState, origin: (i32, i32))
    requires
        s.phase == ScrollPhase::Locate,
        session::placeable(s.viewport, origin),
        s.viewport.width >= 0,
        s.viewport.height >= 0,
        s.viewport.x + origin.0 + s.viewport.width <= i32::MAX,
        s.viewport.y + origin.1 + s.viewport.height <= i32::MAX,
    ensures
        ({
            let located = s.after(EventView::Located(Ok(origin)));
            let cornered = located.after(EventView::Acted(Ok(())));
            &&& located.due() matches ScrollAction::MovePointer { dx, dy } && dx <= -10_000 && dy
                <= -10_000
            &&& cornered.due() matches ScrollAction::MovePointer { dx, dy } && {
                &&& dx == s.viewport.x + origin.0 + s.viewport.width / 2
                &&& dy == s.viewport.y + origin.1 + s.viewport.height / 2
            }
        }),
{
}

/// The value of an event of an attempt is of the event's own kind.
pub proof fn law_scroll_event_is_told_by_its_parts(e: ScrollEvent)
    ensures
        match e {
            ScrollEvent::Replied(b) => e@ == EventView::Replied(b),
            ScrollEvent::Settled => e@ == EventView::Settled,
            ScrollEvent::Looked(r) => e@ == EventView::Looked(error::outcome(r)),
            ScrollEvent::Located(r) => e@ == EventView::Located(error::outcome(r)),
            ScrollEvent::Acted(r) => e@ == EventView::Acted(error::outcome(r)),
        },
{
}

/// The limits of an attempt: twenty turns of the wheel, 80 milliseconds for the toolkit to
/// follow, and ten thousand pixels up and to the left to reach the corner of the display.
pub proof fn law_scroll_limits()
    ensures
        MAX_WHEEL_TICKS == 20,
        POST_SCROLL_SETTLE_MS == 80,
        CLAMP_DISTANCE == -10_000,
{
}

/// What keeps an element from being scrolled to is told with its selector: that it has no
/// bounds, that nothing scrolls it, that what does has no bounds, and that the wheel did not
/// help.
pub proof fn law_scroll_errors(xpath: Seq<char>, target: Rect, focusable: bool, a: InfoView)
    ensures
        no_extents(xpath) == (ErrorView::Atspi {
            message: "no bounds available for "@ + xpath
                + " — can't scroll without Component extents"@,
            source: None,
        }),
        scroll_request(xpath, target, focusable, None) == Err::<Option<ScrollState>, ErrorView>(
            ErrorView::Atspi {
                message: "no scrollable ancestor for "@ + xpath
                    + " — element isn't inside a ScrollPane/Viewport"@,
                source: None,
            },
        ),
        a.bounds is None ==> scroll_request(xpath, target, focusable, Some(a)) == Err::<
            Option<ScrollState>,
            ErrorView,
        >(
            ErrorView::Atspi {
                message: "scrollable ancestor for "@ + xpath
                    + " has no bounds — toolkit doesn't expose Component on it"@,
                source: None,
            },
        ),
        exhausted(xpath) == (ErrorView::Atspi {
            message: "scroll_into_view exhausted 20 wheel ticks for "@ + xpath
                + " — toolkit likely ignored synthesized axis events"@,
            source: None,
        }),
{
}

} // verus!
