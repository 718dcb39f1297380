//! Waiting for an element by trying again and again, with growing pauses.
use crate::error::{self, Error, ErrorView};
use crate::text::{self, decimal_u128, decimal_u64};
use vstd::prelude::*;
use vstd::string::*;

verus! {

/// Pause after the first attempt.
pub const INITIAL_POLL_DELAY_MS: u64 = 50;

/// Longest pause between two attempts.
pub const MAX_POLL_DELAY_MS: u64 = 500;

/// Whether an attempt that failed so is worth repeating.
pub open spec fn retriable(e: ErrorView) -> bool {
    e is ElementNotFound || e is ElementStale
}

/// Whether an attempt that failed so is worth repeating: the element is not there
/// yet, or went away under way.
pub fn is_retriable(e: &Error) -> (r: bool)
    ensures
        r == retriable(e@),
{
    match e {
        Error::ElementNotFound { xpath: _ } => true,
        Error::ElementStale { xpath: _, bus: _, path: _ } => true,
        _ => false,
    }
}

/// What a wait does after an attempt.
#[derive(Debug)]
pub enum PollAction<T> {
    /// The wait is over with this value.
    Done(T),
    /// The wait is over with this error.
    Fail(Error),
    /// Pause for so many milliseconds, then try again.
    Sleep(u64),
}

/// The mathematical value of a [`PollAction`].
#[verifier::ext_equal]
pub enum PollVerdict<T> {
    Done(T),
    Fail(ErrorView),
    Sleep(u64),
}

impl<T> View for PollAction<T> {
    type V = PollVerdict<T>;

    open spec fn view(&self) -> PollVerdict<T> {
        match *self {
            PollAction::Done(v) => PollVerdict::Done(v),
            PollAction::Fail(e) => PollVerdict::Fail(e@),
            PollAction::Sleep(ms) => PollVerdict::Sleep(ms),
        }
    }
}

/// A wait under way.
#[derive(Debug)]
pub struct Poll {
    xpath: String,
    budget_ms: u128,
    delay_ms: u64,
    attempts: u32,
    last: Option<Error>,
}

/// The mathematical value of a [`Poll`].
#[verifier::ext_equal]
pub struct PollView {
    pub xpath: Seq<char>,
    /// How long the wait may take.
    pub budget: nat,
    /// The next pause.
    pub delay: u64,
    /// Attempts begun.
    pub attempts: nat,
    /// The error of the last attempt, where it is worth repeating.
    pub last: Option<ErrorView>,
}

impl PollView {
    /// The error of a wait whose time is up.
    pub open spec fn timed_out(self) -> ErrorView {
        ErrorView::Timeout(
            "wait for '"@ + self.xpath + "' timed out after "@ + text::decimal(self.attempts)
                + " attempt(s) ("@ + text::decimal(self.budget) + "ms budget)"@,
        )
    }

    /// What an attempt leaves behind for the next one.
    pub open spec fn after<T>(self, attempt: Result<Option<T>, ErrorView>) -> PollView {
        PollView {
            last: match attempt {
                Err(e) if retriable(e) => Some(e),
                Ok(None) => None,
                _ => self.last,
            },
            ..self
        }
    }

    /// What the wait does after an attempt. `expired` tells whether its time was up
    /// when the attempt had ended.
    pub open spec fn verdict<T>(
        self,
        attempt: Result<Option<T>, ErrorView>,
        expired: bool,
    ) -> PollVerdict<T> {
        match attempt {
            Ok(Some(v)) => PollVerdict::Done(v),
            Err(e) if !retriable(e) => PollVerdict::Fail(e),
            Err(e) => if expired {
                PollVerdict::Fail(e)
            } else {
                PollVerdict::Sleep(self.delay)
            },
            Ok(None) => if expired {
                PollVerdict::Fail(self.timed_out())
            } else {
                PollVerdict::Sleep(self.delay)
            },
        }
    }
}

/// The pause after one of `delay` milliseconds: twice as long, up to the longest.
pub open spec fn next_delay(delay: u64) -> u64 {
    if 2 * delay > MAX_POLL_DELAY_MS {
        MAX_POLL_DELAY_MS
    } else {
        (2 * delay) as u64
    }
}

impl View for Poll {
    type V = PollView;

    closed spec fn view(&self) -> PollView {
        PollView {
            xpath: self.xpath@,
            budget: self.budget_ms as nat,
            delay: self.delay_ms,
            attempts: self.attempts as nat,
            last: error::optional_error(self.last),
        }
    }
}

/// A wait that has made no attempt.
pub open spec fn poll_begun(xpath: Seq<char>, budget: nat) -> PollView {
    PollView { xpath, budget, delay: INITIAL_POLL_DELAY_MS, attempts: 0, last: None }
}

impl Poll {
    /// A wait for `xpath` that may take `budget_ms` milliseconds.
    pub fn new(xpath: &str, budget_ms: u128) -> (r: Self)
        ensures
            r@ == poll_begun(xpath@, budget_ms as nat),
    {
        Poll {
            xpath: xpath.to_string(),
            budget_ms,
            delay_ms: INITIAL_POLL_DELAY_MS,
            attempts: 0,
            last: None,
        }
    }

    /// Begins an attempt, or gives the error that the wait ends with where the
    /// session is cancelled.
    pub fn begin(&mut self, cancelled: bool) -> (r: Option<Error>)
        requires
            old(self)@.attempts < u32::MAX,
        ensures
            if cancelled {
                &&& r matches Some(e) && e@ == ErrorView::Cancelled
                &&& final(self)@ == old(self)@
            } else {
                &&& r is None
                &&& final(self)@ == (PollView {
                    attempts: old(self)@.attempts + 1,
                    ..old(self)@
                })
            },
    {
        if cancelled {
            return Some(Error::Cancelled);
        }
        self.attempts = self.attempts + 1;
        None
    }

    /// Takes in the outcome of the attempt: a value, no value yet, or an error.
    pub fn observe<T>(&mut self, attempt: Result<Option<T>, Error>, expired: bool) -> (r:
        PollAction<T>)
        ensures
            r@ == old(self)@.after(error::outcome(attempt)).verdict(
                error::outcome(attempt),
                expired,
            ),
            r is Sleep ==> final(self)@ == old(self)@.after(error::outcome(attempt)),
    {
        match attempt {
            Ok(Some(v)) => {
                return PollAction::Done(v);
            },
            Ok(None) => {
                self.last = None;
            },
            Err(e) => {
                if !is_retriable(&e) {
                    return PollAction::Fail(e);
                }
                self.last = Some(e);
            },
        }
        if expired {
            return match self.last.take() {
                Some(e) => PollAction::Fail(e),
                None => {
                    let mut m = "wait for '".to_string();
                    m.append(self.xpath.as_str());
                    m.append("' timed out after ");
                    m.append(decimal_u64(self.attempts as u64).as_str());
                    m.append(" attempt(s) (");
                    m.append(decimal_u128(self.budget_ms).as_str());
                    m.append("ms budget)");
                    PollAction::Fail(Error::Timeout(m))
                },
            };
        }
        PollAction::Sleep(self.delay_ms)
    }

    /// Takes in the end of a pause, which a cancelled session cuts short: gives the
    /// error that the wait ends with there.
    pub fn rested(&mut self, cancelled: bool) -> (r: Option<Error>)
        ensures
            if cancelled {
                r matches Some(e) && e@ == ErrorView::Cancelled
            } else {
                &&& r is None
                &&& final(self)@ == (PollView { delay: next_delay(old(self)@.delay), ..old(self)@ })
            },
    {
        if cancelled {
            return Some(Error::Cancelled);
        }
        self.delay_ms = if self.delay_ms > MAX_POLL_DELAY_MS / 2 {
            MAX_POLL_DELAY_MS
        } else {
            2 * self.delay_ms
        };
        None
    }
}

/// The pause after `n` earlier ones.
pub open spec fn nth_delay(n: nat) -> u64
    decreases n,
{
    if n == 0 {
        INITIAL_POLL_DELAY_MS
    } else {
        next_delay(nth_delay((n - 1) as nat))
    }
}

/// Pauses never shrink, and stay between the first and the longest.
pub proof fn law_pauses_grow(n: nat)
    ensures
        INITIAL_POLL_DELAY_MS <= nth_delay(n) <= MAX_POLL_DELAY_MS,
        nth_delay(n) <= nth_delay(n + 1),
    decreases n,
{
    if n > 0 {
        law_pauses_grow((n - 1) as nat);
    }
}

/// From the fifth on, every pause is the longest.
pub proof fn law_pauses_level_off(n: nat)
    requires
        n >= 4,
    ensures
        nth_delay(n) == MAX_POLL_DELAY_MS,
    decreases n,
{
    reveal_with_fuel(nth_delay, 6);
    if n > 4 {
        law_pauses_level_off((n - 1) as nat);
    }
}

/// A wait whose time is up makes no further attempt.
pub proof fn law_expired_wait_ends<T>(p: PollView, attempt: Result<Option<T>, ErrorView>)
    ensures
        !(p.verdict(attempt, true) is Sleep),
{
}

/// A wait is repeated only after an attempt that found no value yet or whose error is
/// worth repeating, so that an ambiguous or invalid selector ends it at once.
pub proof fn law_only_retriable_is_repeated<T>(
    p: PollView,
    attempt: Result<Option<T>, ErrorView>,
    expired: bool,
)
    requires
        p.verdict(attempt, expired) is Sleep,
    ensures
        match attempt {
            Ok(found) => found is None,
            Err(e) => !(e is AmbiguousSelector) && !(e is InvalidSelector) && retriable(e),
        },
{
}

/// An attempt that finds a value ends the wait with it. One that finds none, or whose element
/// is missing or stale, is repeated after the pause that is due, and ends the wait where the
/// time is up: with its own error, or with one that tells of the time. Any other error ends
/// the wait at once.
pub proof fn law_attempt_decides<T>(
    p: PollView,
    attempt: Result<Option<T>, ErrorView>,
    expired: bool,
)
    ensures
        ({
            let verdict = p.verdict(attempt, expired);
            match attempt {
                Ok(Some(v)) => verdict == PollVerdict::Done(v),
                Ok(None) => if expired {
                    verdict == PollVerdict::<T>::Fail(p.timed_out())
                } else {
                    verdict == PollVerdict::<T>::Sleep(p.delay)
                },
                Err(e) => if !expired && (e is ElementNotFound || e is ElementStale) {
                    verdict == PollVerdict::<T>::Sleep(p.delay)
                } else {
                    verdict == PollVerdict::<T>::Fail(e)
                },
            }
        }),
{
}

/// Only a missing and a stale element are worth another attempt.
pub proof fn law_what_is_worth_repeating(e: ErrorView)
    ensures
        retriable(e) == (match e {
            ErrorView::ElementNotFound { xpath } => true,
            ErrorView::ElementStale { xpath, bus, path } => true,
            ErrorView::AmbiguousSelector { xpath, count } => false,
            ErrorView::InvalidSelector { xpath, reason } => false,
            ErrorView::Atspi { message, source } => false,
            ErrorView::Zbus(s) => false,
            ErrorView::Io(s) => false,
            ErrorView::Timeout(s) => false,
            ErrorView::Process { message, source } => false,
            ErrorView::Screenshot { message, source } => false,
            ErrorView::Cancelled => false,
        }),
{
}

/// Pauses begin with fifty milliseconds and double up to half a second.
pub proof fn law_pauses_double(delay: u64, xpath: Seq<char>, budget: nat)
    ensures
        nth_delay(0) == 50,
        poll_begun(xpath, budget).delay == 50,
        delay <= 250 ==> next_delay(delay) == 2 * delay,
        delay > 250 ==> next_delay(delay) == 500,
{
}

/// A wait begins without an attempt, for the element and the time it is asked for, and
/// nothing that an attempt leaves behind changes these.
pub proof fn law_wait_is_about_its_element<T>(
    xpath: Seq<char>,
    budget: nat,
    p: PollView,
    attempt: Result<Option<T>, ErrorView>,
)
    ensures
        poll_begun(xpath, budget).xpath == xpath,
        poll_begun(xpath, budget).budget == budget,
        poll_begun(xpath, budget).attempts == 0,
        p.after(attempt).xpath == p.xpath,
        p.after(attempt).budget == p.budget,
        p.after(attempt).delay == p.delay,
        p.after(attempt).attempts == p.attempts,
        attempt matches Ok(None) ==> p.after(attempt).last is None,
        attempt matches Err(e) ==> ((e is ElementNotFound || e is ElementStale) ==> p.after(
            attempt,
        ).last == Some(e)),
{
}

/// The error of a wait whose time is up tells which element it waited for, after how many
/// attempts and milliseconds.
pub proof fn law_timeout_tells_the_wait(p: PollView)
    ensures
        p.timed_out() matches ErrorView::Timeout(m) && {
            &&& text::occurs(m, p.xpath)
            &&& text::occurs(m, text::decimal(p.attempts) + " attempt(s)"@)
            &&& text::occurs(m, text::decimal(p.budget) + "ms budget"@)
        },
{
    let m = p.timed_out()->Timeout_0;
    let (n, b) = (text::decimal(p.attempts), text::decimal(p.budget));
    reveal_strlit(" attempt(s) (");
    reveal_strlit(" attempt(s)");
    reveal_strlit("ms budget)");
    reveal_strlit("ms budget");
    let back = " attempt(s) ("@ + b + "ms budget)"@;
    assert(m =~= (("wait for '"@ + p.xpath) + ("' timed out after "@ + n + back)));
    text::law_occurs_between(m, p.xpath);
    let front = "wait for '"@ + p.xpath + "' timed out after "@;
    assert(m =~= (front + (n + " attempt(s)"@)) + (seq![' ', '('] + b + "ms budget)"@));
    text::law_occurs_between(m, n + " attempt(s)"@);
    assert(m =~= (front + n + " attempt(s) ("@ + (b + "ms budget"@)) + seq![')']);
    text::law_occurs_between(m, b + "ms budget"@);
}

/// The value of what a wait does next is of its own kind.
pub proof fn law_poll_action_is_told_by_its_parts<T>(a: PollAction<T>)
    ensures
        match a {
            PollAction::Done(v) => a@ == PollVerdict::Done(v),
            PollAction::Fail(e) => a@ == PollVerdict::<T>::Fail(e@),
            PollAction::Sleep(ms) => a@ == PollVerdict::<T>::Sleep(ms),
        },
{
}

/// The pauses of a wait begin at 50 milliseconds and stay at half a second in the end.
pub proof fn law_poll_limits()
    ensures
        INITIAL_POLL_DELAY_MS == 50,
        MAX_POLL_DELAY_MS == 500,
{
}

/// The error of a wait whose time is up tells the selector, the attempts and the time.
pub proof fn law_timeout_is_told(p: PollView)
    ensures
        p.timed_out() == ErrorView::Timeout(
            "wait for '"@ + p.xpath + "' timed out after "@ + text::decimal_int(p.attempts as int)
                + " attempt(s) ("@ + text::decimal_int(p.budget as int) + "ms budget)"@,
        ),
{
}

} // verus!
