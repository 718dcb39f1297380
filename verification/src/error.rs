//! Failures of a session, with the text each is shown as.
use crate::text::{self, decimal_u64};
use vstd::prelude::*;
use vstd::string::*;

verus! {

/// Errors that can occur during a session.
///
/// An underlying failure is carried as the text it displays as: in the payload
/// of `Zbus` and `Io`, and in `source` where one of the `*_with` constructors
/// made the error.
#[derive(Debug, Clone, PartialEq, Eq)]
pub enum Error {
    ElementNotFound { xpath: String },
    AmbiguousSelector { xpath: String, count: usize },
    InvalidSelector { xpath: String, reason: String },
    ElementStale { xpath: String, bus: String, path: String },
    /// AT-SPI introspection or action failure: `message` is
    /// `"<operation>: <details>"`.
    Atspi { message: String, source: Option<String> },
    Zbus(String),
    Io(String),
    Timeout(String),
    /// Subprocess, IPC or lock failure.
    Process { message: String, source: Option<String> },
    /// Screenshot or video-capture failure.
    Screenshot { message: String, source: Option<String> },
    /// The session was cancelled while the operation ran or before it began.
    Cancelled,
}

/// The mathematical value of an [`Error`].
#[verifier::ext_equal]
pub enum ErrorView {
    ElementNotFound { xpath: Seq<char> },
    AmbiguousSelector { xpath: Seq<char>, count: nat },
    InvalidSelector { xpath: Seq<char>, reason: Seq<char> },
    ElementStale { xpath: Seq<char>, bus: Seq<char>, path: Seq<char> },
    Atspi { message: Seq<char>, source: Option<Seq<char>> },
    Zbus(Seq<char>),
    Io(Seq<char>),
    Timeout(Seq<char>),
    Process { message: Seq<char>, source: Option<Seq<char>> },
    Screenshot { message: Seq<char>, source: Option<Seq<char>> },
    Cancelled,
}

/// The characters of an optional string.
pub open spec fn optional(s: Option<String>) -> Option<Seq<char>> {
    match s {
        Some(t) => Some(t@),
        None => None,
    }
}

impl View for Error {
    type V = ErrorView;

    open spec fn view(&self) -> ErrorView {
        match *self {
            Error::ElementNotFound { xpath } => ErrorView::ElementNotFound { xpath: xpath@ },
            Error::AmbiguousSelector { xpath, count } => ErrorView::AmbiguousSelector {
                xpath: xpath@,
                count: count as nat,
            },
            Error::InvalidSelector { xpath, reason } => ErrorView::InvalidSelector {
                xpath: xpath@,
                reason: reason@,
            },
            Error::ElementStale { xpath, bus, path } => ErrorView::ElementStale {
                xpath: xpath@,
                bus: bus@,
                path: path@,
            },
            Error::Atspi { message, source } => ErrorView::Atspi {
                message: message@,
                source: optional(source),
            },
            Error::Zbus(s) => ErrorView::Zbus(s@),
            Error::Io(s) => ErrorView::Io(s@),
            Error::Timeout(s) => ErrorView::Timeout(s@),
            Error::Process { message, source } => ErrorView::Process {
                message: message@,
                source: optional(source),
            },
            Error::Screenshot { message, source } => ErrorView::Screenshot {
                message: message@,
                source: optional(source),
            },
            Error::Cancelled => ErrorView::Cancelled,
        }
    }
}

/// A result with its error taken by its mathematical value.
pub open spec fn outcome<T>(r: core::result::Result<T, Error>) -> core::result::Result<
    T,
    ErrorView,
> {
    match r {
        Ok(v) => Ok(v),
        Err(e) => Err(e@),
    }
}

/// The mathematical value of an optional error.
pub open spec fn optional_error(e: Option<Error>) -> Option<ErrorView> {
    match e {
        Some(e) => Some(e@),
        None => None,
    }
}

/// `"<operation>: <source>"`, the message of an error with an underlying one.
pub open spec fn caused(operation: Seq<char>, source: Seq<char>) -> Seq<char> {
    operation + ": "@ + source
}

/// An AT-SPI failure with an underlying one.
pub open spec fn atspi_caused(operation: Seq<char>, source: Seq<char>) -> ErrorView {
    ErrorView::Atspi { message: caused(operation, source), source: Some(source) }
}

/// The text an error is shown as.
pub open spec fn shown(e: ErrorView) -> Seq<char> {
    match e {
        ErrorView::ElementNotFound { xpath } => "element not found for selector: "@ + xpath,
        ErrorView::AmbiguousSelector { xpath, count } => "selector matched "@ + text::decimal(count)
            + " elements (expected exactly one): "@ + xpath,
        ErrorView::InvalidSelector { xpath, reason } => "invalid selector '"@ + xpath + "': "@
            + reason,
        ErrorView::ElementStale { xpath, bus, path } =>
            "element went stale during action (selector: "@ + xpath + ", bus: "@ + bus + ", path: "@
            + path + ")"@,
        ErrorView::Atspi { message, .. } => "AT-SPI: "@ + message,
        ErrorView::Zbus(s) => "D-Bus: "@ + s,
        ErrorView::Io(s) => "IO: "@ + s,
        ErrorView::Timeout(s) => "timeout: "@ + s,
        ErrorView::Process { message, .. } => "process: "@ + message,
        ErrorView::Screenshot { message, .. } => "screenshot: "@ + message,
        ErrorView::Cancelled => "cancelled"@,
    }
}

fn caused_text(operation: &str, source: &str) -> (r: String)
    ensures
        r@ == caused(operation@, source@),
{
    let mut m = operation.to_string();
    m.append(": ");
    m.append(source);
    m
}

fn labelled(label: &str, rest: &str) -> (r: String)
    ensures
        r@ == label@ + rest@,
{
    let mut m = label.to_string();
    m.append(rest);
    m
}

impl Error {
    /// AT-SPI failure with a free-form message and no underlying one.
    pub fn atspi(message: &str) -> (r: Self)
        ensures
            r@ == (ErrorView::Atspi { message: message@, source: None }),
    {
        Error::Atspi { message: message.to_string(), source: None }
    }

    /// AT-SPI failure caused by an underlying one, given by the text it
    /// displays as, which is appended to `operation`.
    pub fn atspi_with(operation: &str, source: &str) -> (r: Self)
        ensures
            r@ == atspi_caused(operation@, source@),
    {
        Error::Atspi { message: caused_text(operation, source), source: Some(source.to_string()) }
    }

    /// Process failure with a free-form message and no underlying one.
    pub fn process(message: &str) -> (r: Self)
        ensures
            r@ == (ErrorView::Process { message: message@, source: None }),
    {
        Error::Process { message: message.to_string(), source: None }
    }

    /// Process failure caused by an underlying one; see [`Error::atspi_with`].
    pub fn process_with(operation: &str, source: &str) -> (r: Self)
        ensures
            r@ == (ErrorView::Process {
                message: caused(operation@, source@),
                source: Some(source@),
            }),
    {
        Error::Process { message: caused_text(operation, source), source: Some(source.to_string()) }
    }

    /// Capture failure with a free-form message and no underlying one.
    pub fn screenshot(message: &str) -> (r: Self)
        ensures
            r@ == (ErrorView::Screenshot { message: message@, source: None }),
    {
        Error::Screenshot { message: message.to_string(), source: None }
    }

    /// Capture failure caused by an underlying one; see [`Error::atspi_with`].
    pub fn screenshot_with(operation: &str, source: &str) -> (r: Self)
        ensures
            r@ == (ErrorView::Screenshot {
                message: caused(operation@, source@),
                source: Some(source@),
            }),
    {
        Error::Screenshot {
            message: caused_text(operation, source),
            source: Some(source.to_string()),
        }
    }

    /// The element behind `xpath` went away.
    pub fn stale(xpath: &str, bus: &str, path: &str) -> (r: Self)
        ensures
            r@ == (ErrorView::ElementStale { xpath: xpath@, bus: bus@, path: path@ }),
    {
        Error::ElementStale {
            xpath: xpath.to_string(),
            bus: bus.to_string(),
            path: path.to_string(),
        }
    }

    /// The text of the underlying failure, where there is one.
    pub fn source(&self) -> (r: Option<&str>)
        ensures
            match r {
                Some(s) => match self@ {
                    ErrorView::Atspi { source, .. } => source == Some(s@),
                    ErrorView::Process { source, .. } => source == Some(s@),
                    ErrorView::Screenshot { source, .. } => source == Some(s@),
                    ErrorView::Zbus(t) => t == s@,
                    ErrorView::Io(t) => t == s@,
                    _ => false,
                },
                None => match self@ {
                    ErrorView::Atspi { source, .. } => source is None,
                    ErrorView::Process { source, .. } => source is None,
                    ErrorView::Screenshot { source, .. } => source is None,
                    ErrorView::Zbus(_) => false,
                    ErrorView::Io(_) => false,
                    _ => true,
                },
            },
    {
        match self {
            Error::Atspi { source, .. } => match source {
                Some(s) => Some(s.as_str()),
                None => None,
            },
            Error::Process { source, .. } => match source {
                Some(s) => Some(s.as_str()),
                None => None,
            },
            Error::Screenshot { source, .. } => match source {
                Some(s) => Some(s.as_str()),
                None => None,
            },
            Error::Zbus(s) => Some(s.as_str()),
            Error::Io(s) => Some(s.as_str()),
            _ => None,
        }
    }

    /// The text the error is shown as.
    pub fn to_string(&self) -> (r: String)
        ensures
            r@ == shown(self@),
    {
        match self {
            Error::ElementNotFound { xpath } => labelled("element not found for selector: ", xpath),
            Error::AmbiguousSelector { xpath, count } => {
                let mut m = labelled("selector matched ", decimal_u64(*count as u64).as_str());
                m.append(" elements (expected exactly one): ");
                m.append(xpath.as_str());
                m
            },
            Error::InvalidSelector { xpath, reason } => {
                let mut m = labelled("invalid selector '", xpath);
                m.append("': ");
                m.append(reason.as_str());
                m
            },
            Error::ElementStale { xpath, bus, path } => {
                let mut m = labelled("element went stale during action (selector: ", xpath);
                m.append(", bus: ");
                m.append(bus.as_str());
                m.append(", path: ");
                m.append(path.as_str());
                m.append(")");
                m
            },
            Error::Atspi { message, .. } => labelled("AT-SPI: ", message),
            Error::Zbus(s) => labelled("D-Bus: ", s),
            Error::Io(s) => labelled("IO: ", s),
            Error::Timeout(s) => labelled("timeout: ", s),
            Error::Process { message, .. } => labelled("process: ", message),
            Error::Screenshot { message, .. } => labelled("screenshot: ", message),
            Error::Cancelled => "cancelled".to_string(),
        }
    }
}

// ── Laws ────────────────────────────────────────────────────────────────────

/// The message of an error with an underlying one begins with the operation, ends with the
/// underlying text and has a colon and a space between the two; the text itself is kept
/// beside it.
pub proof fn law_cause_is_told(operation: Seq<char>, source: Seq<char>)
    ensures
        caused(operation, source).len() == operation.len() + 2 + source.len(),
        caused(operation, source).take(operation.len() as int) == operation,
        caused(operation, source).skip(operation.len() as int + 2) == source,
        caused(operation, source)[operation.len() as int] == ':',
        caused(operation, source)[operation.len() as int + 1] == ' ',
        atspi_caused(operation, source) matches ErrorView::Atspi { message, source: kept } && kept
            == Some(source) && message == caused(operation, source),
{
    reveal_strlit(": ");
    let m = caused(operation, source);
    assert(m.take(operation.len() as int) =~= operation);
    assert(m.skip(operation.len() as int + 2) =~= source);
}

/// An error is shown with everything it tells.
pub proof fn law_shown_tells_everything(e: ErrorView)
    ensures
        match e {
            ErrorView::ElementNotFound { xpath } => text::occurs(shown(e), xpath),
            ErrorView::AmbiguousSelector { xpath, count } => text::occurs(shown(e), xpath)
                && text::occurs(shown(e), text::decimal(count)),
            ErrorView::InvalidSelector { xpath, reason } => text::occurs(shown(e), xpath)
                && text::occurs(shown(e), reason),
            ErrorView::ElementStale { xpath, bus, path } => text::occurs(shown(e), xpath)
                && text::occurs(shown(e), bus) && text::occurs(shown(e), path),
            ErrorView::Atspi { message, source } => shown(e) == "AT-SPI: "@ + message,
            ErrorView::Zbus(s) => shown(e) == "D-Bus: "@ + s,
            ErrorView::Io(s) => shown(e) == "IO: "@ + s,
            ErrorView::Timeout(s) => shown(e) == "timeout: "@ + s,
            ErrorView::Process { message, source } => shown(e) == "process: "@ + message,
            ErrorView::Screenshot { message, source } => shown(e) == "screenshot: "@ + message,
            ErrorView::Cancelled => shown(e) == "cancelled"@,
        },
{
    let t = shown(e);
    let none = Seq::<char>::empty();
    match e {
        ErrorView::ElementNotFound { xpath } => {
            lemma_holds(t, "element not found for selector: "@, xpath, none);
        },
        ErrorView::AmbiguousSelector { xpath, count } => {
            let a = "selector matched "@;
            let b = " elements (expected exactly one): "@;
            let n = text::decimal(count);
            lemma_holds(t, a + n + b, xpath, none);
            lemma_holds(t, a, n, b + xpath);
        },
        ErrorView::InvalidSelector { xpath, reason } => {
            lemma_holds(t, "invalid selector '"@, xpath, "': "@ + reason);
            lemma_holds(t, "invalid selector '"@ + xpath + "': "@, reason, none);
        },
        ErrorView::ElementStale { xpath, bus, path } => {
            let a = "element went stale during action (selector: "@;
            let (b, c, d) = (", bus: "@, ", path: "@, ")"@);
            lemma_holds(t, a, xpath, b + bus + c + path + d);
            lemma_holds(t, a + xpath + b, bus, c + path + d);
            lemma_holds(t, a + xpath + b + bus + c, path, d);
        },
        _ => {},
    }
}

proof fn lemma_holds(t: Seq<char>, front: Seq<char>, part: Seq<char>, back: Seq<char>)
    requires
        t =~= (front + part) + back,
    ensures
        text::occurs(t, part),
{
    text::law_occurs_between(t, part);
}

/// The mathematical values of optional texts, of optional errors and of results: what is there
/// is taken by its value, and nothing stays nothing.
pub proof fn law_values_of_options<T>(s: String, e: Error, v: T)
    ensures
        optional(Some(s)) == Some(s@),
        optional(None) == None::<Seq<char>>,
        optional_error(Some(e)) == Some(e@),
        optional_error(None) == None::<ErrorView>,
        outcome(core::result::Result::<T, Error>::Ok(v)) == core::result::Result::<
            T,
            ErrorView,
        >::Ok(v),
        outcome(core::result::Result::<T, Error>::Err(e)) == core::result::Result::<
            T,
            ErrorView,
        >::Err(e@),
{
}

/// The mathematical value of an error is of the error's own kind, and each of its parts is the
/// part of that name.
pub proof fn law_error_is_told_by_its_parts(e: Error)
    ensures
        match e {
            Error::ElementNotFound { xpath } => e@ == (ErrorView::ElementNotFound {
                xpath: xpath@,
            }),
            Error::AmbiguousSelector { xpath, count } => e@ == (ErrorView::AmbiguousSelector {
                xpath: xpath@,
                count: count as nat,
            }),
            Error::InvalidSelector { xpath, reason } => e@ == (ErrorView::InvalidSelector {
                xpath: xpath@,
                reason: reason@,
            }),
            Error::ElementStale { xpath, bus, path } => e@ == (ErrorView::ElementStale {
                xpath: xpath@,
                bus: bus@,
                path: path@,
            }),
            Error::Atspi { message, source } => e@ == (ErrorView::Atspi {
                message: message@,
                source: optional(source),
            }),
            Error::Zbus(s) => e@ == ErrorView::Zbus(s@),
            Error::Io(s) => e@ == ErrorView::Io(s@),
            Error::Timeout(s) => e@ == ErrorView::Timeout(s@),
            Error::Process { message, source } => e@ == (ErrorView::Process {
                message: message@,
                source: optional(source),
            }),
            Error::Screenshot { message, source } => e@ == (ErrorView::Screenshot {
                message: message@,
                source: optional(source),
            }),
            Error::Cancelled => e@ == ErrorView::Cancelled,
        },
{
}

/// The errors about elements are shown with each of their parts in its place.
pub proof fn law_element_errors_are_shown(
    xpath: Seq<char>,
    reason: Seq<char>,
    bus: Seq<char>,
    path: Seq<char>,
    count: nat,
)
    ensures
        shown(ErrorView::ElementNotFound { xpath }) == "element not found for selector: "@ + xpath,
        shown(ErrorView::AmbiguousSelector { xpath, count }) == "selector matched "@
            + text::decimal_int(count as int) + " elements (expected exactly one): "@ + xpath,
        shown(ErrorView::InvalidSelector { xpath, reason }) == "invalid selector '"@ + xpath
            + "': "@ + reason,
        shown(ErrorView::ElementStale { xpath, bus, path })
            == "element went stale during action (selector: "@ + xpath + ", bus: "@ + bus
            + ", path: "@ + path + ")"@,
{
}

} // verus!
