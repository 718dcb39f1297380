//! Starting a session, finding its application, and shutting it down.
use crate::capture::{DEFAULT_VIDEO_BITRATE, DEFAULT_VIDEO_FPS};
use crate::error::{self, Error, ErrorView};
use crate::launch::SessionConfig;
use crate::text::{self, chars_of, contains_text, to_lowercase};
use vstd::prelude::*;
use vstd::string::*;

verus! {

// ── Finding the application ─────────────────────────────────────────────────

/// How long the application may take to appear in the registry, in seconds.
pub const APP_DISCOVERY_TIMEOUT_SECS: u64 = 10;

/// Pause after a look at the registry that did not find the application.
pub const APP_DISCOVERY_POLL_INTERVAL_MS: u64 = 100;

/// Looks at the registry before giving up.
pub const APP_DISCOVERY_POLLS: usize = 100;

/// Text with spaces for hyphens.
pub open spec fn spaced(s: Seq<char>) -> Seq<char> {
    s.map_values(
        |c: char|
            if c == '-' {
                ' '
            } else {
                c
            },
    )
}

/// An application's name as it is compared: in lower case, with spaces for hyphens.
pub open spec fn normalized(name: Seq<char>) -> Seq<char> {
    spaced(text::lowercase(name))
}

/// Replaces hyphens by spaces.
pub fn hyphens_to_spaces(s: &str) -> (r: String)
    ensures
        r@ == spaced(s@),
{
    let cs = chars_of(s);
    let mut out = String::new();
    let mut i: usize = 0;
    while i < cs.len()
        invariant
            cs@ == s@,
            i <= cs.len(),
            out@ == spaced(s@).take(i as int),
        decreases cs.len() - i,
    {
        if cs[i] == '-' {
            out.push(' ');
        } else {
            out.push(cs[i]);
        }
        assert(out@ =~= spaced(s@).take(i + 1));
        i = i + 1;
    }
    assert(out@ =~= spaced(s@));
    out
}

/// An application's name as it is compared.
pub fn normalize_app_name(name: &str) -> (r: String)
    ensures
        r@ == normalized(name@),
{
    hyphens_to_spaces(to_lowercase(name).as_str())
}

/// Whether two names in comparable form stand for the same application: one holds the
/// other.
pub open spec fn akin(a: Seq<char>, b: Seq<char>) -> bool {
    text::occurs(a, b) || text::occurs(b, a)
}

/// Whether two names in comparable form stand for the same application.
pub fn normalized_names_match(a: &str, b: &str) -> (r: bool)
    ensures
        r == akin(a@, b@),
{
    contains_text(a, b) || contains_text(b, a)
}

/// Whether a name found in the registry is that of the target.
pub open spec fn names_match(found: Seq<char>, target: Seq<char>) -> bool {
    found.len() > 0 && target.len() > 0 && akin(normalized(found), normalized(target))
}

/// Whether a name found in the registry is that of the target. An empty name matches
/// nothing.
pub fn app_name_matches(found: &str, target: &str) -> (r: bool)
    ensures
        r == names_match(found@, target@),
{
    if found.unicode_len() == 0 || target.unicode_len() == 0 {
        return false;
    }
    normalized_names_match(
        normalize_app_name(found).as_str(),
        normalize_app_name(target).as_str(),
    )
}

/// Matching does not depend on which of two names was found and which was sought.
pub proof fn law_matching_is_symmetric(a: Seq<char>, b: Seq<char>)
    ensures
        names_match(a, b) == names_match(b, a),
{
}

/// A name that is not empty matches itself.
pub proof fn law_name_matches_itself(name: Seq<char>)
    requires
        name.len() > 0,
    ensures
        names_match(name, name),
{
    let n = normalized(name);
    assert(n.subrange(0, n.len() as int) =~= n);
    assert(text::occurs_at(n, n, 0));
}

/// Bringing an ASCII name into comparable form a second time changes nothing.
pub proof fn law_normal_form_is_final(name: Seq<char>)
    requires
        text::all_ascii(name),
    ensures
        normalized(normalized(name)) == normalized(name),
        text::all_ascii(normalized(name)),
        normalized(name).len() == name.len(),
{
    let n = normalized(name);
    assert forall|i: int| 0 <= i < n.len() implies text::ascii(#[trigger] n[i]) by {
        assert(text::ascii(name[i]));
    }
    assert(normalized(n) =~= n);
}

/// Neither case nor the difference between hyphens and spaces matters in ASCII names:
/// two match if and only if their comparable forms do.
pub proof fn law_matching_goes_by_normal_form(a: Seq<char>, b: Seq<char>)
    requires
        text::all_ascii(a),
        text::all_ascii(b),
    ensures
        names_match(a, b) == names_match(normalized(a), normalized(b)),
{
    law_normal_form_is_final(a);
    law_normal_form_is_final(b);
}

/// What the search for the application does next.
#[derive(Debug)]
pub enum SearchStep {
    /// Look at the registry.
    Scan,
    /// Give up.
    Fail(Error),
}

/// The search for the application in the registry.
#[derive(Debug)]
pub struct AppSearch {
    app_name: String,
    scans: usize,
}

/// The mathematical value of an [`AppSearch`].
#[verifier::ext_equal]
pub struct AppSearchView {
    pub app_name: Seq<char>,
    pub scans: nat,
}

impl View for AppSearch {
    type V = AppSearchView;

    closed spec fn view(&self) -> AppSearchView {
        AppSearchView { app_name: self.app_name@, scans: self.scans as nat }
    }
}

/// The error of a search that ran out of looks.
pub open spec fn did_not_appear(app_name: Seq<char>) -> ErrorView {
    ErrorView::Timeout(
        "app '"@ + app_name + "' did not appear in AT-SPI registry within 10s"@,
    )
}

impl AppSearchView {
    /// What a search ends with, once it has looked often enough.
    pub open spec fn over(self) -> Option<ErrorView> {
        if self.scans < APP_DISCOVERY_POLLS {
            None
        } else {
            Some(did_not_appear(self.app_name))
        }
    }

    /// Whether an entry of the registry is the application.
    pub open spec fn is_it(self, bus: Option<Seq<char>>, name: Option<Seq<char>>) -> bool {
        bus is Some && name is Some && names_match(name->0, self.app_name)
    }
}

impl AppSearch {
    /// A search that has not looked yet.
    pub fn new(app_name: &str) -> (r: Self)
        ensures
            r@ == (AppSearchView { app_name: app_name@, scans: 0 }),
    {
        AppSearch { app_name: app_name.to_string(), scans: 0 }
    }

    /// What to do next.
    pub fn next(&self) -> (r: SearchStep)
        ensures
            if self@.scans < APP_DISCOVERY_POLLS {
                r is Scan
            } else {
                r matches SearchStep::Fail(e) && e@ == did_not_appear(self@.app_name)
            },
            match self@.over() {
                None => r is Scan,
                Some(f) => r matches SearchStep::Fail(e) && e@ == f,
            },
    {
        if self.scans < APP_DISCOVERY_POLLS {
            return SearchStep::Scan;
        }
        let mut m = "app '".to_string();
        m.append(self.app_name.as_str());
        m.append("' did not appear in AT-SPI registry within 10s");
        SearchStep::Fail(Error::Timeout(m))
    }

    /// Whether an entry of the registry is the application: it has a bus name, and a
    /// name that matches.
    pub fn accepts(&self, bus: Option<&str>, name: Option<&str>) -> (r: bool)
        ensures
            r == (bus is Some && (name matches Some(n) && names_match(n@, self@.app_name))),
            r == self@.is_it(
                match bus {
                    Some(b) => Some(b@),
                    None => None,
                },
                match name {
                    Some(n) => Some(n@),
                    None => None,
                },
            ),
    {
        match (bus, name) {
            (Some(_), Some(n)) => app_name_matches(n, self.app_name.as_str()),
            _ => false,
        }
    }

    /// Takes in a look that did not find the application.
    pub fn missed(&mut self)
        requires
            old(self)@.scans < APP_DISCOVERY_POLLS,
        ensures
            final(self)@ == (AppSearchView { scans: old(self)@.scans + 1, ..old(self)@ }),
    {
        self.scans = self.scans + 1;
    }
}

/// The looks fill the time that the application has to appear.
pub proof fn law_looks_fill_the_time()
    ensures
        APP_DISCOVERY_POLLS * APP_DISCOVERY_POLL_INTERVAL_MS == 1000 * APP_DISCOVERY_TIMEOUT_SECS,
{
}

// ── Starting ────────────────────────────────────────────────────────────────

/// Key that is pressed once at the start, to make the compositor assign the keyboard
/// focus: left Shift, which types nothing.
pub const PRIMING_KEYSYM: u32 = 0xffe1;

/// One step of starting a session.
#[derive(Debug, Clone, Copy, PartialEq, Eq, Structural)]
pub enum StartStep {
    /// Spawn the application and begin to read what it prints.
    SpawnApp,
    /// Connect to the accessibility bus.
    ConnectA11y,
    /// Wait for the application to appear in the registry.
    FindApp,
    /// Serve the capture of external effects.
    StartSinks,
    /// Open the stream that keeps the compositor drawing.
    StartKeepalive,
    /// Press and release this key.
    PrimeKeyboard(u32),
    /// Open a stream of its own for the recording.
    StartRecordingStream,
    /// Record that stream at so many bits and frames per second.
    StartRecording { bitrate: u32, fps: u32 },
}

/// Whether a session cannot do without the step. Capture of external effects and the
/// priming key press are not worth failing a session over.
pub open spec fn vital(step: StartStep) -> bool {
    !(step is StartSinks) && !(step is PrimeKeyboard)
}

/// The steps of starting a session. A recording gets a stream of its own.
pub open spec fn start_steps(sinks: bool, recording: Option<(u32, u32)>) -> Seq<StartStep> {
    seq![StartStep::SpawnApp, StartStep::ConnectA11y, StartStep::FindApp] + (if sinks {
        seq![StartStep::StartSinks]
    } else {
        seq![]
    }) + seq![StartStep::StartKeepalive, StartStep::PrimeKeyboard(PRIMING_KEYSYM)] + (
    match recording {
        Some((bitrate, fps)) => seq![
            StartStep::StartRecordingStream,
            StartStep::StartRecording { bitrate, fps },
        ],
        None => seq![],
    })
}

/// The bitrate and frame rate of the recording that a configuration asks for, if any.
pub open spec fn recording_of(cfg: SessionConfig) -> Option<(u32, u32)> {
    match cfg.video_output {
        Some(_) => Some(
            (
                match cfg.video_bitrate {
                    Some(b) => b,
                    None => DEFAULT_VIDEO_BITRATE,
                },
                match cfg.video_fps {
                    Some(f) => f,
                    None => DEFAULT_VIDEO_FPS,
                },
            ),
        ),
        None => None,
    }
}

/// The start of a session.
#[derive(Debug)]
pub struct Startup {
    steps: Vec<StartStep>,
    at: usize,
    sinks: bool,
    failure: Option<Error>,
}

/// The mathematical value of a [`Startup`].
#[verifier::ext_equal]
pub struct StartView {
    pub steps: Seq<StartStep>,
    /// Steps that are behind.
    pub at: nat,
    /// Whether external effects are captured.
    pub sinks: bool,
    /// The error that the start failed with.
    pub failure: Option<ErrorView>,
}

impl StartView {
    pub open spec fn valid(self) -> bool {
        self.at <= self.steps.len()
    }

    /// The step that is due, if any is left and none has failed.
    pub open spec fn due(self) -> Option<StartStep> {
        if self.failure is Some || self.at >= self.steps.len() {
            None
        } else {
            Some(self.steps[self.at as int])
        }
    }

    /// Whether the session is up.
    pub open spec fn ready(self) -> bool {
        self.failure is None && self.at == self.steps.len()
    }

    /// The state after the due step, given the failure it met, if any.
    pub open spec fn after(self, failure: Option<ErrorView>) -> StartView {
        match self.due() {
            None => self,
            Some(step) => match failure {
                None => StartView {
                    at: self.at + 1,
                    sinks: self.sinks || step is StartSinks,
                    ..self
                },
                Some(e) => if vital(step) {
                    StartView { failure: Some(e), ..self }
                } else {
                    StartView { at: self.at + 1, ..self }
                },
            },
        }
    }
}

impl View for Startup {
    type V = StartView;

    closed spec fn view(&self) -> StartView {
        StartView {
            steps: self.steps@,
            at: self.at as nat,
            sinks: self.sinks,
            failure: error::optional_error(self.failure),
        }
    }
}

/// The state in which a start begins.
pub open spec fn start_begun(sinks: bool, recording: Option<(u32, u32)>) -> StartView {
    StartView { steps: start_steps(sinks, recording), at: 0, sinks: false, failure: None }
}

impl Startup {
    /// Begins to start a session with this configuration.
    pub fn begin(cfg: &SessionConfig) -> (r: Self)
        ensures
            r@ == start_begun(cfg.capture_external_effects, recording_of(*cfg)),
            r@.valid(),
            cfg.video_output is Some ==> (r@.steps.last() matches StartStep::StartRecording {
                bitrate,
                fps,
            } && (cfg.video_bitrate matches Some(b) ==> bitrate == b) && (cfg.video_fps matches Some(
                f,
            ) ==> fps == f)),
    {
        let mut steps: Vec<StartStep> = Vec::new();
        steps.push(StartStep::SpawnApp);
        steps.push(StartStep::ConnectA11y);
        steps.push(StartStep::FindApp);
        if cfg.capture_external_effects {
            steps.push(StartStep::StartSinks);
        }
        steps.push(StartStep::StartKeepalive);
        steps.push(StartStep::PrimeKeyboard(PRIMING_KEYSYM));
        if cfg.video_output.is_some() {
            let bitrate: u32 = match cfg.video_bitrate {
                Some(b) => b,
                None => DEFAULT_VIDEO_BITRATE,
            };
            let fps: u32 = match cfg.video_fps {
                Some(f) => f,
                None => DEFAULT_VIDEO_FPS,
            };
            steps.push(StartStep::StartRecordingStream);
            steps.push(StartStep::StartRecording { bitrate, fps });
        }
        assert(steps@ =~= start_steps(cfg.capture_external_effects, recording_of(*cfg)));
        Startup { steps, at: 0, sinks: false, failure: None }
    }

    /// The step that is due; `None` when the start is over.
    pub fn next(&self) -> (r: Option<StartStep>)
        requires
            self@.valid(),
        ensures
            r == self@.due(),
    {
        if self.failure.is_some() || self.at >= self.steps.len() {
            None
        } else {
            Some(self.steps[self.at])
        }
    }

    /// Takes in what became of the due step.
    pub fn report(&mut self, result: Result<(), Error>)
        requires
            old(self)@.valid(),
            old(self)@.due() is Some,
        ensures
            final(self)@.valid(),
            final(self)@ == old(self)@.after(
                match result {
                    Ok(_) => None,
                    Err(e) => Some(e@),
                },
            ),
    {
        assert(self.at < self.steps.len());
        let step = self.steps[self.at];
        let sinks = match step {
            StartStep::StartSinks => true,
            _ => false,
        };
        let priming = match step {
            StartStep::PrimeKeyboard(_) => true,
            _ => false,
        };
        match result {
            Ok(_) => {
                self.at = self.at + 1;
                self.sinks = self.sinks || sinks;
            },
            Err(e) => {
                if sinks || priming {
                    self.at = self.at + 1;
                } else {
                    self.failure = Some(e);
                }
            },
        }
    }

    /// Whether external effects are captured.
    pub fn captures_effects(&self) -> (r: bool)
        ensures
            r == self@.sinks,
    {
        self.sinks
    }

    /// The outcome of a start that is over.
    pub fn finish(self) -> (r: Result<(), Error>)
        requires
            self@.due() is None,
        ensures
            match self@.failure {
                Some(e) => r matches Err(f) && f@ == e,
                None => r is Ok,
            },
    {
        match self.failure {
            Some(e) => Err(e),
            None => Ok(()),
        }
    }
}

/// The state after a whole series of steps, given the failure each met.
pub open spec fn start_after(s: StartView, outcomes: Seq<Option<ErrorView>>) -> StartView
    decreases outcomes.len(),
{
    if outcomes.len() == 0 {
        s
    } else {
        start_after(s.after(outcomes[0]), outcomes.skip(1))
    }
}

proof fn lemma_start_goes_on(s: StartView, outcomes: Seq<Option<ErrorView>>)
    requires
        s.failure is None,
        s.at + outcomes.len() <= s.steps.len(),
        forall|i: int|
            0 <= i < outcomes.len() && vital(s.steps[s.at + i]) ==> #[trigger] outcomes[i] is None,
    ensures
        start_after(s, outcomes).at == s.at + outcomes.len(),
        start_after(s, outcomes).steps == s.steps,
        start_after(s, outcomes).failure is None,
        start_after(s, outcomes).sinks == (s.sinks || exists|i: int|
            0 <= i < outcomes.len() && s.steps[s.at + i] is StartSinks && #[trigger] outcomes[i] is None),
    decreases outcomes.len(),
{
    if outcomes.len() > 0 {
        let t = s.after(outcomes[0]);
        let rest = outcomes.skip(1);
        assert(outcomes[0] is Some ==> !vital(s.steps[s.at + 0int]));
        assert forall|i: int|
            0 <= i < rest.len() && vital(t.steps[t.at + i]) implies #[trigger] rest[i] is None by {
            assert(rest[i] == outcomes[i + 1]);
            assert(t.steps[t.at + i] == s.steps[s.at + (i + 1)]);
        }
        lemma_start_goes_on(t, rest);
        let here = s.steps[s.at as int] is StartSinks && outcomes[0] is None;
        if exists|i: int|
            0 <= i < rest.len() && t.steps[t.at + i] is StartSinks && #[trigger] rest[i] is None {
            let i = choose|i: int|
                0 <= i < rest.len() && t.steps[t.at + i] is StartSinks
                    && #[trigger] rest[i] is None;
            assert(outcomes[i + 1] is None && s.steps[s.at + (i + 1)] is StartSinks);
        }
        if exists|i: int|
            0 <= i < outcomes.len() && s.steps[s.at + i] is StartSinks
                && #[trigger] outcomes[i] is None {
            let i = choose|i: int|
                0 <= i < outcomes.len() && s.steps[s.at + i] is StartSinks
                    && #[trigger] outcomes[i] is None;
            if i > 0 {
                assert(rest[i - 1] is None && t.steps[t.at + (i - 1)] is StartSinks);
            }
        }
        if here {
            assert(s.steps[s.at + 0int] is StartSinks && outcomes[0] is None);
        }
    }
}

/// A session comes up when every vital step succeeds. It captures external
/// effects if and only if that was asked for and could be set up.
pub proof fn law_start_needs_only_vital_steps(
    sinks: bool,
    recording: Option<(u32, u32)>,
    outcomes: Seq<Option<ErrorView>>,
)
    requires
        outcomes.len() == start_steps(sinks, recording).len(),
        forall|i: int|
            0 <= i < outcomes.len() && vital(start_steps(sinks, recording)[i])
                ==> #[trigger] outcomes[i] is None,
    ensures
        start_after(start_begun(sinks, recording), outcomes).ready(),
        start_after(start_begun(sinks, recording), outcomes).sinks == (sinks
            && outcomes[3] is None),
{
    let s = start_begun(sinks, recording);
    assert forall|i: int|
        0 <= i < outcomes.len() && vital(s.steps[s.at + i]) implies #[trigger] outcomes[i] is None by {
        assert(s.steps[s.at + i] == start_steps(sinks, recording)[i]);
    }
    lemma_start_goes_on(s, outcomes);
    if sinks {
        assert(s.steps[s.at + 3int] is StartSinks);
        if outcomes[3] is None {
            assert(0 <= 3 < outcomes.len() && s.steps[s.at + 3int] is StartSinks
                && outcomes[3] is None);
        }
    }
}

proof fn lemma_start_stays_failed(s: StartView, outcomes: Seq<Option<ErrorView>>)
    requires
        s.failure is Some,
    ensures
        start_after(s, outcomes) == s,
    decreases outcomes.len(),
{
    if outcomes.len() > 0 {
        lemma_start_stays_failed(s.after(outcomes[0]), outcomes.skip(1));
    }
}

/// The first vital step that fails ends the start with its error: no later step is
/// taken.
pub proof fn law_start_fails_with_first_vital_error(
    sinks: bool,
    recording: Option<(u32, u32)>,
    outcomes: Seq<Option<ErrorView>>,
    k: int,
    e: ErrorView,
)
    requires
        0 <= k < outcomes.len(),
        k < start_steps(sinks, recording).len(),
        vital(start_steps(sinks, recording)[k]),
        outcomes[k] == Some(e),
        forall|i: int|
            0 <= i < k && vital(start_steps(sinks, recording)[i]) ==> #[trigger] outcomes[i] is None,
    ensures
        start_after(start_begun(sinks, recording), outcomes).failure == Some(e),
        start_after(start_begun(sinks, recording), outcomes).at == k,
{
    let s = start_begun(sinks, recording);
    let front = outcomes.take(k);
    assert forall|i: int|
        0 <= i < front.len() && vital(s.steps[s.at + i]) implies #[trigger] front[i] is None by {
        assert(front[i] == outcomes[i]);
        assert(s.steps[s.at + i] == start_steps(sinks, recording)[i]);
    }
    lemma_start_goes_on(s, front);
    lemma_start_split(s, outcomes, k);
    let t = start_after(s, front);
    let rest = outcomes.skip(k);
    assert(rest[0] == outcomes[k]);
    lemma_start_stays_failed(t.after(rest[0]), rest.skip(1));
}

proof fn lemma_start_split(s: StartView, outcomes: Seq<Option<ErrorView>>, k: int)
    requires
        0 <= k <= outcomes.len(),
    ensures
        start_after(s, outcomes) == start_after(start_after(s, outcomes.take(k)), outcomes.skip(k)),
    decreases k,
{
    if k == 0 {
        assert(outcomes.skip(0) =~= outcomes);
        assert(outcomes.take(0) =~= Seq::<Option<ErrorView>>::empty());
    } else {
        let t = s.after(outcomes[0]);
        lemma_start_split(t, outcomes.skip(1), k - 1);
        assert(outcomes.skip(1).take(k - 1) =~= outcomes.take(k).skip(1));
        assert(outcomes.skip(1).skip(k - 1) =~= outcomes.skip(k));
        assert(outcomes.take(k)[0] == outcomes[0]);
    }
}

// ── Shutting down ───────────────────────────────────────────────────────────

/// Longest time that shutting down may take, in seconds.
pub const KILL_TIMEOUT_SECS: u64 = 5;

/// One step of shutting a session down.
#[derive(Debug, Clone, Copy, PartialEq, Eq, Structural)]
pub enum StopStep {
    /// Cancel whatever still waits.
    Cancel,
    /// Release the bus names that capture external effects.
    ReleaseSinks,
    /// Stop reading what the application prints.
    StopReader,
    /// Kill the application and wait for it.
    KillApp,
    /// Finish the recording's file.
    StopRecording,
    /// Close the recording's stream.
    StopRecordingStream,
    /// Close the stream that keeps the compositor drawing.
    StopKeepalive,
    /// Release the input and capture backends.
    ReleaseBackends,
    /// Stop the compositor.
    StopCompositor,
}

/// What a running session holds that has to be taken down.
#[derive(Debug, Clone, Copy, PartialEq, Eq, Structural)]
pub struct Holdings {
    pub sinks: bool,
    pub reader: bool,
    pub recorder: bool,
    pub recorder_stream: bool,
    pub keepalive: bool,
}

/// `step` where it is called for.
pub open spec fn where_held(held: bool, step: StopStep) -> Seq<StopStep> {
    if held {
        seq![step]
    } else {
        seq![]
    }
}

/// The steps of shutting a session down.
pub open spec fn stop_steps(h: Holdings) -> Seq<StopStep> {
    seq![StopStep::Cancel] + where_held(h.sinks, StopStep::ReleaseSinks) + where_held(
        h.reader,
        StopStep::StopReader,
    ) + seq![StopStep::KillApp] + where_held(h.recorder, StopStep::StopRecording) + where_held(
        h.recorder_stream,
        StopStep::StopRecordingStream,
    ) + where_held(h.keepalive, StopStep::StopKeepalive) + seq![
        StopStep::ReleaseBackends,
        StopStep::StopCompositor,
    ]
}

/// The steps of shutting a session down, in order.
pub fn shutdown(h: Holdings) -> (r: Vec<StopStep>)
    ensures
        r@ == stop_steps(h),
{
    let mut steps: Vec<StopStep> = Vec::new();
    steps.push(StopStep::Cancel);
    if h.sinks {
        steps.push(StopStep::ReleaseSinks);
    }
    if h.reader {
        steps.push(StopStep::StopReader);
    }
    steps.push(StopStep::KillApp);
    if h.recorder {
        steps.push(StopStep::StopRecording);
    }
    if h.recorder_stream {
        steps.push(StopStep::StopRecordingStream);
    }
    if h.keepalive {
        steps.push(StopStep::StopKeepalive);
    }
    steps.push(StopStep::ReleaseBackends);
    steps.push(StopStep::StopCompositor);
    assert(steps@ =~= stop_steps(h));
    steps
}

/// What the outcome of a step of shutting down means to the whole.
pub open spec fn counted_failure(step: StopStep, result: Result<(), ErrorView>) -> Option<
    ErrorView,
> {
    if step == StopStep::StopCompositor && result is Err {
        Some(result->Err_0)
    } else {
        None
    }
}

/// The error of a shutdown that took too long.
pub open spec fn too_slow(id: Seq<char>) -> ErrorView {
    ErrorView::Timeout("session "@ + id + " kill exceeded 5s budget"@)
}

/// What a failed step of shutting down means to the whole: only the compositor's
/// failure counts.
pub fn stop_failure(step: StopStep, result: Result<(), Error>) -> (r: Option<Error>)
    ensures
        error::optional_error(r) == (match error::outcome(result) {
            Err(e) if step == StopStep::StopCompositor => Some(e),
            _ => None,
        }),
        error::optional_error(r) == counted_failure(step, error::outcome(result)),
{
    match (step, result) {
        (StopStep::StopCompositor, Err(e)) => Some(e),
        _ => None,
    }
}

/// The error of a shutdown that took too long.
pub fn kill_timeout(id: &str) -> (r: Error)
    ensures
        r@ == ErrorView::Timeout("session "@ + id@ + " kill exceeded 5s budget"@),
        r@ == too_slow(id@),
{
    let mut m = "session ".to_string();
    m.append(id);
    m.append(" kill exceeded 5s budget");
    Error::Timeout(m)
}

/// The order that shutting down relies on: waits are cancelled first; the application
/// dies before the backends are released, and these before the compositor stops, which
/// comes last; a recording is finished before its stream is closed.
pub proof fn law_shutdown_order(h: Holdings)
    ensures
        stop_steps(h)[0] == StopStep::Cancel,
        stop_steps(h).last() == StopStep::StopCompositor,
        forall|i: int, j: int|
            0 <= i < stop_steps(h).len() && 0 <= j < stop_steps(h).len() ==> {
                let a = #[trigger] stop_steps(h)[i];
                let b = #[trigger] stop_steps(h)[j];
                &&& a == StopStep::KillApp && b == StopStep::ReleaseBackends ==> i < j
                &&& a == StopStep::ReleaseBackends && b == StopStep::StopCompositor ==> i < j
                &&& a == StopStep::StopRecording && b == StopStep::StopRecordingStream ==> i < j
                &&& a == StopStep::StopRecordingStream && b == StopStep::ReleaseBackends ==> i < j
                &&& a == StopStep::StopKeepalive && b == StopStep::ReleaseBackends ==> i < j
                &&& a == b ==> i == j
            },
{
    lemma_stops_in_order(h);
    lemma_ends_of_a_shutdown(h);
    let s = stop_steps(h);
    assert forall|i: int, j: int| 0 <= i < s.len() && 0 <= j < s.len() && stage(s[i]) < stage(
        s[j],
    ) implies i < j by {
        if j < i {
            assert(stage(s[j]) < stage(s[i]));
        }
    }
    assert forall|i: int, j: int| 0 <= i < s.len() && 0 <= j < s.len() && s[i] == s[j] implies i
        == j by {
        if i < j {
            assert(stage(s[i]) < stage(s[j]));
        } else if j < i {
            assert(stage(s[j]) < stage(s[i]));
        }
    }
}

proof fn lemma_ends_of_a_shutdown(h: Holdings)
    ensures
        stop_steps(h)[0] == StopStep::Cancel,
        stop_steps(h).last() == StopStep::StopCompositor,
{
}

/// A recording that is configured is started with the bitrate and the frame rate that are
/// configured; the defaults count only where there is none. Without a configured file
/// nothing is recorded.
pub proof fn law_recording_follows_the_configuration(cfg: SessionConfig)
    ensures
        ({
            let steps = start_begun(cfg.capture_external_effects, recording_of(cfg)).steps;
            let n = steps.len() as int;
            &&& cfg.video_output is Some ==> {
                &&& n >= 2
                &&& steps[n - 2] is StartRecordingStream
                &&& steps[n - 1] matches StartStep::StartRecording { bitrate, fps } && {
                    &&& cfg.video_bitrate matches Some(b) ==> bitrate == b
                    &&& cfg.video_fps matches Some(f) ==> fps == f
                    &&& cfg.video_bitrate is None ==> bitrate == 2_000_000
                    &&& cfg.video_fps is None ==> fps == 15
                }
                &&& forall|i: int|
                    0 <= i < n - 2 ==> !(#[trigger] steps[i] is StartRecording) && !(
                    steps[i] is StartRecordingStream)
            }
            &&& cfg.video_output is None ==> forall|i: int|
                0 <= i < n ==> !(#[trigger] steps[i] is StartRecording) && !(
                steps[i] is StartRecordingStream)
        }),
{
}

/// A start spawns the application, connects to its bus and finds it, in this order, before
/// anything else; then it captures external effects, where that is asked for, opens the
/// stream that keeps the display drawn and presses the key that assigns the focus.
pub proof fn law_start_order(sinks: bool, recording: Option<(u32, u32)>)
    ensures
        ({
            let steps = start_begun(sinks, recording).steps;
            let on = if sinks {
                1int
            } else {
                0
            };
            &&& start_begun(sinks, recording).at == 0
            &&& start_begun(sinks, recording).failure is None
            &&& !start_begun(sinks, recording).sinks
            &&& steps.len() == 5 + on + (if recording is Some {
                2int
            } else {
                0
            })
            &&& steps[0] == StartStep::SpawnApp
            &&& steps[1] == StartStep::ConnectA11y
            &&& steps[2] == StartStep::FindApp
            &&& sinks ==> steps[3] == StartStep::StartSinks
            &&& steps[3 + on] == StartStep::StartKeepalive
            &&& steps[4 + on] == StartStep::PrimeKeyboard(0xffe1)
        }),
{
}

/// A start goes on to the next step where a step succeeds, and where capturing effects or
/// the key press fails; any other failure ends it with that error.
pub proof fn law_failed_step_of_a_start(s: StartView, e: ErrorView)
    requires
        s.due() is Some,
    ensures
        ({
            let step = s.due()->0;
            let spared = match step {
                StartStep::StartSinks => true,
                StartStep::PrimeKeyboard(_) => true,
                _ => false,
            };
            let done = s.after(None);
            let failed = s.after(Some(e));
            &&& done.at == s.at + 1 && done.failure == s.failure && done.steps == s.steps
            &&& spared ==> failed.at == s.at + 1 && failed.failure == s.failure && failed.steps
                == s.steps && failed.sinks == s.sinks
            &&& !spared ==> failed.failure == Some(e) && failed.due() is None && failed.at == s.at
            &&& done.sinks <==> s.sinks || step == StartStep::StartSinks
            &&& step == s.steps[s.at as int]
        }),
{
}

/// A shutdown has a step for each thing that is held, and none for what is not; it always
/// cancels the waits, kills the application, releases the backends and stops the compositor.
pub proof fn law_shutdown_takes_down_what_is_held(h: Holdings)
    ensures
        stop_steps(h).contains(StopStep::ReleaseSinks) <==> h.sinks,
        stop_steps(h).contains(StopStep::StopReader) <==> h.reader,
        stop_steps(h).contains(StopStep::StopRecording) <==> h.recorder,
        stop_steps(h).contains(StopStep::StopRecordingStream) <==> h.recorder_stream,
        stop_steps(h).contains(StopStep::StopKeepalive) <==> h.keepalive,
        stop_steps(h).contains(StopStep::Cancel),
        stop_steps(h).contains(StopStep::KillApp),
        stop_steps(h).contains(StopStep::ReleaseBackends),
        stop_steps(h).contains(StopStep::StopCompositor),
{
    lemma_stop_step(h, StopStep::ReleaseSinks);
    lemma_stop_step(h, StopStep::StopReader);
    lemma_stop_step(h, StopStep::StopRecording);
    lemma_stop_step(h, StopStep::StopRecordingStream);
    lemma_stop_step(h, StopStep::StopKeepalive);
    lemma_stop_step(h, StopStep::Cancel);
    lemma_stop_step(h, StopStep::KillApp);
    lemma_stop_step(h, StopStep::ReleaseBackends);
    lemma_stop_step(h, StopStep::StopCompositor);
}

proof fn lemma_contains_joined(a: Seq<StopStep>, b: Seq<StopStep>, step: StopStep)
    ensures
        (a + b).contains(step) <==> a.contains(step) || b.contains(step),
{
    if a.contains(step) {
        let i = choose|i: int| 0 <= i < a.len() && a[i] == step;
        assert((a + b)[i] == step);
    }
    if b.contains(step) {
        let i = choose|i: int| 0 <= i < b.len() && b[i] == step;
        assert((a + b)[a.len() + i] == step);
    }
}

proof fn lemma_where_held(held: bool, step: StopStep, other: StopStep)
    ensures
        where_held(held, step).contains(other) <==> held && step == other,
{
    if held {
        assert(where_held(held, step)[0] == step);
    }
}

proof fn lemma_stop_step(h: Holdings, step: StopStep)
    ensures
        stop_steps(h).contains(step) == (match step {
            StopStep::ReleaseSinks => h.sinks,
            StopStep::StopReader => h.reader,
            StopStep::StopRecording => h.recorder,
            StopStep::StopRecordingStream => h.recorder_stream,
            StopStep::StopKeepalive => h.keepalive,
            _ => true,
        }),
{
    let s0 = seq![StopStep::Cancel];
    let w1 = where_held(h.sinks, StopStep::ReleaseSinks);
    let w2 = where_held(h.reader, StopStep::StopReader);
    let w3 = seq![StopStep::KillApp];
    let w4 = where_held(h.recorder, StopStep::StopRecording);
    let w5 = where_held(h.recorder_stream, StopStep::StopRecordingStream);
    let w6 = where_held(h.keepalive, StopStep::StopKeepalive);
    let w7 = seq![StopStep::ReleaseBackends, StopStep::StopCompositor];
    lemma_contains_joined(s0, w1, step);
    lemma_contains_joined(s0 + w1, w2, step);
    lemma_contains_joined(s0 + w1 + w2, w3, step);
    lemma_contains_joined(s0 + w1 + w2 + w3, w4, step);
    lemma_contains_joined(s0 + w1 + w2 + w3 + w4, w5, step);
    lemma_contains_joined(s0 + w1 + w2 + w3 + w4 + w5, w6, step);
    lemma_contains_joined(s0 + w1 + w2 + w3 + w4 + w5 + w6, w7, step);
    lemma_where_held(h.sinks, StopStep::ReleaseSinks, step);
    lemma_where_held(h.reader, StopStep::StopReader, step);
    lemma_where_held(h.recorder, StopStep::StopRecording, step);
    lemma_where_held(h.recorder_stream, StopStep::StopRecordingStream, step);
    lemma_where_held(h.keepalive, StopStep::StopKeepalive, step);
    assert(s0[0] == StopStep::Cancel && w3[0] == StopStep::KillApp && w7[0]
        == StopStep::ReleaseBackends && w7[1] == StopStep::StopCompositor);
}

spec fn stage(step: StopStep) -> int {
    match step {
        StopStep::Cancel => 0,
        StopStep::ReleaseSinks => 1,
        StopStep::StopReader => 2,
        StopStep::KillApp => 3,
        StopStep::StopRecording => 4,
        StopStep::StopRecordingStream => 5,
        StopStep::StopKeepalive => 6,
        StopStep::ReleaseBackends => 7,
        StopStep::StopCompositor => 8,
    }
}

spec fn in_order(s: Seq<StopStep>, end: int) -> bool {
    &&& forall|i: int| 0 <= i < s.len() ==> stage(#[trigger] s[i]) < end
    &&& forall|i: int, j: int|
        0 <= i < j < s.len() ==> stage(#[trigger] s[i]) < stage(#[trigger] s[j])
}

proof fn lemma_one_more_in_order(s: Seq<StopStep>, held: bool, step: StopStep, end: int)
    requires
        in_order(s, end),
        stage(step) == end,
    ensures
        in_order(s + where_held(held, step), end + 1),
{
    let r = s + where_held(held, step);
    assert forall|i: int| 0 <= i < r.len() implies stage(#[trigger] r[i]) < end + 1 by {
        if i < s.len() {
            assert(r[i] == s[i]);
        }
    }
    assert forall|i: int, j: int| 0 <= i < j < r.len() implies stage(#[trigger] r[i]) < stage(
        #[trigger] r[j],
    ) by {
        assert(r[i] == s[i]);
        if j < s.len() {
            assert(r[j] == s[j]);
        }
    }
}

proof fn lemma_stops_in_order(h: Holdings)
    ensures
        in_order(stop_steps(h), 9),
{
    let s0 = Seq::<StopStep>::empty();
    let s1 = s0 + where_held(true, StopStep::Cancel);
    let s2 = s1 + where_held(h.sinks, StopStep::ReleaseSinks);
    let s3 = s2 + where_held(h.reader, StopStep::StopReader);
    let s4 = s3 + where_held(true, StopStep::KillApp);
    let s5 = s4 + where_held(h.recorder, StopStep::StopRecording);
    let s6 = s5 + where_held(h.recorder_stream, StopStep::StopRecordingStream);
    let s7 = s6 + where_held(h.keepalive, StopStep::StopKeepalive);
    let s8 = s7 + where_held(true, StopStep::ReleaseBackends);
    let s9 = s8 + where_held(true, StopStep::StopCompositor);
    lemma_one_more_in_order(s0, true, StopStep::Cancel, 0);
    lemma_one_more_in_order(s1, h.sinks, StopStep::ReleaseSinks, 1);
    lemma_one_more_in_order(s2, h.reader, StopStep::StopReader, 2);
    lemma_one_more_in_order(s3, true, StopStep::KillApp, 3);
    lemma_one_more_in_order(s4, h.recorder, StopStep::StopRecording, 4);
    lemma_one_more_in_order(s5, h.recorder_stream, StopStep::StopRecordingStream, 5);
    lemma_one_more_in_order(s6, h.keepalive, StopStep::StopKeepalive, 6);
    lemma_one_more_in_order(s7, true, StopStep::ReleaseBackends, 7);
    lemma_one_more_in_order(s8, true, StopStep::StopCompositor, 8);
    assert(s1 =~= seq![StopStep::Cancel]);
    assert(s9 =~= s7 + seq![StopStep::ReleaseBackends, StopStep::StopCompositor]);
}

/// Captured effects are released and the reader is stopped before the application is killed,
/// and the recording and the streams are closed after it, the display's own stream last.
pub proof fn law_application_dies_between(h: Holdings)
    ensures
        forall|i: int, j: int|
            0 <= i < stop_steps(h).len() && 0 <= j < stop_steps(h).len() ==> {
                let a = #[trigger] stop_steps(h)[i];
                let b = #[trigger] stop_steps(h)[j];
                &&& a == StopStep::ReleaseSinks && b == StopStep::StopReader ==> i < j
                &&& a == StopStep::ReleaseSinks && b == StopStep::KillApp ==> i < j
                &&& a == StopStep::StopReader && b == StopStep::KillApp ==> i < j
                &&& a == StopStep::KillApp && b == StopStep::StopRecording ==> i < j
                &&& a == StopStep::KillApp && b == StopStep::StopRecordingStream ==> i < j
                &&& a == StopStep::StopRecordingStream && b == StopStep::StopKeepalive ==> i < j
                &&& a == StopStep::StopRecording && b == StopStep::StopKeepalive ==> i < j
                &&& a == StopStep::KillApp && b == StopStep::StopKeepalive ==> i < j
            },
{
    lemma_stops_in_order(h);
    let s = stop_steps(h);
    assert forall|i: int, j: int| 0 <= i < s.len() && 0 <= j < s.len() && stage(s[i]) < stage(
        s[j],
    ) implies i < j by {
        if j < i {
            assert(stage(s[j]) < stage(s[i]));
        }
    }
}

/// The comparable form of an ASCII name has its letters in lower case and a space for each
/// hyphen, and is the name otherwise.
pub proof fn law_comparable_form(name: Seq<char>)
    requires
        forall|i: int| 0 <= i < name.len() ==> (#[trigger] name[i] as u32) < 128,
    ensures
        normalized(name).len() == name.len(),
        forall|i: int|
            0 <= i < name.len() ==> {
                let c = #[trigger] normalized(name)[i];
                &&& 'A' <= name[i] <= 'Z' ==> c as int == name[i] as int + 32
                &&& name[i] == '-' ==> c == ' '
                &&& !('A' <= name[i] <= 'Z') && name[i] != '-' ==> c == name[i]
            },
{
    text::law_lower_case(name);
    assert forall|i: int| 0 <= i < name.len() implies {
        let c = #[trigger] normalized(name)[i];
        &&& 'A' <= name[i] <= 'Z' ==> c as int == name[i] as int + 32
        &&& name[i] == '-' ==> c == ' '
        &&& !('A' <= name[i] <= 'Z') && name[i] != '-' ==> c == name[i]
    } by {
        let l = text::lowercase(name)[i];
        assert('A' <= name[i] <= 'Z' ==> l as int == name[i] as int + 32);
        assert(!('A' <= name[i] <= 'Z') ==> l == name[i]);
    }
}

/// An ASCII name matches every ASCII name that it is a part of, and nothing matches an empty
/// name.
pub proof fn law_part_of_a_name_matches(front: Seq<char>, name: Seq<char>, back: Seq<char>)
    requires
        text::all_ascii(front),
        text::all_ascii(name),
        text::all_ascii(back),
    ensures
        name.len() > 0 ==> names_match(front + name + back, name),
        name.len() > 0 ==> names_match(name, front + name + back),
        !names_match(Seq::empty(), name),
        !names_match(name, Seq::empty()),
{
    let whole = front + name + back;
    assert(text::all_ascii(whole));
    let (f, n, b) = (normalized(front), normalized(name), normalized(back));
    assert(normalized(whole) =~= (f + n) + b);
    text::law_occurs_between(normalized(whole), n);
}

/// Names that match are one a part of the other, in comparable form.
pub proof fn law_matching_names_hold_each_other(a: Seq<char>, b: Seq<char>)
    ensures
        names_match(a, b) <==> a.len() > 0 && b.len() > 0 && ((exists|x: Seq<char>, y: Seq<char>|
            #[trigger] ((x + normalized(a)) + y) == normalized(b)) || (exists|
            x: Seq<char>,
            y: Seq<char>,
        |
            #[trigger] ((x + normalized(b)) + y) == normalized(a))),
{
    text::law_occurs_between(normalized(a), normalized(b));
    text::law_occurs_between(normalized(b), normalized(a));
}

/// The application is looked for a hundred times, a tenth of a second apart, and the error then
/// tells its name and the ten seconds. An entry without a bus name or a name is not it, and
/// one with both is where the names match.
pub proof fn law_application_is_looked_for(s: AppSearchView, bus: Seq<char>, name: Seq<char>)
    ensures
        s.over() is Some <==> s.scans >= 100,
        s.over() is Some ==> s.over() == Some(
            ErrorView::Timeout(
                "app '"@ + s.app_name + "' did not appear in AT-SPI registry within 10s"@,
            ),
        ),
        s.is_it(Some(bus), Some(name)) <==> names_match(name, s.app_name),
        !s.is_it(None, Some(name)),
        !s.is_it(Some(bus), None),
        APP_DISCOVERY_POLLS * APP_DISCOVERY_POLL_INTERVAL_MS == 1000 * APP_DISCOVERY_TIMEOUT_SECS,
        APP_DISCOVERY_TIMEOUT_SECS == 10,
        APP_DISCOVERY_POLL_INTERVAL_MS == 100,
{
}

/// Shutting down fails only where stopping the compositor fails, and with that error.
pub proof fn law_only_the_compositor_counts(step: StopStep, e: ErrorView)
    ensures
        counted_failure(step, Ok(())) is None,
        counted_failure(StopStep::StopCompositor, Err(e)) == Some(e),
        step != StopStep::StopCompositor ==> counted_failure(step, Err(e)) is None,
{
}

/// A shutdown may take five seconds, and the error of a longer one names the session. The key
/// that is pressed at the start is the left Shift.
pub proof fn law_shutdown_limit(id: Seq<char>)
    ensures
        KILL_TIMEOUT_SECS == 5,
        too_slow(id) == ErrorView::Timeout("session "@ + id + " kill exceeded 5s budget"@),
        PRIMING_KEYSYM == 0xffe1,
{
}

/// The steps of a start are due one after the other; none is once a failure ended it, or when
/// the last was taken.
pub proof fn law_steps_are_due_in_turn(s: StartView)
    ensures
        s.failure is None && s.at < s.steps.len() ==> s.due() == Some(s.steps[s.at as int]),
        s.failure is None && s.at == s.steps.len() ==> s.due() is None,
        s.failure is Some ==> s.due() is None,
{
}

} // verus!
