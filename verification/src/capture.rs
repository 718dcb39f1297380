//! Screenshots and recordings: the pipelines they run, the lock and the environment
//! they run them under, and what their failures mean.
use crate::error::{self, Error, ErrorView};
use crate::text::{self, decimal_u64, is_white_space};
use vstd::prelude::*;
use vstd::string::*;

verus! {

/// Default target bitrate of recordings, in bits per second.
pub const DEFAULT_VIDEO_BITRATE: u32 = 2_000_000;

/// Default frame rate of recordings, in frames per second.
pub const DEFAULT_VIDEO_FPS: u32 = 15;

// ── Pipelines ───────────────────────────────────────────────────────────────

/// The pipeline that takes one frame of a stream as PNG.
pub open spec fn png_pipeline(node_id: u32) -> Seq<char> {
    "pipewiresrc path="@ + text::decimal(node_id as nat)
        + " always-copy=true do-timestamp=true num-buffers=5 ! videoconvert ! pngenc snapshot=true ! appsink name=sink"@
}

/// The pipeline that takes one frame of the stream with this node as PNG.
pub fn build_pipeline_str(node_id: u32) -> (r: String)
    ensures
        r@ == png_pipeline(node_id),
{
    let mut s = "pipewiresrc path=".to_string();
    s.append(decimal_u64(node_id as u64).as_str());
    s.append(
        " always-copy=true do-timestamp=true num-buffers=5 ! videoconvert ! pngenc snapshot=true ! appsink name=sink",
    );
    s
}

/// Whether text holds white space.
pub open spec fn has_blanks(s: Seq<char>) -> bool {
    exists|i: int| 0 <= i < s.len() && text::white_space(#[trigger] s[i])
}

/// Whether a path holds white space, which a pipeline description cannot carry.
pub fn path_has_blanks(path: &str) -> (r: bool)
    ensures
        r == has_blanks(path@),
{
    let cs = text::chars_of(path);
    let mut i: usize = 0;
    while i < cs.len()
        invariant
            cs@ == path@,
            i <= cs.len(),
            forall|k: int| 0 <= k < i ==> !text::white_space(#[trigger] cs@[k]),
        decreases cs.len() - i,
    {
        if is_white_space(cs[i]) {
            assert(text::white_space(path@[i as int]));
            return true;
        }
        i = i + 1;
    }
    false
}

/// A number in four bytes, the most significant first.
pub open spec fn number_at(bytes: Seq<u8>, at: int) -> int {
    bytes[at] * 0x100_0000 + bytes[at + 1] * 0x1_0000 + bytes[at + 2] * 0x100 + bytes[at + 3]
}

/// Whether bytes begin as a PNG image does: with its signature and a header chunk.
pub open spec fn begins_as_png(bytes: Seq<u8>) -> bool {
    &&& bytes.len() >= 24
    &&& bytes.take(8) == seq![0x89u8, 0x50, 0x4e, 0x47, 0x0d, 0x0a, 0x1a, 0x0a]
    &&& bytes.subrange(12, 16) == seq![0x49u8, 0x48, 0x44, 0x52]
}

/// Width and height of a screenshot, as the header of the image states them; the picture
/// itself is not decoded. A PNG image states no extent beyond 2^31 - 1.
pub fn screenshot_size(png: &[u8]) -> (r: Result<(i32, i32), Error>)
    ensures
        match r {
            Ok(size) => begins_as_png(png@) && size.0 == number_at(png@, 16) && size.1
                == number_at(png@, 20),
            Err(e) => {
                &&& !begins_as_png(png@) || number_at(png@, 16) > i32::MAX || number_at(
                    png@,
                    20,
                ) > i32::MAX
                &&& e@ == (ErrorView::Screenshot {
                    message: "screenshot is not a PNG image"@,
                    source: None,
                })
            },
        },
{
    let signature: [u8; 8] = [0x89, 0x50, 0x4e, 0x47, 0x0d, 0x0a, 0x1a, 0x0a];
    let header: [u8; 4] = [0x49, 0x48, 0x44, 0x52];
    if png.len() >= 24 && holds_at(png, 0, &signature) && holds_at(png, 12, &header) {
        assert(png@.subrange(0, 8) =~= png@.take(8));
        let width: u32 = read_number(png, 16);
        let height: u32 = read_number(png, 20);
        if width <= 0x7fff_ffff && height <= 0x7fff_ffff {
            return Ok((width as i32, height as i32));
        }
    }
    assert(png@.len() >= 8 ==> png@.subrange(0, 8) =~= png@.take(8));
    Err(Error::screenshot("screenshot is not a PNG image"))
}

/// Whether `part` stands at a position.
fn holds_at(bytes: &[u8], at: usize, part: &[u8]) -> (r: bool)
    requires
        at + part@.len() <= bytes@.len(),
    ensures
        r == (bytes@.subrange(at as int, at + part@.len()) == part@),
{
    let n: usize = bytes.len();
    let mut i: usize = 0;
    while i < part.len()
        invariant
            i <= part.len(),
            at + part@.len() <= bytes@.len() == n,
            forall|k: int| 0 <= k < i ==> bytes@[at + k] == #[trigger] part@[k],
        decreases part.len() - i,
    {
        if bytes[at + i] != part[i] {
            assert(bytes@.subrange(at as int, at + part@.len())[i as int] != part@[i as int]);
            return false;
        }
        i = i + 1;
    }
    assert(bytes@.subrange(at as int, at + part@.len()) =~= part@);
    true
}

/// The number in four bytes at a position.
fn read_number(bytes: &[u8], at: usize) -> (r: u32)
    requires
        at + 4 <= bytes@.len(),
    ensures
        r == number_at(bytes@, at as int),
{
    bytes[at] as u32 * 0x100_0000 + bytes[at + 1] as u32 * 0x1_0000 + bytes[at + 2] as u32
        * 0x100 + bytes[at + 3] as u32
}

/// The pipeline that records a stream to a WebM file, with a keyframe about every two
/// seconds.
pub open spec fn recording_pipeline(
    node_id: u32,
    output_path: Seq<char>,
    bitrate: u32,
    fps: u32,
) -> Seq<char> {
    "pipewiresrc path="@ + text::decimal(node_id as nat)
        + " always-copy=true do-timestamp=true ! videoconvert ! videorate ! video/x-raw,framerate="@
        + text::decimal(fps as nat) + "/1 ! vp8enc deadline=1 cpu-used=4 target-bitrate="@
        + text::decimal(bitrate as nat) + " min-quantizer=4 max-quantizer=30 keyframe-max-dist="@
        + text::decimal((fps * 2) as nat) + " ! webmmux ! filesink location="@ + output_path
}

/// The pipeline that records the stream with this node to a WebM file. GStreamer cannot
/// read back a path with white space in it; twice the frame rate must be a number of 32
/// bits.
pub fn build_recording_pipeline_str(
    node_id: u32,
    output_path: &str,
    bitrate: u32,
    fps: u32,
) -> (r: String)
    requires
        fps * 2 <= u32::MAX,
    ensures
        r@ == recording_pipeline(node_id, output_path@, bitrate, fps),
{
    let mut s = "pipewiresrc path=".to_string();
    s.append(decimal_u64(node_id as u64).as_str());
    s.append(
        " always-copy=true do-timestamp=true ! videoconvert ! videorate ! video/x-raw,framerate=",
    );
    s.append(decimal_u64(fps as u64).as_str());
    s.append("/1 ! vp8enc deadline=1 cpu-used=4 target-bitrate=");
    s.append(decimal_u64(bitrate as u64).as_str());
    s.append(" min-quantizer=4 max-quantizer=30 keyframe-max-dist=");
    let keyframe_max_dist: u32 = fps * 2;
    s.append(decimal_u64(keyframe_max_dist as u64).as_str());
    s.append(" ! webmmux ! filesink location=");
    s.append(output_path);
    s
}

// ── The socket ──────────────────────────────────────────────────────────────

/// What `std::path::Path::parent` gives for a path.
pub uninterp spec fn path_parent(path: Seq<char>) -> Option<Seq<char>>;

/// Calls `std::path::Path::parent`: the path without its final component. The empty
/// path has none. Where the final component is a name behind a slash, and what comes
/// before that slash does not itself end in a slash or a dot, that is the parent; a
/// name right below the root has the root for its parent.
#[verifier::external_body]
fn parent_dir(path: &str) -> (r: Option<String>)
    ensures
        error::optional(r) == path_parent(path@),
        path@.len() == 0 ==> r is None,
        forall|dir: Seq<char>, name: Seq<char>|
            #![trigger dir + "/"@ + name]
            path@ == dir + "/"@ + name && plain_name(name) && dir.len() > 0 && dir.last() != '/'
                && dir.last() != '.' ==> error::optional(r) == Some(dir),
        forall|name: Seq<char>|
            #![trigger "/"@ + name]
            path@ == "/"@ + name && plain_name(name) ==> error::optional(r) == Some("/"@),
{
    std::path::Path::new(path).parent().map(|p| p.to_string_lossy().into_owned())
}

/// Whether text is a name that can stand at the end of a path: it is not empty, holds
/// no slash and does not begin with a dot.
pub open spec fn plain_name(name: Seq<char>) -> bool {
    name.len() > 0 && !name.contains('/') && name[0] != '.'
}

/// What the search for the directory of a socket comes to, given its parent.
pub open spec fn socket_dir(path: Seq<char>, parent: Option<Seq<char>>) -> Result<
    Seq<char>,
    ErrorView,
> {
    match parent {
        Some(dir) => Ok(dir),
        None => Err(
            ErrorView::Screenshot {
                message: "pipewire socket path has no parent: "@ + path,
                source: None,
            },
        ),
    }
}

/// The directory of a socket, given its parent as far as it has one.
pub fn socket_dir_of(path: &str, parent: Option<String>) -> (r: Result<String, Error>)
    ensures
        (match r {
            Ok(d) => Ok(d@),
            Err(e) => Err(e@),
        }) == socket_dir(path@, error::optional(parent)),
{
    match parent {
        Some(dir) => Ok(dir),
        None => {
            let mut m = "pipewire socket path has no parent: ".to_string();
            m.append(path);
            Err(Error::screenshot(m.as_str()))
        },
    }
}

/// The directory of a PipeWire socket.
pub fn validate_pipewire_socket(path: &str) -> (r: Result<String, Error>)
    ensures
        (match r {
            Ok(d) => Ok(d@),
            Err(e) => Err(e@),
        }) == socket_dir(path@, path_parent(path@)),
        path@.len() == 0 ==> r is Err,
        forall|dir: Seq<char>, name: Seq<char>|
            #![trigger dir + "/"@ + name]
            path@ == dir + "/"@ + name && plain_name(name) && dir.len() > 0 && dir.last() != '/'
                && dir.last() != '.' ==> (r matches Ok(d) && d@ == dir),
        forall|name: Seq<char>|
            #![trigger "/"@ + name]
            path@ == "/"@ + name && plain_name(name) ==> (r matches Ok(d) && d@ == "/"@),
{
    socket_dir_of(path, parent_dir(path))
}

// ── The lock ────────────────────────────────────────────────────────────────

/// How long a capture waits for the one before it, in seconds.
pub const CAPTURE_LOCK_TIMEOUT_SECS: u64 = 20;

/// Pause between two attempts to take the lock.
pub const LOCK_RETRY_MS: u64 = 25;

/// What an attempt to take the lock came to.
#[derive(Debug)]
pub enum LockAttempt {
    /// The lock was taken.
    Taken,
    /// A holder died, with this message.
    Poisoned(String),
    /// Another capture holds it.
    Busy,
}

/// What to do after an attempt to take the lock.
#[derive(Debug)]
pub enum LockAction {
    /// Go on with the capture.
    Proceed,
    /// Give up.
    Fail(Error),
    /// Try again after so many milliseconds.
    Retry(u64),
}

/// The error of a capture that could not take the lock in time.
pub open spec fn lock_timeout(secs: u64) -> ErrorView {
    ErrorView::Timeout(
        "capture subsystem busy or wedged: GRAB_PNG_LOCK not acquired within "@ + text::decimal(
            secs as nat,
        )
            + "s (a prior screenshot/recording on a non-responsive session is likely stuck connecting to PipeWire)"@,
    )
}

/// How a capture goes on after an attempt to take the lock: `Ok(None)` to go on with the
/// capture, `Ok(Some(ms))` to try again after so many milliseconds, or the error to give up
/// with.
pub open spec fn lock_step(attempt: LockAttempt, expired: bool, secs: u64) -> Result<
    Option<u64>,
    ErrorView,
> {
    match attempt {
        LockAttempt::Taken => Ok(None),
        LockAttempt::Poisoned(cause) => Err(
            ErrorView::Screenshot { message: "grab_png lock poisoned: "@ + cause@, source: None },
        ),
        LockAttempt::Busy => if expired {
            Err(lock_timeout(secs))
        } else {
            Ok(Some(LOCK_RETRY_MS))
        },
    }
}

/// The mathematical value of a [`LockAction`].
pub open spec fn lock_action(a: LockAction) -> Result<Option<u64>, ErrorView> {
    match a {
        LockAction::Proceed => Ok(None),
        LockAction::Fail(e) => Err(e@),
        LockAction::Retry(ms) => Ok(Some(ms)),
    }
}

/// Decides what to do after an attempt to take the lock. `expired` tells whether the
/// time, so many seconds, is up: a holder that is stuck must not block captures for
/// good.
pub fn lock_capture(attempt: LockAttempt, expired: bool, timeout_secs: u64) -> (r: LockAction)
    ensures
        match attempt {
            LockAttempt::Taken => r is Proceed,
            LockAttempt::Poisoned(cause) => r matches LockAction::Fail(e) && e@ == (
            ErrorView::Screenshot {
                message: "grab_png lock poisoned: "@ + cause@,
                source: None,
            }),
            LockAttempt::Busy => if expired {
                r matches LockAction::Fail(e) && e@ == lock_timeout(timeout_secs)
            } else {
                r == LockAction::Retry(LOCK_RETRY_MS)
            },
        },
        lock_action(r) == lock_step(attempt, expired, timeout_secs),
{
    match attempt {
        LockAttempt::Taken => LockAction::Proceed,
        LockAttempt::Poisoned(cause) => {
            let mut m = "grab_png lock poisoned: ".to_string();
            m.append(cause.as_str());
            LockAction::Fail(Error::screenshot(m.as_str()))
        },
        LockAttempt::Busy => {
            if !expired {
                return LockAction::Retry(LOCK_RETRY_MS);
            }
            let mut m =
                "capture subsystem busy or wedged: GRAB_PNG_LOCK not acquired within ".to_string();
            m.append(decimal_u64(timeout_secs).as_str());
            m.append(
                "s (a prior screenshot/recording on a non-responsive session is likely stuck connecting to PipeWire)",
            );
            LockAction::Fail(Error::Timeout(m))
        },
    }
}

// ── The environment ─────────────────────────────────────────────────────────

/// A change to the environment.
#[derive(Debug)]
pub enum EnvChange<V> {
    /// Give a variable a value.
    Assign(String, V),
    /// Remove a variable.
    Remove(String),
}

/// The mathematical value of an [`EnvChange`].
#[verifier::ext_equal]
pub enum ChangeView<V> {
    Assign(Seq<char>, V),
    Remove(Seq<char>),
}

impl<V> View for EnvChange<V> {
    type V = ChangeView<V>;

    open spec fn view(&self) -> ChangeView<V> {
        match *self {
            EnvChange::Assign(k, v) => ChangeView::Assign(k@, v),
            EnvChange::Remove(k) => ChangeView::Remove(k@),
        }
    }
}

/// The environment after one change.
pub open spec fn changed<V>(env: Map<Seq<char>, V>, change: ChangeView<V>) -> Map<Seq<char>, V> {
    match change {
        ChangeView::Assign(k, v) => env.insert(k, v),
        ChangeView::Remove(k) => env.remove(k),
    }
}

/// The environment after a series of changes.
pub open spec fn changed_by<V>(env: Map<Seq<char>, V>, changes: Seq<ChangeView<V>>) -> Map<
    Seq<char>,
    V,
>
    decreases changes.len(),
{
    if changes.len() == 0 {
        env
    } else {
        changed_by(changed(env, changes[0]), changes.skip(1))
    }
}

/// Variables with the values they had before they were overridden, in the order in
/// which they were. Undoing goes the other way, so that every variable gets back the
/// value it had at first, however often it was overridden.
#[derive(Debug)]
pub struct EnvGuard<V> {
    saved: Vec<(String, Option<V>)>,
}

/// The change that gives a variable back its value.
pub open spec fn undoing<V>(saved: (Seq<char>, Option<V>)) -> ChangeView<V> {
    match saved.1 {
        Some(v) => ChangeView::Assign(saved.0, v),
        None => ChangeView::Remove(saved.0),
    }
}

impl<V> View for EnvGuard<V> {
    type V = Seq<(Seq<char>, Option<V>)>;

    closed spec fn view(&self) -> Seq<(Seq<char>, Option<V>)> {
        self.saved@.map_values(|s: (String, Option<V>)| (s.0@, s.1))
    }
}

/// The changes that undo what was saved, the last first.
pub open spec fn restoring<V>(saved: Seq<(Seq<char>, Option<V>)>) -> Seq<ChangeView<V>> {
    saved.map_values(|s: (Seq<char>, Option<V>)| undoing(s)).reverse()
}

impl<V> EnvGuard<V> {
    /// A guard that has saved nothing.
    pub fn new() -> (r: Self)
        ensures
            r@ == Seq::<(Seq<char>, Option<V>)>::empty(),
    {
        let r = EnvGuard { saved: Vec::new() };
        assert(r@ =~= Seq::<(Seq<char>, Option<V>)>::empty());
        r
    }

    /// Saves the value of a variable that is about to be overridden.
    pub fn save(&mut self, key: &str, prior: Option<V>)
        ensures
            final(self)@ == old(self)@.push((key@, prior)),
    {
        let ghost before = self@;
        self.saved.push((key.to_string(), prior));
        assert(self@ =~= before.push((key@, prior)));
    }

    /// The changes that bring the environment back to what it was.
    pub fn restore(self) -> (r: Vec<EnvChange<V>>)
        ensures
            r@.map_values(|c: EnvChange<V>| c@) == restoring(self@),
    {
        let ghost all = self@;
        let mut left = self.saved;
        let mut out: Vec<EnvChange<V>> = Vec::new();
        let ghost n = all.len() as int;
        assert(left@.map_values(|s: (String, Option<V>)| (s.0@, s.1)) =~= all.take(n));
        while left.len() > 0
            invariant
                n == all.len(),
                out@.len() + left@.len() == n,
                left@.map_values(|s: (String, Option<V>)| (s.0@, s.1)) == all.take(
                    left@.len() as int,
                ),
                out@.map_values(|c: EnvChange<V>| c@) == restoring(all).take(out@.len() as int),
            decreases left.len(),
        {
            let ghost i = out@.len() as int;
            let ghost pairs = left@.map_values(|s: (String, Option<V>)| (s.0@, s.1));
            let ghost made = out@;
            match left.pop() {
                Some((key, prior)) => {
                    assert((key@, prior) == pairs.last());
                    assert(pairs.last() == all[n - 1 - i]);
                    assert(left@.map_values(|s: (String, Option<V>)| (s.0@, s.1)) =~= all.take(
                        n - i - 1,
                    ));
                    let change = match prior {
                        Some(v) => EnvChange::Assign(key, v),
                        None => EnvChange::Remove(key),
                    };
                    let ghost c = change@;
                    assert(c == undoing(all[n - 1 - i]));
                    assert(c == restoring(all)[i]);
                    out.push(change);
                    assert(out@.map_values(|c: EnvChange<V>| c@) =~= made.map_values(
                        |c: EnvChange<V>| c@,
                    ).push(c));
                    assert(restoring(all).take(i + 1) =~= restoring(all).take(i).push(c));
                },
                None => {
                    return out;
                },
            }
        }
        assert(restoring(all).take(n) =~= restoring(all));
        out
    }
}

/// What setting variables in order saves of an environment.
pub open spec fn saved_of<V>(env: Map<Seq<char>, V>, vars: Seq<(Seq<char>, V)>) -> Seq<
    (Seq<char>, Option<V>),
>
    decreases vars.len(),
{
    if vars.len() == 0 {
        seq![]
    } else {
        let prior = if env.contains_key(vars[0].0) {
            Some(env[vars[0].0])
        } else {
            None
        };
        seq![(vars[0].0, prior)] + saved_of(env.insert(vars[0].0, vars[0].1), vars.skip(1))
    }
}

/// An environment with variables set in order.
pub open spec fn overridden<V>(env: Map<Seq<char>, V>, vars: Seq<(Seq<char>, V)>) -> Map<
    Seq<char>,
    V,
>
    decreases vars.len(),
{
    if vars.len() == 0 {
        env
    } else {
        overridden(env.insert(vars[0].0, vars[0].1), vars.skip(1))
    }
}

proof fn lemma_changed_by_push<V>(
    env: Map<Seq<char>, V>,
    changes: Seq<ChangeView<V>>,
    last: ChangeView<V>,
)
    ensures
        changed_by(env, changes.push(last)) == changed(changed_by(env, changes), last),
    decreases changes.len(),
{
    let all = changes.push(last);
    if changes.len() == 0 {
        assert(all.skip(1) =~= Seq::<ChangeView<V>>::empty());
        assert(changed_by(changed(env, all[0]), all.skip(1)) == changed(env, last));
    } else {
        assert(all[0] == changes[0]);
        assert(all.skip(1) =~= changes.skip(1).push(last));
        lemma_changed_by_push(changed(env, changes[0]), changes.skip(1), last);
    }
}

/// Undoing brings back the environment exactly as it was before any variables were
/// set, also where one was set twice.
pub proof fn law_environment_is_restored<V>(env: Map<Seq<char>, V>, vars: Seq<(Seq<char>, V)>)
    ensures
        changed_by(overridden(env, vars), restoring(saved_of(env, vars))) == env,
    decreases vars.len(),
{
    let saved = saved_of(env, vars);
    if vars.len() == 0 {
        assert(restoring(saved) =~= Seq::<ChangeView<V>>::empty());
    } else {
        let (k, v) = vars[0];
        let inner = env.insert(k, v);
        let rest = saved_of(inner, vars.skip(1));
        law_environment_is_restored(inner, vars.skip(1));
        let first = saved[0];
        assert(saved =~= seq![first] + rest);
        assert(restoring(saved) =~= restoring(rest).push(undoing(first)));
        lemma_changed_by_push(overridden(env, vars), restoring(rest), undoing(first));
        if env.contains_key(k) {
            assert(inner.insert(k, env[k]) =~= env);
        } else {
            assert(inner.remove(k) =~= env);
        }
    }
}

// ── Runs of a pipeline ──────────────────────────────────────────────────────

/// Longest wait for a frame, for a recording to begin and for one to end, in seconds.
pub const PIPELINE_TIMEOUT_SECS: u64 = 10;

/// What can go wrong with a pipeline. Texts are those of the underlying error.
#[derive(Debug)]
pub enum PipelineFault {
    /// The task that was to run it could not be joined.
    Spawn(String),
    /// The library could not be initialised.
    Init(String),
    /// The description of the screenshot pipeline could not be parsed.
    Parse(String),
    /// What was parsed is no pipeline.
    NotAPipeline,
    /// The pipeline has no sink.
    NoSink,
    /// Its sink is of another kind.
    NotAnAppSink,
    /// The screenshot pipeline did not start.
    Start(String),
    /// No frame came in time.
    NoFrame,
    /// The frame holds no buffer.
    NoBuffer,
    /// The buffer could not be read.
    ReadBuffer(String),
    /// The description of the recording pipeline could not be parsed.
    RecordingParse(String),
    /// The recording pipeline did not start.
    RecordingStart(String),
    /// The recording pipeline started and did not get to play.
    RecordingPlay(String),
    /// The recording was stopped before.
    AlreadyStopped,
    /// The recording pipeline has no bus.
    NoBus,
    /// The recording pipeline reported an error, with details, before its end.
    Recording { error: String, details: String },
    /// The recording pipeline could not be stopped.
    RecordingStop(String),
}

/// A capture failure without an underlying one.
pub open spec fn fault(message: Seq<char>) -> ErrorView {
    ErrorView::Screenshot { message, source: None }
}

/// A capture failure with an underlying one.
pub open spec fn fault_from(operation: Seq<char>, cause: Seq<char>) -> ErrorView {
    ErrorView::Screenshot { message: error::caused(operation, cause), source: Some(cause) }
}

/// The error that a fault of a pipeline is reported as.
pub open spec fn fault_error(f: PipelineFault) -> ErrorView {
    match f {
        PipelineFault::Spawn(e) => fault_from("spawn_blocking failed"@, e@),
        PipelineFault::Init(e) => fault_from("gstreamer init failed"@, e@),
        PipelineFault::Parse(e) => fault_from("pipeline parse failed"@, e@),
        PipelineFault::NotAPipeline => fault("parsed element is not a Pipeline"@),
        PipelineFault::NoSink => fault("appsink not found in pipeline"@),
        PipelineFault::NotAnAppSink => fault("element 'sink' is not an AppSink"@),
        PipelineFault::Start(e) => fault_from("failed to start pipeline"@, e@),
        PipelineFault::NoFrame => fault("timed out waiting for PNG frame"@),
        PipelineFault::NoBuffer => fault("sample has no buffer"@),
        PipelineFault::ReadBuffer(e) => fault_from("failed to map buffer"@, e@),
        PipelineFault::RecordingParse(e) => fault_from("recording pipeline parse failed"@, e@),
        PipelineFault::RecordingStart(e) => fault_from("failed to start recording pipeline"@, e@),
        PipelineFault::RecordingPlay(e) => fault_from(
            "recording pipeline failed to reach PLAYING"@,
            e@,
        ),
        PipelineFault::AlreadyStopped => fault("recording already stopped"@),
        PipelineFault::NoBus => fault("recording pipeline has no bus"@),
        PipelineFault::Recording { error, details } => fault(
            "recording pipeline error before EOS: "@ + error@ + " ("@ + details@ + ")"@,
        ),
        PipelineFault::RecordingStop(e) => fault_from("failed to stop recording pipeline"@, e@),
    }
}

/// The error that a fault of a pipeline is reported as.
pub fn pipeline_error(f: PipelineFault) -> (r: Error)
    ensures
        r@ == fault_error(f),
{
    match f {
        PipelineFault::Spawn(e) => Error::screenshot_with("spawn_blocking failed", e.as_str()),
        PipelineFault::Init(e) => Error::screenshot_with("gstreamer init failed", e.as_str()),
        PipelineFault::Parse(e) => Error::screenshot_with("pipeline parse failed", e.as_str()),
        PipelineFault::NotAPipeline => Error::screenshot("parsed element is not a Pipeline"),
        PipelineFault::NoSink => Error::screenshot("appsink not found in pipeline"),
        PipelineFault::NotAnAppSink => Error::screenshot("element 'sink' is not an AppSink"),
        PipelineFault::Start(e) => Error::screenshot_with("failed to start pipeline", e.as_str()),
        PipelineFault::NoFrame => Error::screenshot("timed out waiting for PNG frame"),
        PipelineFault::NoBuffer => Error::screenshot("sample has no buffer"),
        PipelineFault::ReadBuffer(e) => Error::screenshot_with("failed to map buffer", e.as_str()),
        PipelineFault::RecordingParse(e) => Error::screenshot_with(
            "recording pipeline parse failed",
            e.as_str(),
        ),
        PipelineFault::RecordingStart(e) => Error::screenshot_with(
            "failed to start recording pipeline",
            e.as_str(),
        ),
        PipelineFault::RecordingPlay(e) => Error::screenshot_with(
            "recording pipeline failed to reach PLAYING",
            e.as_str(),
        ),
        PipelineFault::AlreadyStopped => Error::screenshot("recording already stopped"),
        PipelineFault::NoBus => Error::screenshot("recording pipeline has no bus"),
        PipelineFault::Recording { error, details } => {
            let mut m = "recording pipeline error before EOS: ".to_string();
            m.append(error.as_str());
            m.append(" (");
            m.append(details.as_str());
            m.append(")");
            Error::screenshot(m.as_str())
        },
        PipelineFault::RecordingStop(e) => Error::screenshot_with(
            "failed to stop recording pipeline",
            e.as_str(),
        ),
    }
}

/// A step of taking a screenshot.
#[derive(Debug, Clone, Copy, PartialEq, Eq, Structural)]
pub enum GrabStep {
    /// Take the lock.
    Lock,
    /// Initialise the library.
    Init,
    /// Point the environment at the session's socket.
    Override,
    /// Build the pipeline and find its sink.
    Build,
    /// Start the pipeline.
    Play,
    /// Wait for a frame.
    Pull,
    /// Take the pipeline down.
    TearDown,
    /// Read the frame's bytes.
    Read,
    /// Bring the environment back.
    Restore,
    /// Release the lock.
    Unlock,
    /// Nothing is left to do.
    Finished,
}

/// A screenshot being taken. Whatever fails, a pipeline that plays is taken down, an
/// environment that was changed is brought back, and a lock that was taken is released,
/// in this order.
#[derive(Debug)]
pub struct GrabRun {
    due: GrabStep,
    failure: Option<Error>,
}

/// The mathematical value of a [`GrabRun`].
#[verifier::ext_equal]
pub struct GrabState {
    pub due: GrabStep,
    pub failure: Option<ErrorView>,
}

impl GrabState {
    pub open spec fn to(self, due: GrabStep) -> GrabState {
        GrabState { due, ..self }
    }

    /// The state after a step that goes on to `next`, or, where it failed, to `bail`.
    pub open spec fn on(self, failure: Option<ErrorView>, next: GrabStep, bail: GrabStep) -> GrabState {
        match failure {
            None => self.to(next),
            Some(e) => GrabState { due: bail, failure: Some(e) },
        }
    }

    /// The state after the due step, given the failure it met, if any. Failures of the
    /// steps that undo something are passed over.
    pub open spec fn after(self, failure: Option<ErrorView>) -> GrabState {
        match self.due {
            GrabStep::Lock => self.on(failure, GrabStep::Init, GrabStep::Finished),
            GrabStep::Init => self.on(failure, GrabStep::Override, GrabStep::Unlock),
            GrabStep::Override => self.to(GrabStep::Build),
            GrabStep::Build => self.on(failure, GrabStep::Play, GrabStep::Restore),
            GrabStep::Play => self.on(failure, GrabStep::Pull, GrabStep::Restore),
            GrabStep::Pull => self.on(failure, GrabStep::TearDown, GrabStep::TearDown),
            GrabStep::TearDown => if self.failure is Some {
                self.to(GrabStep::Restore)
            } else {
                self.to(GrabStep::Read)
            },
            GrabStep::Read => self.on(failure, GrabStep::Restore, GrabStep::Restore),
            GrabStep::Restore => self.to(GrabStep::Unlock),
            GrabStep::Unlock => self.to(GrabStep::Finished),
            GrabStep::Finished => self,
        }
    }
}

impl View for GrabRun {
    type V = GrabState;

    closed spec fn view(&self) -> GrabState {
        GrabState { due: self.due, failure: error::optional_error(self.failure) }
    }
}

/// The state in which a screenshot begins.
pub open spec fn grab_begun() -> GrabState {
    GrabState { due: GrabStep::Lock, failure: None }
}

impl GrabRun {
    /// Begins to take a screenshot.
    pub fn begin() -> (r: Self)
        ensures
            r@ == grab_begun(),
    {
        GrabRun { due: GrabStep::Lock, failure: None }
    }

    /// The step that is due.
    pub fn next(&self) -> (r: GrabStep)
        ensures
            r == self@.due,
    {
        self.due
    }

    fn step(&mut self, failed: Option<Error>, next: GrabStep, bail: GrabStep)
        ensures
            final(self)@ == old(self)@.on(error::optional_error(failed), next, bail),
    {
        match failed {
            None => {
                self.due = next;
            },
            Some(e) => {
                self.due = bail;
                self.failure = Some(e);
            },
        }
    }

    /// Takes in what became of the due step.
    pub fn report(&mut self, result: Result<(), Error>)
        ensures
            final(self)@ == old(self)@.after(
                match result {
                    Ok(_) => None,
                    Err(e) => Some(e@),
                },
            ),
    {
        let failed = match result {
            Ok(_) => None,
            Err(e) => Some(e),
        };
        match self.due {
            GrabStep::Lock => self.step(failed, GrabStep::Init, GrabStep::Finished),
            GrabStep::Init => self.step(failed, GrabStep::Override, GrabStep::Unlock),
            GrabStep::Override => {
                self.due = GrabStep::Build;
            },
            GrabStep::Build => self.step(failed, GrabStep::Play, GrabStep::Restore),
            GrabStep::Play => self.step(failed, GrabStep::Pull, GrabStep::Restore),
            GrabStep::Pull => self.step(failed, GrabStep::TearDown, GrabStep::TearDown),
            GrabStep::TearDown => {
                self.due = if self.failure.is_some() {
                    GrabStep::Restore
                } else {
                    GrabStep::Read
                };
            },
            GrabStep::Read => self.step(failed, GrabStep::Restore, GrabStep::Restore),
            GrabStep::Restore => {
                self.due = GrabStep::Unlock;
            },
            GrabStep::Unlock => {
                self.due = GrabStep::Finished;
            },
            GrabStep::Finished => {},
        }
    }

    /// The outcome of a screenshot that is finished.
    pub fn finish(self) -> (r: Result<(), Error>)
        requires
            self@.due == GrabStep::Finished,
        ensures
            match self@.failure {
                Some(e) => r matches Err(f) && f@ == e,
                None => r is Ok,
            },
    {
        match self.failure {
            Some(e) => Err(e),
            None => Ok(()),
        }
    }
}

/// The state after a whole series of steps, given the failure each met.
pub open spec fn grab_after(s: GrabState, outcomes: Seq<Option<ErrorView>>) -> GrabState
    decreases outcomes.len(),
{
    if outcomes.len() == 0 {
        s
    } else {
        grab_after(s.after(outcomes[0]), outcomes.skip(1))
    }
}

/// How often a series took `step` with success, or, with `tried`, at all.
pub open spec fn times(
    s: GrabState,
    outcomes: Seq<Option<ErrorView>>,
    step: GrabStep,
    tried: bool,
) -> nat
    decreases outcomes.len(),
{
    if outcomes.len() == 0 {
        0
    } else {
        (if s.due == step && (tried || outcomes[0] is None) {
            1nat
        } else {
            0
        }) + times(s.after(outcomes[0]), outcomes.skip(1), step, tried)
    }
}

spec fn holds_lock(due: GrabStep) -> nat {
    if due is Lock || due is Finished {
        0
    } else {
        1
    }
}

spec fn holds_env(due: GrabStep) -> nat {
    if due is Lock || due is Init || due is Override || due is Unlock || due is Finished {
        0
    } else {
        1
    }
}

spec fn holds_pipeline(due: GrabStep) -> nat {
    if due is Pull || due is TearDown {
        1
    } else {
        0
    }
}

proof fn lemma_grab_balance(s: GrabState, outcomes: Seq<Option<ErrorView>>)
    requires
        grab_after(s, outcomes).due == GrabStep::Finished,
    ensures
        times(s, outcomes, GrabStep::Unlock, true) == times(s, outcomes, GrabStep::Lock, false)
            + holds_lock(s.due),
        times(s, outcomes, GrabStep::Restore, true) == times(s, outcomes, GrabStep::Override, true)
            + holds_env(s.due),
        times(s, outcomes, GrabStep::TearDown, true) == times(s, outcomes, GrabStep::Play, false)
            + holds_pipeline(s.due),
    decreases outcomes.len(),
{
    if outcomes.len() > 0 {
        lemma_grab_balance(s.after(outcomes[0]), outcomes.skip(1));
    }
}

/// Whatever fails, a screenshot that is finished has released the lock if it took it,
/// has brought the environment back if it changed it, and has taken down the pipeline
/// if it played.
pub proof fn law_screenshot_cleans_up(outcomes: Seq<Option<ErrorView>>)
    requires
        grab_after(grab_begun(), outcomes).due == GrabStep::Finished,
    ensures
        ({
            let s = grab_begun();
            &&& times(s, outcomes, GrabStep::Unlock, true) == times(
                s,
                outcomes,
                GrabStep::Lock,
                false,
            )
            &&& times(s, outcomes, GrabStep::Restore, true) == times(
                s,
                outcomes,
                GrabStep::Override,
                true,
            )
            &&& times(s, outcomes, GrabStep::TearDown, true) == times(
                s,
                outcomes,
                GrabStep::Play,
                false,
            )
        }),
{
    lemma_grab_balance(grab_begun(), outcomes);
}

/// What the bus of a recording pipeline reported after it was told to end.
#[derive(Debug)]
pub enum RecordingEnd {
    /// It ended, and its file is complete.
    Ended,
    /// It failed, with details.
    Failed { error: String, details: String },
    /// Nothing came in time: the file may be cut short, and the pipeline is stopped.
    Silent,
}

/// How stopping a recording ends.
pub open spec fn recording_outcome(end: RecordingEnd, torn_down: Result<(), String>) -> Result<
    (),
    ErrorView,
> {
    match end {
        RecordingEnd::Failed { error, details } => Err(
            fault_error(PipelineFault::Recording { error, details }),
        ),
        _ => match torn_down {
            Ok(_) => Ok(()),
            Err(e) => Err(fault_error(PipelineFault::RecordingStop(e))),
        },
    }
}

/// What stopping a recording comes to, given what its bus reported and what became of
/// taking the pipeline down: an error on the bus counts more.
pub fn recording_stopped(end: RecordingEnd, torn_down: Result<(), String>) -> (r: Result<
    (),
    Error,
>)
    ensures
        error::outcome(r) == (match end {
            RecordingEnd::Failed { error, details } => Err(
                fault_error(PipelineFault::Recording { error, details }),
            ),
            _ => match torn_down {
                Ok(_) => Ok(()),
                Err(e) => Err(fault_error(PipelineFault::RecordingStop(e))),
            },
        }),
        error::outcome(r) == recording_outcome(end, torn_down),
{
    match end {
        RecordingEnd::Failed { error, details } => Err(
            pipeline_error(PipelineFault::Recording { error, details }),
        ),
        _ => match torn_down {
            Ok(_) => Ok(()),
            Err(e) => Err(pipeline_error(PipelineFault::RecordingStop(e))),
        },
    }
}

// ── Laws ────────────────────────────────────────────────────────────────────

/// A screenshot is taken of the stream that is asked for, as PNG.
pub proof fn law_screenshot_is_of_its_stream(node_id: u32, other: u32)
    ensures
        text::occurs(
            png_pipeline(node_id),
            "pipewiresrc path="@ + text::decimal_int(node_id as int) + " "@,
        ),
        text::occurs(png_pipeline(node_id), " ! pngenc snapshot=true ! appsink name=sink"@),
        png_pipeline(node_id) == png_pipeline(other) ==> node_id == other,
{
    let n = text::decimal(node_id as nat);
    let a = "pipewiresrc path="@;
    let b =
        " always-copy=true do-timestamp=true num-buffers=5 ! videoconvert ! pngenc snapshot=true ! appsink name=sink"@;
    reveal_strlit(" ");
    reveal_strlit(
        " always-copy=true do-timestamp=true num-buffers=5 ! videoconvert ! pngenc snapshot=true ! appsink name=sink",
    );
    reveal_strlit(" ! pngenc snapshot=true ! appsink name=sink");
    let c = " ! pngenc snapshot=true ! appsink name=sink"@;
    let p = png_pipeline(node_id);
    let none = Seq::<char>::empty();
    assert(b.take(1) =~= " "@);
    assert(p =~= (none + (a + n + " "@)) + b.skip(1));
    text::law_occurs_between(p, a + n + " "@);
    let k = b.len() - c.len();
    assert(b.skip(k) =~= c);
    assert(p =~= ((a + n + b.take(k)) + c) + none);
    text::law_occurs_between(p, c);
    if png_pipeline(node_id) == png_pipeline(other) {
        let m = text::decimal(other as nat);
        assert(p.subrange(a.len() as int, p.len() - b.len()) =~= n);
        assert(png_pipeline(other).subrange(a.len() as int, png_pipeline(other).len() - b.len())
            =~= m);
        text::law_numerals_differ(node_id as int, other as int);
    }
}

proof fn lemma_holds(t: Seq<char>, front: Seq<char>, part: Seq<char>, back: Seq<char>)
    requires
        t =~= (front + part) + back,
    ensures
        text::occurs(t, part),
{
    text::law_occurs_between(t, part);
}

/// A recording is of the stream that is asked for, at the bitrate and the frame rate that
/// are asked for, with a keyframe every two seconds, and goes to the file that is asked for.
pub proof fn law_recording_is_as_asked(
    node_id: u32,
    output_path: Seq<char>,
    bitrate: u32,
    fps: u32,
)
    requires
        fps * 2 <= u32::MAX,
    ensures
        ({
            let p = recording_pipeline(node_id, output_path, bitrate, fps);
            &&& text::occurs(p, "pipewiresrc path="@ + text::decimal_int(node_id as int))
            &&& text::occurs(p, "framerate="@ + text::decimal_int(fps as int) + "/1"@)
            &&& text::occurs(p, "target-bitrate="@ + text::decimal_int(bitrate as int))
            &&& text::occurs(p, "keyframe-max-dist="@ + text::decimal_int(2 * fps))
            &&& p.len() >= output_path.len()
            &&& p.skip(p.len() - output_path.len()) == output_path
            &&& text::occurs(p, "filesink location="@ + output_path)
        }),
{
    let p = recording_pipeline(node_id, output_path, bitrate, fps);
    let (n, f, r, d) = (
        text::decimal(node_id as nat),
        text::decimal(fps as nat),
        text::decimal(bitrate as nat),
        text::decimal((fps * 2) as nat),
    );
    let s0 = "pipewiresrc path="@;
    let s1 =
        " always-copy=true do-timestamp=true ! videoconvert ! videorate ! video/x-raw,framerate="@;
    let s2 = "/1 ! vp8enc deadline=1 cpu-used=4 target-bitrate="@;
    let s3 = " min-quantizer=4 max-quantizer=30 keyframe-max-dist="@;
    let s4 = " ! webmmux ! filesink location="@;
    reveal_strlit(
        " always-copy=true do-timestamp=true ! videoconvert ! videorate ! video/x-raw,framerate=",
    );
    reveal_strlit("/1 ! vp8enc deadline=1 cpu-used=4 target-bitrate=");
    reveal_strlit(" min-quantizer=4 max-quantizer=30 keyframe-max-dist=");
    reveal_strlit(" ! webmmux ! filesink location=");
    reveal_strlit("framerate=");
    reveal_strlit("/1");
    reveal_strlit("target-bitrate=");
    reveal_strlit("keyframe-max-dist=");
    reveal_strlit("filesink location=");
    let k1 = s1.len() - "framerate="@.len();
    let k2 = s2.len() - "target-bitrate="@.len();
    let k3 = s3.len() - "keyframe-max-dist="@.len();
    let k4 = s4.len() - "filesink location="@.len();
    assert(s1.skip(k1) =~= "framerate="@);
    assert(s2.skip(k2) =~= "target-bitrate="@);
    assert(s3.skip(k3) =~= "keyframe-max-dist="@);
    assert(s4.skip(k4) =~= "filesink location="@);
    assert(s2.take(2) =~= "/1"@);
    lemma_recording_parts(n, f, r, d, output_path, s0, s1, s2, s3, s4, k1, k2, k3, k4);
    assert(text::decimal_int(2 * fps) == d);
}

proof fn lemma_recording_parts(
    n: Seq<char>,
    f: Seq<char>,
    r: Seq<char>,
    d: Seq<char>,
    o: Seq<char>,
    s0: Seq<char>,
    s1: Seq<char>,
    s2: Seq<char>,
    s3: Seq<char>,
    s4: Seq<char>,
    k1: int,
    k2: int,
    k3: int,
    k4: int,
)
    requires
        0 <= k1 <= s1.len(),
        2 <= k2 <= s2.len(),
        0 <= k3 <= s3.len(),
        0 <= k4 <= s4.len(),
    ensures
        ({
            let p = s0 + n + s1 + f + s2 + r + s3 + d + s4 + o;
            &&& text::occurs(p, s0 + n)
            &&& text::occurs(p, s1.skip(k1) + f + s2.take(2))
            &&& text::occurs(p, s2.skip(k2) + r)
            &&& text::occurs(p, s3.skip(k3) + d)
            &&& text::occurs(p, s4.skip(k4) + o)
            &&& p.len() >= o.len()
            &&& p.skip(p.len() - o.len()) == o
        }),
{
    let p = s0 + n + s1 + f + s2 + r + s3 + d + s4 + o;
    let none = Seq::<char>::empty();
    let h1 = s0 + n;
    let h2 = h1 + s1 + f;
    let h3 = h2 + s2 + r;
    let h4 = h3 + s3 + d;
    let b4 = s4 + o;
    let b3 = (s3 + d) + b4;
    let b2 = (s2 + r) + b3;
    let b1 = (s1 + f) + b2;
    lemma_behind(h4, s4, o);
    lemma_behind(h3, s3, d);
    lemma_behind(h3, s3 + d, b4);
    lemma_behind(h2, s2, r);
    lemma_behind(h2, s2 + r, b3);
    lemma_behind(h1, s1, f);
    lemma_behind(h1, s1 + f, b2);
    assert(p == h4 + b4 && p == h3 + b3 && p == h2 + b2 && p == h1 + b1);
    lemma_behind(none, h1, b1);
    assert(none + (h1 + b1) =~= h1 + b1);
    lemma_holds(p, none, h1, b1);
    lemma_behind(s2, r, b3);
    lemma_marked(h1, s1, k1, f, s2, 2, r + b3);
    lemma_marked(h2, s2, k2, r, none, 0, b3);
    assert(none + b3 =~= b3);
    lemma_marked(h3, s3, k3, d, none, 0, b4);
    assert(none + b4 =~= b4);
    lemma_marked(h4, s4, k4, o, none, 0, none);
    assert(none + none =~= none);
    assert((s4 + o) + none =~= b4);
    assert(none.take(0) =~= none);
    assert(s2.skip(k2) + r + none =~= s2.skip(k2) + r);
    assert(s3.skip(k3) + d + none =~= s3.skip(k3) + d);
    assert(s4.skip(k4) + o + none =~= s4.skip(k4) + o);
    assert(p == (h4 + s4) + o);
    lemma_end(h4 + s4, o);
}

proof fn lemma_end(a: Seq<char>, b: Seq<char>)
    ensures
        (a + b).skip((a + b).len() - b.len()) == b,
{
    assert((a + b).skip((a + b).len() - b.len()) =~= b);
}

proof fn lemma_behind(a: Seq<char>, b: Seq<char>, c: Seq<char>)
    ensures
        (a + b) + c == a + (b + c),
{
    assert((a + b) + c =~= a + (b + c));
}

proof fn lemma_marked(
    h: Seq<char>,
    s: Seq<char>,
    k: int,
    x: Seq<char>,
    t: Seq<char>,
    j: int,
    rest: Seq<char>,
)
    requires
        0 <= k <= s.len(),
        0 <= j <= t.len(),
    ensures
        text::occurs(h + ((s + x) + (t + rest)), s.skip(k) + x + t.take(j)),
{
    let whole = h + ((s + x) + (t + rest));
    let part = s.skip(k) + x + t.take(j);
    lemma_holds(whole, h + s.take(k), part, t.skip(j) + rest);
}

/// White space anywhere in a path is noticed, and nothing else is taken for it.
pub proof fn law_blanks_are_noticed(a: Seq<char>, c: char, b: Seq<char>)
    ensures
        has_blanks(a.push(c) + b) <==> has_blanks(a) || text::white_space(c) || has_blanks(b),
        !has_blanks(Seq::empty()),
        has_blanks(seq![' ']),
{
    let s = a.push(c) + b;
    if has_blanks(a) {
        let i = choose|i: int| 0 <= i < a.len() && text::white_space(#[trigger] a[i]);
        assert(s[i] == a[i]);
    }
    if text::white_space(c) {
        assert(s[a.len() as int] == c);
    }
    if has_blanks(b) {
        let i = choose|i: int| 0 <= i < b.len() && text::white_space(#[trigger] b[i]);
        assert(s[a.len() + 1 + i] == b[i]);
    }
    if has_blanks(s) {
        let i = choose|i: int| 0 <= i < s.len() && text::white_space(#[trigger] s[i]);
        if i < a.len() {
            assert(a[i] == s[i]);
        } else if i > a.len() {
            assert(b[i - a.len() - 1] == s[i]);
        }
    }
    assert(seq![' '][0] == ' ');
}

/// A number that was written in four bytes, the most significant first, is read back.
pub proof fn law_number_reads_back(n: u32, bytes: Seq<u8>, at: int)
    requires
        bytes[at] == n / 0x100_0000,
        bytes[at + 1] == (n / 0x1_0000) % 0x100,
        bytes[at + 2] == (n / 0x100) % 0x100,
        bytes[at + 3] == n % 0x100,
    ensures
        number_at(bytes, at) == n,
{
}

/// An image is taken for PNG by the eight bytes it begins with and the name of the chunk
/// behind them.
pub proof fn law_png_is_known_by_its_header(bytes: Seq<u8>)
    ensures
        begins_as_png(bytes) <==> bytes.len() >= 24 && bytes[0] == 0x89 && bytes[1] == 'P' as u8
            && bytes[2] == 'N' as u8 && bytes[3] == 'G' as u8 && bytes[4] == 13 && bytes[5] == 10
            && bytes[6] == 26 && bytes[7] == 10 && bytes[12] == 'I' as u8 && bytes[13] == 'H' as u8
            && bytes[14] == 'D' as u8 && bytes[15] == 'R' as u8,
{
    let sig = seq![0x89u8, 0x50, 0x4e, 0x47, 0x0d, 0x0a, 0x1a, 0x0a];
    let chunk = seq![0x49u8, 0x48, 0x44, 0x52];
    if bytes.len() >= 24 {
        let (t, c) = (bytes.take(8), bytes.subrange(12, 16));
        if begins_as_png(bytes) {
            assert(t[0] == sig[0] && t[1] == sig[1] && t[2] == sig[2] && t[3] == sig[3] && t[4]
                == sig[4] && t[5] == sig[5] && t[6] == sig[6] && t[7] == sig[7]);
            assert(c[0] == chunk[0] && c[1] == chunk[1] && c[2] == chunk[2] && c[3] == chunk[3]);
        }
        if bytes[0] == 0x89 && bytes[1] == 'P' as u8 && bytes[2] == 'N' as u8 && bytes[3]
            == 'G' as u8 && bytes[4] == 13 && bytes[5] == 10 && bytes[6] == 26 && bytes[7] == 10
            && bytes[12] == 'I' as u8 && bytes[13] == 'H' as u8 && bytes[14] == 'D' as u8
            && bytes[15] == 'R' as u8 {
            assert(t =~= sig);
            assert(c =~= chunk);
        }
    }
}

/// The directory of a socket is its parent, and a socket without one is refused by its path.
pub proof fn law_socket_lies_in_its_parent(path: Seq<char>, dir: Seq<char>)
    ensures
        socket_dir(path, Some(dir)) == Ok::<Seq<char>, ErrorView>(dir),
        socket_dir(path, None) matches Err(ErrorView::Screenshot { message, source: None })
            && text::occurs(message, path),
{
    let none = Seq::<char>::empty();
    lemma_holds(
        "pipewire socket path has no parent: "@ + path,
        "pipewire socket path has no parent: "@,
        path,
        none,
    );
}

/// A fault with an underlying error is reported with that error's text, at the end of the
/// message and as the source; one without is reported without.
pub proof fn law_fault_tells_its_cause(f: PipelineFault)
    ensures
        ({
            let cause = match f {
                PipelineFault::Spawn(e) => Some(e@),
                PipelineFault::Init(e) => Some(e@),
                PipelineFault::Parse(e) => Some(e@),
                PipelineFault::Start(e) => Some(e@),
                PipelineFault::ReadBuffer(e) => Some(e@),
                PipelineFault::RecordingParse(e) => Some(e@),
                PipelineFault::RecordingStart(e) => Some(e@),
                PipelineFault::RecordingPlay(e) => Some(e@),
                PipelineFault::RecordingStop(e) => Some(e@),
                _ => None,
            };
            &&& fault_error(f) matches ErrorView::Screenshot { message, source } && {
                &&& source == cause
                &&& cause matches Some(c) ==> message.len() > c.len() && message.skip(
                    message.len() - c.len(),
                ) == c
                &&& f matches PipelineFault::Recording { error, details } ==> text::occurs(
                    message,
                    error@,
                ) && text::occurs(message, details@)
            }
        }),
{
    let m = fault_error(f)->Screenshot_message;
    match f {
        PipelineFault::Recording { error, details } => {
            let a = "recording pipeline error before EOS: "@;
            let (b, c) = (" ("@, ")"@);
            lemma_holds(m, a, error@, b + details@ + c);
            lemma_holds(m, a + error@ + b, details@, c);
        },
        PipelineFault::Spawn(e) => error::law_cause_is_told("spawn_blocking failed"@, e@),
        PipelineFault::Init(e) => error::law_cause_is_told("gstreamer init failed"@, e@),
        PipelineFault::Parse(e) => error::law_cause_is_told("pipeline parse failed"@, e@),
        PipelineFault::Start(e) => error::law_cause_is_told("failed to start pipeline"@, e@),
        PipelineFault::ReadBuffer(e) => error::law_cause_is_told("failed to map buffer"@, e@),
        PipelineFault::RecordingParse(e) => error::law_cause_is_told(
            "recording pipeline parse failed"@,
            e@,
        ),
        PipelineFault::RecordingStart(e) => error::law_cause_is_told(
            "failed to start recording pipeline"@,
            e@,
        ),
        PipelineFault::RecordingPlay(e) => error::law_cause_is_told(
            "recording pipeline failed to reach PLAYING"@,
            e@,
        ),
        PipelineFault::RecordingStop(e) => error::law_cause_is_told(
            "failed to stop recording pipeline"@,
            e@,
        ),
        _ => {},
    }
}

/// A screenshot that meets no failure takes the lock, points the environment at the session,
/// builds and starts the pipeline, waits for a frame and takes the pipeline down before it
/// reads the frame; then the environment and the lock are given back.
pub proof fn law_screenshot_order(s: GrabState)
    requires
        s.failure is None,
    ensures
        grab_begun().due == GrabStep::Lock,
        grab_begun().failure is None,
        s.after(None).failure is None,
        s.after(None).due == (match s.due {
            GrabStep::Lock => GrabStep::Init,
            GrabStep::Init => GrabStep::Override,
            GrabStep::Override => GrabStep::Build,
            GrabStep::Build => GrabStep::Play,
            GrabStep::Play => GrabStep::Pull,
            GrabStep::Pull => GrabStep::TearDown,
            GrabStep::TearDown => GrabStep::Read,
            GrabStep::Read => GrabStep::Restore,
            GrabStep::Restore => GrabStep::Unlock,
            GrabStep::Unlock => GrabStep::Finished,
            GrabStep::Finished => GrabStep::Finished,
        }),
{
}

/// A step of a screenshot that fails is what it fails with, and only what was done before is
/// undone; a step that undoes something, or points the environment, cannot fail it.
pub proof fn law_failed_step_of_a_screenshot(s: GrabState, e: ErrorView)
    requires
        s.failure is None,
    ensures
        ({
            let failed = s.after(Some(e));
            match s.due {
                GrabStep::Lock => failed.failure == Some(e) && failed.due == GrabStep::Finished,
                GrabStep::Init => failed.failure == Some(e) && failed.due == GrabStep::Unlock,
                GrabStep::Build => failed.failure == Some(e) && failed.due == GrabStep::Restore,
                GrabStep::Play => failed.failure == Some(e) && failed.due == GrabStep::Restore,
                GrabStep::Pull => failed.failure == Some(e) && failed.due == GrabStep::TearDown
                    && failed.after(None).due == GrabStep::Restore && failed.after(None).failure
                    == Some(e),
                GrabStep::Read => failed.failure == Some(e) && failed.due == GrabStep::Restore,
                _ => failed == s.after(None),
            }
        }),
{
}

/// The value of a change of the environment is of the change's own kind, with its variable and
/// its value.
pub proof fn law_change_is_told_by_its_parts<V>(c: EnvChange<V>)
    ensures
        match c {
            EnvChange::Assign(k, v) => c@ == ChangeView::Assign(k@, v),
            EnvChange::Remove(k) => c@ == ChangeView::<V>::Remove(k@),
        },
{
}

/// A capture goes on exactly where it has the lock. Where another one holds it, it tries again
/// until the time is up, and the error then tells the time; a lock whose holder died is given
/// up at once, with the cause.
pub proof fn law_lock_is_waited_for(expired: bool, secs: u64, cause: String)
    ensures
        lock_step(LockAttempt::Taken, expired, secs) == Ok::<Option<u64>, ErrorView>(None),
        lock_step(LockAttempt::Busy, false, secs) == Ok::<Option<u64>, ErrorView>(Some(25)),
        lock_step(LockAttempt::Busy, true, secs) == Err::<Option<u64>, ErrorView>(
            ErrorView::Timeout(
                "capture subsystem busy or wedged: GRAB_PNG_LOCK not acquired within "@
                    + text::decimal(secs as nat)
                    + "s (a prior screenshot/recording on a non-responsive session is likely stuck connecting to PipeWire)"@,
            ),
        ),
        lock_step(LockAttempt::Poisoned(cause), expired, secs) == Err::<Option<u64>, ErrorView>(
            ErrorView::Screenshot { message: "grab_png lock poisoned: "@ + cause@, source: None },
        ),
        lock_action(LockAction::Proceed) == Ok::<Option<u64>, ErrorView>(None),
        lock_action(LockAction::Retry(secs)) == Ok::<Option<u64>, ErrorView>(Some(secs)),
{
}

/// A recording stops well exactly where its bus reported no error and the pipeline could be
/// taken down; an error on the bus counts more than one of taking it down.
pub proof fn law_recording_stops_well(
    end: RecordingEnd,
    torn_down: Result<(), String>,
    failure: String,
)
    ensures
        recording_outcome(end, torn_down) is Ok <==> !(end is Failed) && torn_down is Ok,
        end matches RecordingEnd::Failed { error, details } ==> recording_outcome(end, torn_down)
            == recording_outcome(end, Ok(())),
        end matches RecordingEnd::Failed { error, details } ==> recording_outcome(end, torn_down)
            == Err::<(), ErrorView>(fault_error(PipelineFault::Recording { error, details })),
        !(end is Failed) ==> recording_outcome(end, Err(failure)) == Err::<(), ErrorView>(
            fault_error(PipelineFault::RecordingStop(failure)),
        ),
{
}

/// The limits of captures: recordings of two million bits and fifteen frames per second where
/// nothing else is configured, a wait of twenty seconds for the lock, tried every 25
/// milliseconds, and of ten seconds for the pipeline.
pub proof fn law_capture_limits()
    ensures
        DEFAULT_VIDEO_BITRATE == 2_000_000,
        DEFAULT_VIDEO_FPS == 15,
        CAPTURE_LOCK_TIMEOUT_SECS == 20,
        LOCK_RETRY_MS == 25,
        PIPELINE_TIMEOUT_SECS == 10,
{
}

/// Each fault of a pipeline has its own message, with the underlying failure behind it where
/// there is one.
pub proof fn law_faults_are_told_apart(e: String, details: String)
    ensures
        ({
            let behind = ": "@ + e@;
            let told = |f: PipelineFault, operation: Seq<char>|
                fault_error(f) == (ErrorView::Screenshot {
                    message: operation + behind,
                    source: Some(e@),
                });
            let alone = |f: PipelineFault, message: Seq<char>|
                fault_error(f) == (ErrorView::Screenshot { message, source: None });
            &&& told(PipelineFault::Spawn(e), "spawn_blocking failed"@)
            &&& told(PipelineFault::Init(e), "gstreamer init failed"@)
            &&& told(PipelineFault::Parse(e), "pipeline parse failed"@)
            &&& alone(PipelineFault::NotAPipeline, "parsed element is not a Pipeline"@)
            &&& alone(PipelineFault::NoSink, "appsink not found in pipeline"@)
            &&& alone(PipelineFault::NotAnAppSink, "element 'sink' is not an AppSink"@)
            &&& told(PipelineFault::Start(e), "failed to start pipeline"@)
            &&& alone(PipelineFault::NoFrame, "timed out waiting for PNG frame"@)
            &&& alone(PipelineFault::NoBuffer, "sample has no buffer"@)
            &&& told(PipelineFault::ReadBuffer(e), "failed to map buffer"@)
            &&& told(PipelineFault::RecordingParse(e), "recording pipeline parse failed"@)
            &&& told(PipelineFault::RecordingStart(e), "failed to start recording pipeline"@)
            &&& told(PipelineFault::RecordingPlay(e), "recording pipeline failed to reach PLAYING"@)
            &&& alone(PipelineFault::AlreadyStopped, "recording already stopped"@)
            &&& alone(PipelineFault::NoBus, "recording pipeline has no bus"@)
            &&& alone(
                PipelineFault::Recording { error: e, details },
                "recording pipeline error before EOS: "@ + e@ + " ("@ + details@ + ")"@,
            )
            &&& told(PipelineFault::RecordingStop(e), "failed to stop recording pipeline"@)
        }),
{
    lemma_behind_operation("spawn_blocking failed"@, e@);
    lemma_behind_operation("gstreamer init failed"@, e@);
    lemma_behind_operation("pipeline parse failed"@, e@);
    lemma_behind_operation("failed to start pipeline"@, e@);
    lemma_behind_operation("failed to map buffer"@, e@);
    lemma_behind_operation("recording pipeline parse failed"@, e@);
    lemma_behind_operation("failed to start recording pipeline"@, e@);
    lemma_behind_operation("recording pipeline failed to reach PLAYING"@, e@);
    lemma_behind_operation("failed to stop recording pipeline"@, e@);
}

proof fn lemma_behind_operation(operation: Seq<char>, cause: Seq<char>)
    ensures
        error::caused(operation, cause) == operation + (": "@ + cause),
{
    assert(error::caused(operation, cause) =~= operation + (": "@ + cause));
}

/// The recording pipeline reads the stream of its node, at the frame rate and the bitrate asked
/// for and with a key frame every two seconds, into its file.
pub proof fn law_recording_pipeline(node_id: u32, output_path: Seq<char>, bitrate: u32, fps: u32)
    ensures
        recording_pipeline(node_id, output_path, bitrate, fps) == "pipewiresrc path="@
            + text::decimal_int(node_id as int)
            + " always-copy=true do-timestamp=true ! videoconvert ! videorate ! video/x-raw,framerate="@
            + text::decimal_int(fps as int) + "/1 ! vp8enc deadline=1 cpu-used=4 target-bitrate="@
            + text::decimal_int(bitrate as int)
            + " min-quantizer=4 max-quantizer=30 keyframe-max-dist="@ + text::decimal_int(2 * fps)
            + " ! webmmux ! filesink location="@ + output_path,
        png_pipeline(node_id) == "pipewiresrc path="@ + text::decimal_int(node_id as int)
            + " always-copy=true do-timestamp=true num-buffers=5 ! videoconvert ! pngenc snapshot=true ! appsink name=sink"@,
{
}

/// A socket without a parent directory is refused with its path, and any other one lies in its
/// parent.
pub proof fn law_socket_needs_a_parent(path: Seq<char>, dir: Seq<char>)
    ensures
        socket_dir(path, Some(dir)) == Ok::<Seq<char>, ErrorView>(dir),
        socket_dir(path, None) == Err::<Seq<char>, ErrorView>(
            ErrorView::Screenshot {
                message: "pipewire socket path has no parent: "@ + path,
                source: None,
            },
        ),
{
}

} // verus!
