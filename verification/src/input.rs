//! Keyboard and pointer gestures, as sequences of single events.
//!
//! Each gesture is a small machine: it names the next event, and takes in what
//! became of it.
use crate::backend::PointerButton;
use crate::error::{self, Error, ErrorView};
use crate::keysym::{self, keysyms_of_text, parse_chord, Chord};
use crate::text::{self, debug_quoted};
use vstd::prelude::*;
use vstd::string::*;

verus! {

// ── Chords ──────────────────────────────────────────────────────────────────

/// One keyboard event of a chord.
#[derive(Debug, Clone, Copy, PartialEq, Eq, Structural)]
pub enum KeyStep {
    /// Press a key and hold it.
    Down(u32),
    /// Press and release a key.
    Press(u32),
    /// Release a held key.
    Up(u32),
    /// Nothing is left to do.
    Finished,
}

/// A chord being pressed: its modifiers are held in order, the target is pressed,
/// and whatever is held is released in reverse order, also after a failure.
#[derive(Debug)]
pub struct ChordRun {
    chord: Chord,
    held: usize,
    releasing: bool,
    failure: Option<Error>,
}

/// The mathematical value of a [`ChordRun`].
#[verifier::ext_equal]
pub struct ChordState {
    pub modifiers: Seq<u32>,
    pub key: u32,
    /// How many modifiers are down.
    pub held: nat,
    pub releasing: bool,
    /// The failure that the run ends with.
    pub failure: Option<ErrorView>,
}

impl ChordState {
    /// Whether no more modifiers are held than there are.
    pub open spec fn valid(self) -> bool {
        self.held <= self.modifiers.len()
    }

    /// The event that is due.
    pub open spec fn due(self) -> KeyStep {
        if !self.releasing {
            if self.held < self.modifiers.len() {
                KeyStep::Down(self.modifiers[self.held as int])
            } else {
                KeyStep::Press(self.key)
            }
        } else if self.held > 0 {
            KeyStep::Up(self.modifiers[self.held - 1])
        } else {
            KeyStep::Finished
        }
    }

    /// The state after the due event, given the failure it met, if any.
    pub open spec fn after(self, failure: Option<ErrorView>) -> ChordState {
        match self.due() {
            KeyStep::Down(_) => match failure {
                None => ChordState { held: self.held + 1, ..self },
                Some(e) => ChordState { releasing: true, failure: Some(e), ..self },
            },
            KeyStep::Press(_) => ChordState { releasing: true, failure, ..self },
            KeyStep::Up(_) => ChordState { held: (self.held - 1) as nat, ..self },
            KeyStep::Finished => self,
        }
    }
}

/// The state in which a chord begins.
pub open spec fn chord_begun(chord: keysym::ChordView) -> ChordState {
    ChordState {
        modifiers: chord.modifiers,
        key: chord.key,
        held: 0,
        releasing: false,
        failure: None,
    }
}

impl View for ChordRun {
    type V = ChordState;

    closed spec fn view(&self) -> ChordState {
        ChordState {
            modifiers: self.chord.modifiers@,
            key: self.chord.key,
            held: self.held as nat,
            releasing: self.releasing,
            failure: error::optional_error(self.failure),
        }
    }
}

/// What a request to press a chord comes to before any key is touched.
pub open spec fn chord_request(chord: Seq<char>, cancelled: bool) -> Result<
    ChordState,
    ErrorView,
> {
    if cancelled {
        Err(ErrorView::Cancelled)
    } else {
        match keysym::chord_of(chord) {
            Some(c) => Ok(chord_begun(c)),
            None => Err(
                ErrorView::Process {
                    message: "invalid chord: "@ + text::quoted(chord),
                    source: None,
                },
            ),
        }
    }
}

impl ChordRun {
    /// Begins to press a chord such as `"Ctrl+Shift+A"`. A session that is already
    /// cancelled presses nothing.
    pub fn begin(chord: &str, cancelled: bool) -> (r: Result<Self, Error>)
        ensures
            (match r {
                Ok(run) => Ok(run@),
                Err(e) => Err(e@),
            }) == chord_request(chord@, cancelled),
            r matches Ok(run) ==> run@.valid(),
    {
        if cancelled {
            return Err(Error::Cancelled);
        }
        match parse_chord(chord) {
            Some(chord) => Ok(ChordRun { chord, held: 0, releasing: false, failure: None }),
            None => {
                let mut m = "invalid chord: ".to_string();
                m.append(debug_quoted(chord).as_str());
                Err(Error::process(m.as_str()))
            },
        }
    }

    /// The event that is due.
    pub fn next(&self) -> (r: KeyStep)
        requires
            self@.valid(),
        ensures
            r == self@.due(),
    {
        if !self.releasing {
            if self.held < self.chord.modifiers.len() {
                KeyStep::Down(self.chord.modifiers[self.held])
            } else {
                KeyStep::Press(self.chord.key)
            }
        } else if self.held > 0 {
            KeyStep::Up(self.chord.modifiers[self.held - 1])
        } else {
            KeyStep::Finished
        }
    }

    /// Takes in what became of the due event. A release that fails is passed over.
    pub fn report(&mut self, result: Result<(), Error>)
        requires
            old(self)@.valid(),
        ensures
            final(self)@.valid(),
            final(self)@ == old(self)@.after(
                match result {
                    Ok(_) => None,
                    Err(e) => Some(e@),
                },
            ),
    {
        if self.releasing {
            if self.held > 0 {
                self.held = self.held - 1;
            }
        } else if self.held < self.chord.modifiers.len() {
            match result {
                Ok(_) => {
                    self.held = self.held + 1;
                },
                Err(e) => {
                    self.failure = Some(e);
                    self.releasing = true;
                },
            }
        } else {
            self.releasing = true;
            self.failure = match result {
                Ok(_) => None,
                Err(e) => Some(e),
            };
        }
    }

    /// The outcome of a run that is finished.
    pub fn finish(self) -> (r: Result<(), Error>)
        requires
            self@.due() == KeyStep::Finished,
        ensures
            match self@.failure {
                Some(e) => r matches Err(f) && f@ == e,
                None => r is Ok,
            },
    {
        match self.failure {
            Some(e) => Err(e),
            None => Ok(()),
        }
    }
}

/// The state after a whole series of events, given the failure each met.
pub open spec fn chord_after(s: ChordState, outcomes: Seq<Option<ErrorView>>) -> ChordState
    decreases outcomes.len(),
{
    if outcomes.len() == 0 {
        s
    } else {
        chord_after(s.after(outcomes[0]), outcomes.skip(1))
    }
}

/// The events of a series.
pub open spec fn chord_events(s: ChordState, outcomes: Seq<Option<ErrorView>>) -> Seq<KeyStep>
    decreases outcomes.len(),
{
    if outcomes.len() == 0 {
        seq![]
    } else {
        seq![s.due()] + chord_events(s.after(outcomes[0]), outcomes.skip(1))
    }
}

/// The keys that a series put down, in order.
pub open spec fn put_down(s: ChordState, outcomes: Seq<Option<ErrorView>>) -> Seq<u32>
    decreases outcomes.len(),
{
    if outcomes.len() == 0 {
        seq![]
    } else {
        (match s.due() {
            KeyStep::Down(k) if outcomes[0] is None => seq![k],
            _ => seq![],
        }) + put_down(s.after(outcomes[0]), outcomes.skip(1))
    }
}

/// The keys that a series released, in order.
pub open spec fn released(s: ChordState, outcomes: Seq<Option<ErrorView>>) -> Seq<u32>
    decreases outcomes.len(),
{
    if outcomes.len() == 0 {
        seq![]
    } else {
        (match s.due() {
            KeyStep::Up(k) => seq![k],
            _ => seq![],
        }) + released(s.after(outcomes[0]), outcomes.skip(1))
    }
}

proof fn lemma_releases(s: ChordState, outcomes: Seq<Option<ErrorView>>)
    requires
        s.valid(),
        s.releasing,
        chord_after(s, outcomes).due() == KeyStep::Finished,
    ensures
        put_down(s, outcomes) == Seq::<u32>::empty(),
        released(s, outcomes) == s.modifiers.take(s.held as int).reverse(),
        chord_after(s, outcomes).failure == s.failure,
    decreases outcomes.len(),
{
    if outcomes.len() == 0 {
        assert(s.modifiers.take(0).reverse() =~= Seq::<u32>::empty());
    } else {
        let t = s.after(outcomes[0]);
        lemma_releases(t, outcomes.skip(1));
        if s.held > 0 {
            let k = s.modifiers[s.held - 1];
            assert(seq![k] + s.modifiers.take(s.held - 1).reverse() =~= s.modifiers.take(
                s.held as int,
            ).reverse());
        } else {
            assert(Seq::<u32>::empty() + released(t, outcomes.skip(1)) =~= released(
                t,
                outcomes.skip(1),
            ));
        }
        assert(put_down(s, outcomes) =~= Seq::<u32>::empty());
    }
}

proof fn lemma_holds(s: ChordState, outcomes: Seq<Option<ErrorView>>)
    requires
        s.valid(),
        !s.releasing,
        chord_after(s, outcomes).due() == KeyStep::Finished,
    ensures
        released(s, outcomes) == (s.modifiers.take(s.held as int) + put_down(
            s,
            outcomes,
        )).reverse(),
    decreases outcomes.len(),
{
    assert(outcomes.len() > 0);
    let rest = outcomes.skip(1);
    let t = s.after(outcomes[0]);
    assert(released(s, outcomes) =~= released(t, rest));
    if t.releasing {
        lemma_releases(t, rest);
        assert(put_down(s, outcomes) =~= Seq::<u32>::empty());
        assert(s.modifiers.take(s.held as int) + put_down(s, outcomes) =~= s.modifiers.take(
            s.held as int,
        ));
    } else {
        lemma_holds(t, rest);
        let k = s.modifiers[s.held as int];
        assert(s.modifiers.take((s.held + 1) as int) + put_down(t, rest) =~= s.modifiers.take(
            s.held as int,
        ) + (seq![k] + put_down(t, rest)));
    }
}

/// Whatever fails, a chord that is finished has released every key it put down, in
/// reverse order, and nothing else.
pub proof fn law_chord_releases_what_it_held(
    chord: keysym::ChordView,
    outcomes: Seq<Option<ErrorView>>,
)
    requires
        chord_after(chord_begun(chord), outcomes).due() == KeyStep::Finished,
    ensures
        released(chord_begun(chord), outcomes) == put_down(chord_begun(chord), outcomes).reverse(),
{
    let s = chord_begun(chord);
    lemma_holds(s, outcomes);
    assert(s.modifiers.take(0) + put_down(s, outcomes) =~= put_down(s, outcomes));
}

/// The events of a chord that meets no failure.
pub open spec fn chord_trace(chord: keysym::ChordView) -> Seq<KeyStep> {
    chord.modifiers.map_values(|k: u32| KeyStep::Down(k)) + seq![KeyStep::Press(chord.key)]
        + chord.modifiers.reverse().map_values(|k: u32| KeyStep::Up(k))
}

/// `n` events without a failure.
pub open spec fn untroubled(n: nat) -> Seq<Option<ErrorView>> {
    Seq::new(n, |i: int| None)
}

proof fn lemma_up_trace(s: ChordState)
    requires
        s.valid(),
        s.releasing,
    ensures
        chord_events(s, untroubled(s.held)) == s.modifiers.take(
            s.held as int,
        ).reverse().map_values(|k: u32| KeyStep::Up(k)),
        chord_after(s, untroubled(s.held)).due() == KeyStep::Finished,
        chord_after(s, untroubled(s.held)).failure == s.failure,
    decreases s.held,
{
    let up = |k: u32| KeyStep::Up(k);
    let want = s.modifiers.take(s.held as int).reverse().map_values(up);
    if s.held > 0 {
        let t = s.after(None);
        lemma_up_trace(t);
        assert(untroubled(s.held).skip(1) =~= untroubled((s.held - 1) as nat));
        assert(want =~= seq![s.due()] + s.modifiers.take(s.held - 1).reverse().map_values(up));
    } else {
        assert(want =~= Seq::<KeyStep>::empty());
    }
}

proof fn lemma_down_trace(s: ChordState)
    requires
        s.valid(),
        !s.releasing,
        s.failure is None,
    ensures
        ({
            let n = (s.modifiers.len() - s.held) as nat;
            let all = untroubled(n + 1 + s.modifiers.len());
            &&& chord_events(s, all) == s.modifiers.skip(s.held as int).map_values(
                |k: u32| KeyStep::Down(k),
            ) + seq![KeyStep::Press(s.key)] + s.modifiers.reverse().map_values(
                |k: u32| KeyStep::Up(k),
            )
            &&& chord_after(s, all).due() == KeyStep::Finished
            &&& chord_after(s, all).failure is None
        }),
    decreases s.modifiers.len() - s.held,
{
    let n = (s.modifiers.len() - s.held) as nat;
    let all = untroubled(n + 1 + s.modifiers.len());
    let down = |k: u32| KeyStep::Down(k);
    let up = |k: u32| KeyStep::Up(k);
    let t = s.after(None);
    let rest = untroubled((n + s.modifiers.len()) as nat);
    assert(all.skip(1) =~= rest);
    assert(all[0] is None);
    let ups = s.modifiers.reverse().map_values(up);
    if n == 0 {
        lemma_up_trace(t);
        assert(s.modifiers.take(s.modifiers.len() as int) =~= s.modifiers);
        assert(s.modifiers.skip(s.held as int).map_values(down) =~= Seq::<KeyStep>::empty());
        assert(Seq::<KeyStep>::empty() + seq![KeyStep::Press(s.key)] + ups =~= seq![s.due()] + ups);
    } else {
        lemma_down_trace(t);
        let k = s.modifiers[s.held as int];
        assert(s.modifiers.skip(s.held as int).map_values(down) =~= seq![KeyStep::Down(k)]
            + s.modifiers.skip((s.held + 1) as int).map_values(down));
        assert(s.modifiers.skip(s.held as int).map_values(down) + seq![KeyStep::Press(s.key)]
            + ups =~= seq![s.due()] + (s.modifiers.skip((s.held + 1) as int).map_values(down)
            + seq![KeyStep::Press(s.key)] + ups));
    }
}

/// A chord that meets no failure holds its modifiers in order, presses the target and
/// releases the modifiers in reverse order.
pub proof fn law_chord_order(chord: keysym::ChordView)
    ensures
        ({
            let all = untroubled(2 * chord.modifiers.len() + 1);
            &&& chord_events(chord_begun(chord), all) == chord_trace(chord)
            &&& chord_after(chord_begun(chord), all).due() == KeyStep::Finished
            &&& chord_after(chord_begun(chord), all).failure is None
        }),
{
    lemma_down_trace(chord_begun(chord));
    assert(chord.modifiers.skip(0) =~= chord.modifiers);
}

// ── Typing ──────────────────────────────────────────────────────────────────

/// What a typist does next.
#[derive(Debug)]
pub enum TypeStep {
    /// Press and release a key.
    Press(u32),
    /// Nothing is left to type.
    Finished,
    /// Stop with an error.
    Fail(Error),
}

/// Text being typed, one keysym for each character.
#[derive(Debug)]
pub struct TypeRun {
    keys: Vec<u32>,
    at: usize,
}

impl TypeRun {
    /// The keysyms that are left to press.
    pub closed spec fn rest(self) -> Seq<u32> {
        self.keys@.skip(self.at as int)
    }

    #[verifier::type_invariant]
    spec fn placed(self) -> bool {
        self.at <= self.keys.len()
    }

    /// Begins to type `text`.
    pub fn begin(text: &str) -> (r: Self)
        ensures
            r.rest() == keysym::text_keysyms(text@),
    {
        let keys = keysyms_of_text(text);
        assert(keys@.skip(0) =~= keys@);
        TypeRun { keys, at: 0 }
    }

    /// What to do next. A session that is cancelled types no further character, but
    /// text that is all typed is done.
    pub fn next(&mut self, cancelled: bool) -> (r: TypeStep)
        ensures
            if old(self).rest().len() == 0 {
                &&& r is Finished
                &&& *final(self) == *old(self)
            } else if cancelled {
                &&& r matches TypeStep::Fail(e) && e@ == ErrorView::Cancelled
                &&& *final(self) == *old(self)
            } else {
                &&& r == TypeStep::Press(old(self).rest()[0])
                &&& final(self).rest() == old(self).rest().skip(1)
            },
    {
        proof {
            use_type_invariant(&*self);
        }
        if self.at == self.keys.len() {
            return TypeStep::Finished;
        }
        if cancelled {
            return TypeStep::Fail(Error::Cancelled);
        }
        let key: u32 = self.keys[self.at];
        assert(self.keys@.skip(self.at as int).skip(1) =~= self.keys@.skip(self.at + 1));
        self.at = self.at + 1;
        TypeStep::Press(key)
    }
}

// ── Focus walks ─────────────────────────────────────────────────────────────

/// Pause after each Tab of a focus walk.
pub const TAB_SETTLE_MS: u64 = 60;

/// Pause at the end of a focus walk.
pub const WALK_SETTLE_MS: u64 = 150;

/// What a focus walk does next.
#[derive(Debug)]
pub enum WalkStep {
    /// Press this chord, then pause for so many milliseconds.
    Press(String, u64),
    /// Pause for so many milliseconds: the walk is over.
    Settle(u64),
    /// Stop with an error.
    Fail(Error),
}

/// A walk of the keyboard focus through the application.
#[derive(Debug)]
pub struct FocusWalk {
    left: u32,
}

impl FocusWalk {
    /// How many Tabs are left to press.
    pub closed spec fn tabs(self) -> nat {
        self.left as nat
    }

    /// Begins a walk of so many Tabs.
    pub fn begin(steps: u32) -> (r: Self)
        ensures
            r.tabs() == steps,
    {
        FocusWalk { left: steps }
    }

    /// What to do next. A session that is cancelled presses no further Tab, but a walk
    /// that has pressed them all comes to its end.
    pub fn next(&mut self, cancelled: bool) -> (r: WalkStep)
        ensures
            if old(self).tabs() == 0 {
                &&& r == WalkStep::Settle(WALK_SETTLE_MS)
                &&& *final(self) == *old(self)
            } else if cancelled {
                &&& r matches WalkStep::Fail(e) && e@ == ErrorView::Cancelled
                &&& *final(self) == *old(self)
            } else {
                &&& r matches WalkStep::Press(chord, pause) && chord@ == "Tab"@ && pause
                    == TAB_SETTLE_MS
                &&& final(self).tabs() == old(self).tabs() - 1
            },
    {
        if self.left == 0 {
            return WalkStep::Settle(WALK_SETTLE_MS);
        }
        if cancelled {
            return WalkStep::Fail(Error::Cancelled);
        }
        self.left = self.left - 1;
        WalkStep::Press("Tab".to_string(), TAB_SETTLE_MS)
    }
}

// ── Filling text fields ─────────────────────────────────────────────────────

/// How existing content is selected before a field is filled.
#[derive(Debug, Clone, Copy, PartialEq, Eq, Structural)]
pub enum FillMode {
    /// `Ctrl+Home`, then `Ctrl+Shift+End`: by caret navigation.
    CaretNav,
    /// `Ctrl+A`: one chord, where the field honours it.
    SelectAll,
}

impl Default for FillMode {
    fn default() -> (r: Self)
        ensures
            r == FillMode::CaretNav,
    {
        FillMode::CaretNav
    }
}

/// The keysym of the key that deletes the selection.
pub const DELETE_KEYSYM: u32 = 0xffff;

/// One step of filling a field that has the focus.
#[derive(Debug)]
pub enum FillStep {
    /// Press this chord.
    Chord(String),
    /// Press and release this key.
    Key(u32),
    /// Type the new content.
    Content,
}

/// The mathematical value of a [`FillStep`].
#[verifier::ext_equal]
pub enum FillView {
    Chord(Seq<char>),
    Key(u32),
    Content,
}

impl View for FillStep {
    type V = FillView;

    open spec fn view(&self) -> FillView {
        match *self {
            FillStep::Chord(c) => FillView::Chord(c@),
            FillStep::Key(k) => FillView::Key(k),
            FillStep::Content => FillView::Content,
        }
    }
}

/// The steps of filling a field: its content is selected, deleted and typed anew.
pub open spec fn filling(mode: FillMode) -> Seq<FillView> {
    match mode {
        FillMode::CaretNav => seq![
            FillView::Chord("Ctrl+Home"@),
            FillView::Chord("Ctrl+Shift+End"@),
            FillView::Key(DELETE_KEYSYM),
            FillView::Content,
        ],
        FillMode::SelectAll => seq![
            FillView::Chord("Ctrl+A"@),
            FillView::Key(DELETE_KEYSYM),
            FillView::Content,
        ],
    }
}

/// The steps of filling a field that has the focus.
pub fn fill_steps(mode: FillMode) -> (r: Vec<FillStep>)
    ensures
        r@.map_values(|s: FillStep| s@) == filling(mode),
{
    match mode {
        FillMode::CaretNav => {
            let v = vec![
                FillStep::Chord("Ctrl+Home".to_string()),
                FillStep::Chord("Ctrl+Shift+End".to_string()),
                FillStep::Key(DELETE_KEYSYM),
                FillStep::Content,
            ];
            assert(v@.map_values(|s: FillStep| s@) =~= filling(mode));
            v
        },
        FillMode::SelectAll => {
            let v = vec![
                FillStep::Chord("Ctrl+A".to_string()),
                FillStep::Key(DELETE_KEYSYM),
                FillStep::Content,
            ];
            assert(v@.map_values(|s: FillStep| s@) =~= filling(mode));
            v
        },
    }
}

/// The key that a fill deletes with is the one named `delete`.
pub proof fn law_delete_is_named()
    ensures
        keysym::key_keysym("delete"@) == Some(DELETE_KEYSYM),
{
    reveal_strlit("delete");
    reveal_strlit("return");
    reveal_strlit("enter");
    reveal_strlit("tab");
    reveal_strlit("escape");
    reveal_strlit("esc");
    reveal_strlit("backspace");
    let d = "delete"@;
    assert(d[0] == 'd');
    assert("return"@[0] == 'r');
    assert("enter"@[0] == 'e');
    assert("tab"@[0] == 't');
    assert("escape"@[0] == 'e');
    assert("esc"@[0] == 'e');
    assert("backspace"@[0] == 'b');
    assert(text::all_ascii(d));
    assert(text::lowercase(d) =~= d);
}

// ── Pointer gestures ────────────────────────────────────────────────────────

/// Pause between the press and the release of a click.
pub const CLICK_GAP_MS: u64 = 20;

/// Pause between the two clicks of a double click.
pub const DOUBLE_CLICK_GAP_MS: u64 = 40;

/// Moves of a drag between its two ends, the last of them onto the target.
pub const DRAG_INTERMEDIATE_STEPS: u32 = 3;

/// One event of a pointer gesture.
#[derive(Debug, Clone, Copy, PartialEq, Eq, Structural)]
pub enum PointerStep {
    /// Move to a point just off the target.
    Approach,
    /// Move onto the target.
    Move,
    /// Press and release a button.
    Click(PointerButton),
    /// Press a button and hold it.
    Down(PointerButton),
    /// Release a held button.
    Up(PointerButton),
    /// Pause until a motion has taken effect.
    MotionSettle,
    /// Pause until a press has taken effect.
    PressSettle,
    /// Pause for so many milliseconds.
    Pause(u64),
}

/// The steps of a click that holds the button for a moment.
pub open spec fn held_click(button: PointerButton) -> Seq<PointerStep> {
    seq![PointerStep::Down(button), PointerStep::Pause(CLICK_GAP_MS), PointerStep::Up(button)]
}

/// The steps of a double click.
pub open spec fn double_click_steps() -> Seq<PointerStep> {
    seq![
        PointerStep::Move,
        PointerStep::Click(PointerButton::Left),
        PointerStep::Pause(DOUBLE_CLICK_GAP_MS),
        PointerStep::Click(PointerButton::Left),
    ]
}

/// The steps of a click with the secondary button.
pub open spec fn right_click_steps() -> Seq<PointerStep> {
    seq![PointerStep::Move, PointerStep::Click(PointerButton::Right)]
}

/// A click: the button goes down, rests and comes up.
pub fn button_click(button: PointerButton) -> (r: Vec<PointerStep>)
    ensures
        r@ == seq![
            PointerStep::Down(button),
            PointerStep::Pause(CLICK_GAP_MS),
            PointerStep::Up(button),
        ],
        r@ == held_click(button),
{
    let v = vec![
        PointerStep::Down(button),
        PointerStep::Pause(CLICK_GAP_MS),
        PointerStep::Up(button),
    ];
    assert(v@ =~= seq![
        PointerStep::Down(button),
        PointerStep::Pause(CLICK_GAP_MS),
        PointerStep::Up(button),
    ]);
    v
}

/// The steps of a click that first wakes the pointer up, or of a plain one.
pub open spec fn cold_start_steps(warmup: bool, button: PointerButton) -> Seq<PointerStep> {
    if warmup {
        seq![
            PointerStep::Approach,
            PointerStep::MotionSettle,
            PointerStep::Move,
            PointerStep::MotionSettle,
            PointerStep::Down(button),
            PointerStep::PressSettle,
            PointerStep::Up(button),
        ]
    } else {
        seq![PointerStep::Move, PointerStep::Click(button)]
    }
}

/// A click on a surface that may not have seen the pointer yet: with `warmup`, an
/// approach binds the pointer's focus before the press.
pub fn cold_start_click(warmup: bool, button: PointerButton) -> (r: Vec<PointerStep>)
    ensures
        r@ == cold_start_steps(warmup, button),
{
    if warmup {
        let v = vec![
            PointerStep::Approach,
            PointerStep::MotionSettle,
            PointerStep::Move,
            PointerStep::MotionSettle,
            PointerStep::Down(button),
            PointerStep::PressSettle,
            PointerStep::Up(button),
        ];
        assert(v@ =~= cold_start_steps(warmup, button));
        v
    } else {
        let v = vec![PointerStep::Move, PointerStep::Click(button)];
        assert(v@ =~= cold_start_steps(warmup, button));
        v
    }
}

/// A double click with the primary button.
pub fn double_click() -> (r: Vec<PointerStep>)
    ensures
        r@ == seq![
            PointerStep::Move,
            PointerStep::Click(PointerButton::Left),
            PointerStep::Pause(DOUBLE_CLICK_GAP_MS),
            PointerStep::Click(PointerButton::Left),
        ],
        r@ == double_click_steps(),
{
    let v = vec![
        PointerStep::Move,
        PointerStep::Click(PointerButton::Left),
        PointerStep::Pause(DOUBLE_CLICK_GAP_MS),
        PointerStep::Click(PointerButton::Left),
    ];
    assert(v@ =~= seq![
        PointerStep::Move,
        PointerStep::Click(PointerButton::Left),
        PointerStep::Pause(DOUBLE_CLICK_GAP_MS),
        PointerStep::Click(PointerButton::Left),
    ]);
    v
}

/// A click with the secondary button.
pub fn right_click() -> (r: Vec<PointerStep>)
    ensures
        r@ == seq![PointerStep::Move, PointerStep::Click(PointerButton::Right)],
        r@ == right_click_steps(),
{
    let v = vec![PointerStep::Move, PointerStep::Click(PointerButton::Right)];
    assert(v@ =~= seq![PointerStep::Move, PointerStep::Click(PointerButton::Right)]);
    v
}

// ── Drags ───────────────────────────────────────────────────────────────────

/// One event of a drag.
#[derive(Debug, Clone, Copy, PartialEq, Eq, Structural)]
pub enum DragStep {
    /// Move onto the source.
    MoveToSource,
    /// Press the button and hold it.
    Down(PointerButton),
    /// Move to the point that lies so many of [`DRAG_INTERMEDIATE_STEPS`] parts of the
    /// way from the source to the target.
    MoveAlong(u32),
    /// Release the button.
    Up(PointerButton),
    /// Nothing is left to do.
    Finished,
}

/// A drag under way. Once the button is down it comes up, whatever fails between.
#[derive(Debug)]
pub struct DragRun {
    due: DragStep,
    failure: Option<Error>,
}

/// The mathematical value of a [`DragRun`].
#[verifier::ext_equal]
pub struct DragState {
    pub due: DragStep,
    pub failure: Option<ErrorView>,
}

impl DragState {
    /// Whether the moves are within their number.
    pub open spec fn valid(self) -> bool {
        &&& self.due matches DragStep::MoveAlong(i) ==> 1 <= i <= DRAG_INTERMEDIATE_STEPS
        &&& self.due != DragStep::Finished && !(self.due is Up) ==> self.failure is None
    }

    /// The state after the due event, given the failure it met, if any.
    pub open spec fn after(self, failure: Option<ErrorView>) -> DragState {
        match self.due {
            DragStep::MoveToSource => if failure is Some {
                DragState { due: DragStep::Finished, failure }
            } else {
                DragState { due: DragStep::Down(PointerButton::Left), ..self }
            },
            DragStep::Down(_) => if failure is Some {
                DragState { due: DragStep::Finished, failure }
            } else {
                DragState { due: DragStep::MoveAlong(1), ..self }
            },
            DragStep::MoveAlong(i) => if failure is Some || i >= DRAG_INTERMEDIATE_STEPS {
                DragState { due: DragStep::Up(PointerButton::Left), failure }
            } else {
                DragState { due: DragStep::MoveAlong((i + 1) as u32), ..self }
            },
            DragStep::Up(_) => DragState {
                due: DragStep::Finished,
                failure: match self.failure {
                    Some(e) => Some(e),
                    None => failure,
                },
            },
            DragStep::Finished => self,
        }
    }
}

impl View for DragRun {
    type V = DragState;

    closed spec fn view(&self) -> DragState {
        DragState { due: self.due, failure: error::optional_error(self.failure) }
    }
}

/// The state in which a drag begins.
pub open spec fn drag_begun() -> DragState {
    DragState { due: DragStep::MoveToSource, failure: None }
}

impl DragRun {
    /// Begins a drag.
    pub fn begin() -> (r: Self)
        ensures
            r@ == drag_begun(),
            r@.valid(),
    {
        DragRun { due: DragStep::MoveToSource, failure: None }
    }

    /// The event that is due.
    pub fn next(&self) -> (r: DragStep)
        ensures
            r == self@.due,
    {
        self.due
    }

    /// Takes in what became of the due event.
    pub fn report(&mut self, result: Result<(), Error>)
        requires
            old(self)@.valid(),
        ensures
            final(self)@.valid(),
            final(self)@ == old(self)@.after(
                match result {
                    Ok(_) => None,
                    Err(e) => Some(e@),
                },
            ),
    {
        let failed = match result {
            Ok(_) => None,
            Err(e) => Some(e),
        };
        match self.due {
            DragStep::MoveToSource => {
                if failed.is_some() {
                    self.due = DragStep::Finished;
                    self.failure = failed;
                } else {
                    self.due = DragStep::Down(PointerButton::Left);
                }
            },
            DragStep::Down(_) => {
                if failed.is_some() {
                    self.due = DragStep::Finished;
                    self.failure = failed;
                } else {
                    self.due = DragStep::MoveAlong(1);
                }
            },
            DragStep::MoveAlong(i) => {
                if failed.is_some() || i >= DRAG_INTERMEDIATE_STEPS {
                    self.due = DragStep::Up(PointerButton::Left);
                    self.failure = failed;
                } else {
                    self.due = DragStep::MoveAlong(i + 1);
                }
            },
            DragStep::Up(_) => {
                self.due = DragStep::Finished;
                if self.failure.is_none() {
                    self.failure = failed;
                }
            },
            DragStep::Finished => {},
        }
    }

    /// The outcome of a drag that is finished: the first failure on the way counts.
    pub fn finish(self) -> (r: Result<(), Error>)
        requires
            self@.due == DragStep::Finished,
        ensures
            match self@.failure {
                Some(e) => r matches Err(f) && f@ == e,
                None => r is Ok,
            },
    {
        match self.failure {
            Some(e) => Err(e),
            None => Ok(()),
        }
    }
}

/// The state after a whole series of events, given the failure each met.
pub open spec fn drag_after(s: DragState, outcomes: Seq<Option<ErrorView>>) -> DragState
    decreases outcomes.len(),
{
    if outcomes.len() == 0 {
        s
    } else {
        drag_after(s.after(outcomes[0]), outcomes.skip(1))
    }
}

/// How often a series released the button.
pub open spec fn drag_releases(s: DragState, outcomes: Seq<Option<ErrorView>>) -> nat
    decreases outcomes.len(),
{
    if outcomes.len() == 0 {
        0
    } else {
        (if s.due is Up {
            1nat
        } else {
            0
        }) + drag_releases(s.after(outcomes[0]), outcomes.skip(1))
    }
}

/// How often a series pressed the button with success.
pub open spec fn drag_presses(s: DragState, outcomes: Seq<Option<ErrorView>>) -> nat
    decreases outcomes.len(),
{
    if outcomes.len() == 0 {
        0
    } else {
        (if s.due is Down && outcomes[0] is None {
            1nat
        } else {
            0
        }) + drag_presses(s.after(outcomes[0]), outcomes.skip(1))
    }
}

proof fn lemma_drag_balance(s: DragState, outcomes: Seq<Option<ErrorView>>)
    requires
        drag_after(s, outcomes).due == DragStep::Finished,
    ensures
        drag_releases(s, outcomes) == drag_presses(s, outcomes) + (if s.due is MoveAlong
            || s.due is Up {
            1nat
        } else {
            0
        }),
    decreases outcomes.len(),
{
    if outcomes.len() > 0 {
        lemma_drag_balance(s.after(outcomes[0]), outcomes.skip(1));
    }
}

/// Whatever fails, a drag that is finished has released the button as often as it
/// pressed it.
pub proof fn law_drag_releases_button(outcomes: Seq<Option<ErrorView>>)
    requires
        drag_after(drag_begun(), outcomes).due == DragStep::Finished,
    ensures
        drag_releases(drag_begun(), outcomes) == drag_presses(drag_begun(), outcomes),
{
    lemma_drag_balance(drag_begun(), outcomes);
}

// ── Laws on gestures ────────────────────────────────────────────────────────

/// A chord is pressed with the modifiers and the key it names, and nothing is held yet when
/// it begins. A cancelled session and a text that is no chord touch no key at all.
pub proof fn law_chord_is_pressed_as_named(chord: Seq<char>)
    ensures
        chord_request(chord, true) == Err::<ChordState, ErrorView>(ErrorView::Cancelled),
        keysym::chord_of(chord) is None ==> chord_request(chord, false) is Err,
        keysym::chord_of(chord) matches Some(c) ==> {
            &&& chord_request(chord, false) matches Ok(s)
            &&& s.modifiers == c.modifiers
            &&& s.key == c.key
            &&& s.held == 0
            &&& !s.releasing
            &&& s.failure is None
            &&& c.modifiers.len() == 0 ==> s.due() == KeyStep::Press(c.key)
            &&& c.modifiers.len() > 0 ==> s.due() == KeyStep::Down(c.modifiers[0])
        },
{
}

/// A key of a chord that cannot be put down ends the chord with that error, once what is held
/// is released; a release that fails is passed over.
pub proof fn law_failed_key_ends_the_chord(s: ChordState, e: ErrorView)
    requires
        s.valid(),
    ensures
        ({
            let failed = s.after(Some(e));
            &&& s.due() is Down || s.due() is Press ==> {
                &&& failed.failure == Some(e)
                &&& failed.held == s.held
                &&& failed.due() == (if s.held > 0 {
                    KeyStep::Up(s.modifiers[s.held - 1])
                } else {
                    KeyStep::Finished
                })
            }
            &&& s.due() is Up ==> failed == s.after(None) && failed.failure == s.failure
                && failed.held == s.held - 1
            &&& s.due() is Press ==> s.after(None).failure is None
            &&& s.due() is Down ==> s.after(None).failure == s.failure && s.after(None).held
                == s.held + 1
        }),
{
}

/// Filling a field selects what it holds, deletes it with the key named `Delete` and types
/// the new content last: by going to the start and extending to the end, or by selecting all.
pub proof fn law_filling_replaces_the_content(mode: FillMode)
    ensures
        ({
            let steps = filling(mode);
            let n = steps.len() as int;
            &&& steps[n - 1] == FillView::Content
            &&& steps[n - 2] matches FillView::Key(k) && keysym::key_keysym("delete"@) == Some(k)
            &&& forall|i: int| 0 <= i < n - 2 ==> #[trigger] steps[i] is Chord
            &&& mode == FillMode::CaretNav ==> n == 4 && steps[0] == FillView::Chord("Ctrl+Home"@)
                && steps[1] == FillView::Chord("Ctrl+Shift+End"@)
            &&& mode == FillMode::SelectAll ==> n == 3 && steps[0] == FillView::Chord("Ctrl+A"@)
        }),
{
    law_delete_is_named();
}

/// A click touches only the button it is asked for: it moves onto the target before it
/// presses, presses once and releases behind that. With a warm-up, the pointer comes from
/// beside the target, and every motion and the press have time to take effect.
pub proof fn law_click_presses_its_button(warmup: bool, button: PointerButton)
    ensures
        ({
            let steps = cold_start_steps(warmup, button);
            let n = steps.len() as int;
            &&& forall|i: int|
                0 <= i < n ==> match #[trigger] steps[i] {
                    PointerStep::Click(b) => b == button && !warmup && i == n - 1,
                    PointerStep::Down(b) => b == button && warmup && i == n - 3,
                    PointerStep::Up(b) => b == button && warmup && i == n - 1,
                    PointerStep::Pause(_) => false,
                    PointerStep::Approach => warmup && i == 0,
                    PointerStep::PressSettle => warmup && i == n - 2,
                    PointerStep::MotionSettle => warmup && 0 < i && (steps[i - 1]
                        == PointerStep::Approach || steps[i - 1] == PointerStep::Move),
                    PointerStep::Move => if warmup {
                        i == n - 5
                    } else {
                        i == n - 2
                    },
                }
            &&& n == (if warmup {
                7int
            } else {
                2
            })
        }),
{
}

/// A drag that meets no failure moves onto the source, presses the primary button, moves to
/// the target in three parts of the way and releases the button.
pub proof fn law_drag_order()
    ensures
        ({
            let s0 = drag_begun();
            let s1 = s0.after(None);
            let s2 = s1.after(None);
            let s3 = s2.after(None);
            let s4 = s3.after(None);
            let s5 = s4.after(None);
            let s6 = s5.after(None);
            &&& s0.due == DragStep::MoveToSource
            &&& s1.due == DragStep::Down(PointerButton::Left)
            &&& s2.due == DragStep::MoveAlong(1)
            &&& s3.due == DragStep::MoveAlong(2)
            &&& s4.due == DragStep::MoveAlong(3)
            &&& s5.due == DragStep::Up(PointerButton::Left)
            &&& s6.due == DragStep::Finished
            &&& s6.failure is None
        }),
{
}

/// A drag goes part by part while it succeeds. What fails before the button is down ends it
/// at once; what fails behind that releases the button first; and the first failure counts.
pub proof fn law_failed_step_of_a_drag(s: DragState, e: ErrorView)
    requires
        s.valid(),
    ensures
        ({
            let failed = s.after(Some(e));
            let done = s.after(None);
            &&& s.due is MoveToSource || s.due is Down ==> failed.due == DragStep::Finished
                && failed.failure == Some(e)
            &&& s.due is MoveAlong ==> failed.due == DragStep::Up(PointerButton::Left)
                && failed.failure == Some(e)
            &&& s.due matches DragStep::MoveAlong(i) ==> done.failure is None && done.due == (if i
                < 3 {
                DragStep::MoveAlong((i + 1) as u32)
            } else {
                DragStep::Up(PointerButton::Left)
            })
            &&& s.due is Up ==> done.due == DragStep::Finished && failed.due == DragStep::Finished
                && done.failure == s.failure
            &&& s.due is Up && s.failure is Some ==> failed.failure == s.failure
            &&& s.due is Up && s.failure is None ==> failed.failure == Some(e)
        }),
{
}

/// The value of a step of filling a field is of the step's own kind.
pub proof fn law_fill_step_is_told_by_its_parts(s: FillStep)
    ensures
        match s {
            FillStep::Chord(c) => s@ == FillView::Chord(c@),
            FillStep::Key(k) => s@ == FillView::Key(k),
            FillStep::Content => s@ == FillView::Content,
        },
{
}

/// A held click presses its button before it releases that same button, with a pause of 20
/// milliseconds between. A double click moves onto the target first and clicks the primary
/// button twice, 40 milliseconds apart; a right click moves there and clicks the secondary one.
pub proof fn law_clicks(button: PointerButton)
    ensures
        held_click(button).len() == 3,
        held_click(button)[0] == PointerStep::Down(button),
        held_click(button)[1] == PointerStep::Pause(20),
        held_click(button)[2] == PointerStep::Up(button),
        double_click_steps().len() == 4,
        double_click_steps()[0] == PointerStep::Move,
        double_click_steps()[1] == PointerStep::Click(PointerButton::Left),
        double_click_steps()[2] == PointerStep::Pause(40),
        double_click_steps()[3] == double_click_steps()[1],
        right_click_steps().len() == 2,
        right_click_steps()[0] == PointerStep::Move,
        right_click_steps()[1] == PointerStep::Click(PointerButton::Right),
{
}

/// The pauses of input and the key that deletes: 60 milliseconds after each Tab of a walk and
/// 150 at its end, and three moves between the ends of a drag.
pub proof fn law_input_pauses()
    ensures
        TAB_SETTLE_MS == 60,
        WALK_SETTLE_MS == 150,
        DELETE_KEYSYM == 0xffff,
        CLICK_GAP_MS == 20,
        DOUBLE_CLICK_GAP_MS == 40,
        DRAG_INTERMEDIATE_STEPS == 3,
{
}

/// A chord that means nothing is refused and told, and a cancelled session presses none.
pub proof fn law_chord_is_refused(chord: Seq<char>)
    ensures
        chord_request(chord, true) == Err::<ChordState, ErrorView>(ErrorView::Cancelled),
        keysym::chord_of(chord) is None ==> chord_request(chord, false) == Err::<
            ChordState,
            ErrorView,
        >(
            ErrorView::Process {
                message: "invalid chord: "@ + text::quoted(chord),
                source: None,
            },
        ),
        keysym::chord_of(chord) is Some ==> chord_request(chord, false) is Ok,
{
}

} // verus!
