//! Keyboard and pointer gestures.
use waydriver::input::{
    button_click, cold_start_click, double_click, fill_steps, right_click, ChordRun, DragRun,
    DragStep, FillStep, FocusWalk, KeyStep, PointerStep, TypeRun, TypeStep, WalkStep,
};
use waydriver::keysym::{char_to_keysym, key_name_to_keysym};
use waydriver::{Error, FillMode, PointerButton};

/// Presses a chord; the events that `fails` names fail.
fn press(chord: &str, fails: impl Fn(KeyStep) -> bool) -> (Vec<KeyStep>, Result<(), Error>) {
    let mut run = ChordRun::begin(chord, false).unwrap();
    let mut events = Vec::new();
    while run.next() != KeyStep::Finished {
        let step = run.next();
        events.push(step);
        run.report(if fails(step) {
            Err(Error::process("failed"))
        } else {
            Ok(())
        });
    }
    (events, run.finish())
}

const CTRL: u32 = 0xffe3;
const SHIFT: u32 = 0xffe1;

#[test]
fn press_chord_issues_modifiers_then_target_then_releases_in_reverse() {
    let a = char_to_keysym('A');
    let (got, result) = press("Ctrl+Shift+A", |_| false);
    assert!(result.is_ok());
    // Expected dispatch: ctrl down, shift down, press(A), shift up, ctrl up.
    assert_eq!(
        got,
        vec![
            KeyStep::Down(CTRL),
            KeyStep::Down(SHIFT),
            KeyStep::Press(a),
            KeyStep::Up(SHIFT),
            KeyStep::Up(CTRL),
        ]
    );
}

#[test]
fn press_chord_rejects_garbage() {
    let err = ChordRun::begin("Hyper+Nope", false).unwrap_err();
    assert!(
        matches!(err, Error::Process { ref message, .. } if message.contains("invalid chord")),
        "expected process:invalid chord, got {err:?}"
    );
    assert_eq!(err.to_string(), "process: invalid chord: \"Hyper+Nope\"");
    assert_eq!(
        ChordRun::begin("a\tb", false).unwrap_err().to_string(),
        "process: invalid chord: \"a\\tb\""
    );
}

#[test]
fn press_chord_bails_when_already_cancelled() {
    let err = ChordRun::begin("Ctrl+A", true).unwrap_err();
    assert!(
        matches!(err, Error::Cancelled),
        "expected Cancelled, got {err:?}"
    );
    // Also before the chord is even looked at.
    assert!(matches!(
        ChordRun::begin("Hyper+Nope", true).unwrap_err(),
        Error::Cancelled
    ));
}

#[test]
fn held_keys_are_released_whatever_fails() {
    let a = char_to_keysym('A');
    let (got, result) = press("Ctrl+Shift+A", |s| s == KeyStep::Press(a));
    assert!(result.is_err());
    assert_eq!(got[3..], [KeyStep::Up(SHIFT), KeyStep::Up(CTRL)]);
    let (got, result) = press("Ctrl+Shift+A", |s| s == KeyStep::Down(SHIFT));
    assert!(result.is_err());
    assert_eq!(
        got,
        vec![KeyStep::Down(CTRL), KeyStep::Down(SHIFT), KeyStep::Up(CTRL)]
    );
    let (got, result) = press("Ctrl+Shift+A", |s| matches!(s, KeyStep::Up(_)));
    assert!(result.is_ok());
    assert_eq!(got.len(), 5);
}

#[test]
fn type_text_bails_when_cancelled_mid_string() {
    let mut run = TypeRun::begin("abcdefghijklmnopqrstuvwxyz");
    let mut typed = 0;
    let err = loop {
        match run.next(typed == 3) {
            TypeStep::Press(_) => typed += 1,
            TypeStep::Fail(e) => break e,
            TypeStep::Finished => panic!("should not finish"),
        }
    };
    assert!(
        matches!(err, Error::Cancelled),
        "expected Cancelled, got {err:?}"
    );
    assert_eq!(
        typed, 3,
        "loop should bail on the iteration after cancel; typed = {typed}"
    );
}

#[test]
fn text_is_typed_to_the_end() {
    let mut run = TypeRun::begin("a€");
    assert!(matches!(run.next(false), TypeStep::Press(0x61)));
    assert!(matches!(run.next(false), TypeStep::Press(0x0100_20ac)));
    assert!(matches!(run.next(true), TypeStep::Finished));
}

#[test]
fn focus_walks_press_tab() {
    let mut walk = FocusWalk::begin(2);
    assert!(matches!(walk.next(false), WalkStep::Press(c, 60) if c == "Tab"));
    assert!(matches!(walk.next(true), WalkStep::Fail(Error::Cancelled)));
    assert!(matches!(walk.next(false), WalkStep::Press(_, 60)));
    assert!(matches!(walk.next(true), WalkStep::Settle(150)));
    assert!(matches!(FocusWalk::begin(0).next(false), WalkStep::Settle(150)));
}

#[test]
fn fields_are_selected_deleted_and_typed() {
    let delete = key_name_to_keysym("delete").unwrap();
    let shown = |mode: FillMode| -> Vec<String> {
        fill_steps(mode)
            .into_iter()
            .map(|s| match s {
                FillStep::Chord(c) => c,
                FillStep::Key(k) => {
                    assert_eq!(k, delete);
                    "delete".to_string()
                }
                FillStep::Content => "type".to_string(),
            })
            .collect()
    };
    assert_eq!(
        shown(FillMode::default()),
        vec!["Ctrl+Home", "Ctrl+Shift+End", "delete", "type"]
    );
    assert_eq!(shown(FillMode::SelectAll), vec!["Ctrl+A", "delete", "type"]);
}

#[test]
fn clicks_are_made_of_single_events() {
    let left = PointerButton::Left;
    assert_eq!(
        button_click(left),
        vec![
            PointerStep::Down(left),
            PointerStep::Pause(20),
            PointerStep::Up(left)
        ]
    );
    assert_eq!(
        cold_start_click(true, left),
        vec![
            PointerStep::Approach,
            PointerStep::MotionSettle,
            PointerStep::Move,
            PointerStep::MotionSettle,
            PointerStep::Down(left),
            PointerStep::PressSettle,
            PointerStep::Up(left),
        ]
    );
    assert_eq!(
        cold_start_click(false, left),
        vec![PointerStep::Move, PointerStep::Click(left)]
    );
    assert_eq!(
        double_click(),
        vec![
            PointerStep::Move,
            PointerStep::Click(left),
            PointerStep::Pause(40),
            PointerStep::Click(left)
        ]
    );
    assert_eq!(
        right_click(),
        vec![PointerStep::Move, PointerStep::Click(PointerButton::Right)]
    );
}

#[test]
fn buttons_have_codes() {
    for code in [0x110, 0x111, 0x112, 0x113, 0] {
        assert_eq!(PointerButton::from_evdev_code(code).evdev_code(), code);
    }
    assert_eq!(PointerButton::from_evdev_code(0x112), PointerButton::Middle);
    assert_eq!(
        PointerButton::from_evdev_code(0x114),
        PointerButton::Other(0x114)
    );
}

fn drag(fails: impl Fn(DragStep) -> bool) -> (Vec<DragStep>, Result<(), Error>) {
    let mut run = DragRun::begin();
    let mut steps = Vec::new();
    while run.next() != DragStep::Finished {
        let step = run.next();
        steps.push(step);
        run.report(if fails(step) {
            Err(Error::process(match step {
                DragStep::Up(_) => "up",
                _ => "move",
            }))
        } else {
            Ok(())
        });
    }
    (steps, run.finish())
}

#[test]
fn drags_move_in_three_steps() {
    let (steps, result) = drag(|_| false);
    assert!(result.is_ok());
    assert_eq!(
        steps,
        vec![
            DragStep::MoveToSource,
            DragStep::Down(PointerButton::Left),
            DragStep::MoveAlong(1),
            DragStep::MoveAlong(2),
            DragStep::MoveAlong(3),
            DragStep::Up(PointerButton::Left),
        ]
    );
}

#[test]
fn drags_release_the_button_whatever_fails() {
    let (steps, result) = drag(|s| s == DragStep::MoveAlong(2));
    assert!(result.is_err());
    assert_eq!(steps.last(), Some(&DragStep::Up(PointerButton::Left)));
    assert_eq!(steps.len(), 5);
    // The failure on the way counts more than that of the release.
    let (_, result) = drag(|s| matches!(s, DragStep::MoveAlong(2) | DragStep::Up(_)));
    assert_eq!(result.unwrap_err().to_string(), "process: move");
    let (_, result) = drag(|s| matches!(s, DragStep::Up(_)));
    assert_eq!(result.unwrap_err().to_string(), "process: up");
    // A button that never went down is not released.
    let (steps, _) = drag(|s| matches!(s, DragStep::Down(_)));
    assert_eq!(steps.len(), 2);
}
