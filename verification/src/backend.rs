//! Vocabulary shared with compositor, input and capture backends.
use crate::error::{Error, ErrorView};
use vstd::prelude::*;
use vstd::string::*;

verus! {

/// Direction of a discrete pointer-wheel scroll. Backends translate it into their
/// transport's own encoding.
#[derive(Debug, Clone, Copy, PartialEq, Eq, Structural)]
pub enum PointerAxis {
    /// Up and down.
    Vertical,
    /// Left and right.
    Horizontal,
}

/// Pointer button: one of the three of a standard mouse, or any other by its Linux
/// evdev `BTN_*` code.
#[derive(Debug, Clone, Copy, PartialEq, Eq, Structural)]
pub enum PointerButton {
    /// Primary button (`BTN_LEFT`).
    Left,
    /// Wheel-press button (`BTN_MIDDLE`).
    Middle,
    /// Secondary button (`BTN_RIGHT`).
    Right,
    /// Any other button.
    Other(u32),
}

impl PointerButton {
    /// The evdev code of the button.
    pub open spec fn code(self) -> u32 {
        match self {
            PointerButton::Left => 0x110u32,
            PointerButton::Middle => 0x112u32,
            PointerButton::Right => 0x111u32,
            PointerButton::Other(code) => code,
        }
    }

    /// The button with the given evdev code.
    pub open spec fn of_code(code: u32) -> PointerButton {
        if code == 0x110 {
            PointerButton::Left
        } else if code == 0x112 {
            PointerButton::Middle
        } else if code == 0x111 {
            PointerButton::Right
        } else {
            PointerButton::Other(code)
        }
    }

    /// The Linux evdev `BTN_*` code for this button.
    pub fn evdev_code(self) -> (r: u32)
        ensures
            r == self.code(),
    {
        match self {
            PointerButton::Left => 0x110,
            PointerButton::Middle => 0x112,
            PointerButton::Right => 0x111,
            PointerButton::Other(code) => code,
        }
    }

    /// The button for a Linux evdev `BTN_*` code, the three standard ones under
    /// their names.
    pub fn from_evdev_code(code: u32) -> (r: Self)
        ensures
            r == PointerButton::of_code(code),
    {
        if code == 0x110 {
            PointerButton::Left
        } else if code == 0x112 {
            PointerButton::Middle
        } else if code == 0x111 {
            PointerButton::Right
        } else {
            PointerButton::Other(code)
        }
    }
}

/// The error of recovering a stream token as a type other than the stored one.
pub fn stream_token_mismatch(expected: &str, stored: &str) -> (r: Error)
    ensures
        r@ == (ErrorView::Screenshot {
            message: "stream token type mismatch: expected "@ + expected@ + ", found "@ + stored@,
            source: None,
        }),
{
    let mut m = "stream token type mismatch: expected ".to_string();
    m.append(expected);
    m.append(", found ");
    m.append(stored);
    Error::screenshot(m.as_str())
}

/// A code survives the way to a button and back.
pub proof fn law_code_reads_back(code: u32)
    ensures
        PointerButton::of_code(code).code() == code,
{
}

/// A button survives the way to its code and back, unless it names the code of one
/// of the three standard buttons as another one's.
pub proof fn law_button_reads_back(button: PointerButton)
    requires
        button matches PointerButton::Other(code) ==> !(0x110 <= code <= 0x112),
    ensures
        PointerButton::of_code(button.code()) == button,
{
}

/// The three standard buttons have the codes that Linux gives them, and any other button the
/// code it is named by.
pub proof fn law_button_codes(code: u32)
    ensures
        PointerButton::Left.code() == 0x110,
        PointerButton::Right.code() == 0x111,
        PointerButton::Middle.code() == 0x112,
        PointerButton::Other(code).code() == code,
        PointerButton::of_code(0x110) == PointerButton::Left,
        PointerButton::of_code(0x111) == PointerButton::Right,
        PointerButton::of_code(0x112) == PointerButton::Middle,
        code < 0x110 || code > 0x112 ==> PointerButton::of_code(code) == PointerButton::Other(code),
{
}

} // verus!
