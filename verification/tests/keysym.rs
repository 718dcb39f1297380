//! Key names, characters and chords.
use waydriver::keysym::{
    char_to_keysym, key_name_to_keysym, keysyms_of_text, modifier_name_to_keysym, parse_chord,
};

#[test]
fn test_named_keys() {
    assert_eq!(key_name_to_keysym("Return"), Some(0xff0d));
    assert_eq!(key_name_to_keysym("enter"), Some(0xff0d));
    assert_eq!(key_name_to_keysym("Tab"), Some(0xff09));
    assert_eq!(key_name_to_keysym("Escape"), Some(0xff1b));
    assert_eq!(key_name_to_keysym("esc"), Some(0xff1b));
    assert_eq!(key_name_to_keysym("BackSpace"), Some(0xff08));
    assert_eq!(key_name_to_keysym("Delete"), Some(0xffff));
    assert_eq!(key_name_to_keysym("Space"), Some(0x0020));
    assert_eq!(key_name_to_keysym("Up"), Some(0xff52));
    assert_eq!(key_name_to_keysym("Down"), Some(0xff54));
    assert_eq!(key_name_to_keysym("Left"), Some(0xff51));
    assert_eq!(key_name_to_keysym("Right"), Some(0xff53));
    assert_eq!(key_name_to_keysym("Home"), Some(0xff50));
    assert_eq!(key_name_to_keysym("End"), Some(0xff57));
    assert_eq!(key_name_to_keysym("Page_Up"), Some(0xff55));
    assert_eq!(key_name_to_keysym("Page_Down"), Some(0xff56));
    assert_eq!(key_name_to_keysym("F1"), Some(0xffbe));
    assert_eq!(key_name_to_keysym("F6"), Some(0xffc3));
    assert_eq!(key_name_to_keysym("F12"), Some(0xffc9));
}

#[test]
fn test_key_name_case_insensitive() {
    assert_eq!(key_name_to_keysym("RETURN"), Some(0xff0d));
    assert_eq!(key_name_to_keysym("rEtUrN"), Some(0xff0d));
    assert_eq!(key_name_to_keysym("TAB"), Some(0xff09));
    assert_eq!(key_name_to_keysym("ESCAPE"), Some(0xff1b));
}

#[test]
fn test_single_char_keys() {
    assert_eq!(key_name_to_keysym("a"), Some(char_to_keysym('a')));
    assert_eq!(key_name_to_keysym("z"), Some(char_to_keysym('z')));
    assert_eq!(key_name_to_keysym("0"), Some(char_to_keysym('0')));
    assert_eq!(key_name_to_keysym("!"), Some(char_to_keysym('!')));
}

#[test]
fn test_unknown_key_returns_none() {
    assert_eq!(key_name_to_keysym("ctrl"), None);
    assert_eq!(key_name_to_keysym("alt"), None);
    assert_eq!(key_name_to_keysym("super"), None);
    assert_eq!(key_name_to_keysym("shift"), None);
    assert_eq!(key_name_to_keysym("unknown_key"), None);
}

#[test]
fn test_char_to_keysym_printable_ascii() {
    assert_eq!(char_to_keysym('a'), 0x61);
    assert_eq!(char_to_keysym('A'), 0x41);
    assert_eq!(char_to_keysym('0'), 0x30);
    assert_eq!(char_to_keysym(' '), 0x20);
    assert_eq!(char_to_keysym('~'), 0x7e);
    // Latin-1 range
    assert_eq!(char_to_keysym('ñ'), 0xf1);
    assert_eq!(char_to_keysym('ÿ'), 0xff);
}

#[test]
fn test_char_to_keysym_unicode() {
    // '€' is U+20AC
    assert_eq!(char_to_keysym('€'), 0x01000000 + 0x20AC);
    // '中' is U+4E2D
    assert_eq!(char_to_keysym('中'), 0x01000000 + 0x4E2D);
}

#[test]
fn test_char_to_keysym_control() {
    // Control characters (< 0x20) map directly
    assert_eq!(char_to_keysym('\x00'), 0x00);
    assert_eq!(char_to_keysym('\x01'), 0x01);
    assert_eq!(char_to_keysym('\x1f'), 0x1f);
}

#[test]
fn modifier_name_to_keysym_aliases() {
    // Ctrl / Control are the same.
    assert_eq!(modifier_name_to_keysym("Ctrl"), Some(0xffe3));
    assert_eq!(modifier_name_to_keysym("control"), Some(0xffe3));
    assert_eq!(modifier_name_to_keysym("CONTROL"), Some(0xffe3));
    // Shift.
    assert_eq!(modifier_name_to_keysym("Shift"), Some(0xffe1));
    assert_eq!(modifier_name_to_keysym("shift"), Some(0xffe1));
    // Alt.
    assert_eq!(modifier_name_to_keysym("alt"), Some(0xffe9));
    // Super / Meta / Win / Cmd all resolve to Super_L on Linux.
    assert_eq!(modifier_name_to_keysym("Super"), Some(0xffeb));
    assert_eq!(modifier_name_to_keysym("Meta"), Some(0xffeb));
    assert_eq!(modifier_name_to_keysym("win"), Some(0xffeb));
    assert_eq!(modifier_name_to_keysym("Windows"), Some(0xffeb));
    assert_eq!(modifier_name_to_keysym("cmd"), Some(0xffeb));
    assert_eq!(modifier_name_to_keysym("Command"), Some(0xffeb));
}

#[test]
fn modifier_name_to_keysym_rejects_non_modifiers() {
    assert_eq!(modifier_name_to_keysym("Return"), None);
    assert_eq!(modifier_name_to_keysym("a"), None);
    assert_eq!(modifier_name_to_keysym(""), None);
}

#[test]
fn parse_chord_single_key_has_empty_modifiers() {
    let c = parse_chord("Return").unwrap();
    assert!(c.modifiers.is_empty());
    assert_eq!(c.key, 0xff0d);
}

#[test]
fn parse_chord_single_char() {
    let c = parse_chord("a").unwrap();
    assert!(c.modifiers.is_empty());
    assert_eq!(c.key, char_to_keysym('a'));
}

#[test]
fn parse_chord_basic_ctrl_a() {
    let c = parse_chord("Ctrl+A").unwrap();
    assert_eq!(c.modifiers, vec![0xffe3]);
    assert_eq!(c.key, char_to_keysym('A'));
}

#[test]
fn parse_chord_multiple_modifiers_preserve_order() {
    // Order matters — key_down is issued left-to-right, key_up right-to-left.
    let c = parse_chord("Ctrl+Shift+Alt+A").unwrap();
    assert_eq!(c.modifiers, vec![0xffe3, 0xffe1, 0xffe9]);
    assert_eq!(c.key, char_to_keysym('A'));
}

#[test]
fn parse_chord_dash_separator_works() {
    let c = parse_chord("Ctrl-Shift-A").unwrap();
    assert_eq!(c.modifiers, vec![0xffe3, 0xffe1]);
    assert_eq!(c.key, char_to_keysym('A'));
}

#[test]
fn parse_chord_mixed_separators() {
    let c = parse_chord("Ctrl+Shift-A").unwrap();
    assert_eq!(c.modifiers, vec![0xffe3, 0xffe1]);
    assert_eq!(c.key, char_to_keysym('A'));
}

#[test]
fn parse_chord_is_case_insensitive() {
    let c = parse_chord("CTRL+shift+A").unwrap();
    assert_eq!(c.modifiers, vec![0xffe3, 0xffe1]);
}

#[test]
fn parse_chord_named_key_target() {
    // Target can be a named key, not just a character.
    let c = parse_chord("Alt+Return").unwrap();
    assert_eq!(c.modifiers, vec![0xffe9]);
    assert_eq!(c.key, 0xff0d);
}

#[test]
fn parse_chord_bare_modifier_is_single_key() {
    // "Ctrl" with no target is just a Ctrl keypress — no modifiers held,
    // target is Control_L.
    let c = parse_chord("Ctrl").unwrap();
    assert!(c.modifiers.is_empty());
    assert_eq!(c.key, 0xffe3);
}

#[test]
fn parse_chord_empty_returns_none() {
    assert_eq!(parse_chord(""), None);
    assert_eq!(parse_chord("   "), None);
    // "-+-" is 3 chars, not single-char, and splits into empty tokens.
    assert_eq!(parse_chord("-+-"), None);
}

#[test]
fn parse_chord_separator_char_is_a_literal_key() {
    // A single `+` or `-` is the arithmetic key itself, not a dangling
    // chord separator. Essential for calculator-style keyboard input.
    let plus = parse_chord("+").unwrap();
    assert!(plus.modifiers.is_empty());
    assert_eq!(plus.key, char_to_keysym('+'));
    let minus = parse_chord("-").unwrap();
    assert_eq!(minus.key, char_to_keysym('-'));
}

#[test]
fn parse_chord_unknown_modifier_returns_none() {
    assert_eq!(parse_chord("Hyper+A"), None);
}

#[test]
fn parse_chord_unknown_target_returns_none() {
    assert_eq!(parse_chord("Ctrl+NoSuchKey"), None);
}

#[test]
fn parse_chord_non_modifier_in_middle_rejected() {
    // "Ctrl+A+B" — "A" isn't a modifier, so position-wise it can't be
    // held while pressing B. Parser rejects.
    assert_eq!(parse_chord("Ctrl+A+B"), None);
}

#[test]
fn parse_chord_whitespace_is_trimmed() {
    let c = parse_chord("  Ctrl +  A  ").unwrap();
    assert_eq!(c.modifiers, vec![0xffe3]);
    assert_eq!(c.key, char_to_keysym('A'));
}

#[test]
fn single_characters_beyond_ascii_are_keys() {
    assert_eq!(key_name_to_keysym("ñ"), Some(0xf1));
    assert_eq!(key_name_to_keysym("€"), Some(0x0100_20ac));
    assert_eq!(key_name_to_keysym("ññ"), None);
    assert_eq!(key_name_to_keysym(""), None);
}

#[test]
fn upper_case_beyond_ascii_is_no_key_name() {
    assert_eq!(key_name_to_keysym("ÉSCAPE"), None);
    assert_eq!(modifier_name_to_keysym("ŠHIFT"), None);
    assert_eq!(parse_chord("Ctrl+Ñ").unwrap().key, 0xd1);
}

#[test]
fn text_is_typed_one_keysym_per_character() {
    assert_eq!(keysyms_of_text("a€"), vec![0x61, 0x0100_20ac]);
    assert!(keysyms_of_text("").is_empty());
}

#[test]
fn no_modifier_is_a_key() {
    for name in ["Ctrl", "CONTROL", "shift", "Alt", "Super", "meta", "win", "Windows", "cmd"] {
        assert!(modifier_name_to_keysym(name).is_some());
        assert_eq!(key_name_to_keysym(name), None);
    }
    assert_eq!(modifier_name_to_keysym("c"), None);
}
