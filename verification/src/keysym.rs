//! X11 keysyms: key names, characters and chords.
use crate::text::{self, chars_of, same_text, split_at_char, text_of, to_lowercase, trim};
use vstd::prelude::*;
use vstd::string::*;

verus! {

/// A parsed keyboard chord: modifier keys to hold, and a target key to press and
/// release. The target can itself be a modifier key.
#[derive(Debug, Clone, PartialEq, Eq)]
pub struct Chord {
    /// Keysyms to hold down, in order, before pressing the target; released in
    /// reverse order afterwards.
    pub modifiers: Vec<u32>,
    /// The target keysym.
    pub key: u32,
}

/// The keysym of a modifier by its lower-case name.
pub open spec fn modifier_table(name: Seq<char>) -> Option<u32> {
    if name == "ctrl"@ || name == "control"@ {
        Some(0xffe3u32)
    } else if name == "shift"@ {
        Some(0xffe1u32)
    } else if name == "alt"@ {
        Some(0xffe9u32)
    } else if name == "super"@ || name == "meta"@ || name == "win"@ || name == "windows"@ || name
        == "cmd"@ || name == "command"@ {
        Some(0xffebu32)
    } else {
        None
    }
}

/// The keysym of a named key by its lower-case name.
pub open spec fn key_table(name: Seq<char>) -> Option<u32> {
    if name == "return"@ || name == "enter"@ {
        Some(0xff0du32)
    } else if name == "tab"@ {
        Some(0xff09u32)
    } else if name == "escape"@ || name == "esc"@ {
        Some(0xff1bu32)
    } else if name == "backspace"@ {
        Some(0xff08u32)
    } else if name == "delete"@ {
        Some(0xffffu32)
    } else if name == "space"@ {
        Some(0x0020u32)
    } else if name == "up"@ {
        Some(0xff52u32)
    } else if name == "down"@ {
        Some(0xff54u32)
    } else if name == "left"@ {
        Some(0xff51u32)
    } else if name == "right"@ {
        Some(0xff53u32)
    } else if name == "home"@ {
        Some(0xff50u32)
    } else if name == "end"@ {
        Some(0xff57u32)
    } else if name == "page_up"@ {
        Some(0xff55u32)
    } else if name == "page_down"@ {
        Some(0xff56u32)
    } else if name == "f1"@ {
        Some(0xffbeu32)
    } else if name == "f2"@ {
        Some(0xffbfu32)
    } else if name == "f3"@ {
        Some(0xffc0u32)
    } else if name == "f4"@ {
        Some(0xffc1u32)
    } else if name == "f5"@ {
        Some(0xffc2u32)
    } else if name == "f6"@ {
        Some(0xffc3u32)
    } else if name == "f7"@ {
        Some(0xffc4u32)
    } else if name == "f8"@ {
        Some(0xffc5u32)
    } else if name == "f9"@ {
        Some(0xffc6u32)
    } else if name == "f10"@ {
        Some(0xffc7u32)
    } else if name == "f11"@ {
        Some(0xffc8u32)
    } else if name == "f12"@ {
        Some(0xffc9u32)
    } else {
        None
    }
}

/// The keysym of a character: its code point up to U+00FF, else the code point
/// plus `0x01000000`.
pub open spec fn char_keysym(c: char) -> u32 {
    if c as u32 > 0xff {
        (0x01000000 + c as u32) as u32
    } else {
        c as u32
    }
}

/// The keysym of a key name whose lower-case form is `lower`.
pub open spec fn named_keysym(key: Seq<char>, lower: Seq<char>) -> Option<u32> {
    match key_table(lower) {
        Some(k) => Some(k),
        None => if key.len() == 1 {
            Some(char_keysym(key[0]))
        } else {
            None
        },
    }
}

/// The keysym of a key name.
pub open spec fn key_keysym(key: Seq<char>) -> Option<u32> {
    named_keysym(key, text::lowercase(key))
}

/// The keysym of a modifier name.
pub open spec fn modifier_keysym(name: Seq<char>) -> Option<u32> {
    modifier_table(text::lowercase(name))
}

/// Looks up a modifier by its lower-case name.
pub fn modifier_in_table(lower: &str) -> (r: Option<u32>)
    ensures
        r == modifier_table(lower@),
{
    if same_text(lower, "ctrl") || same_text(lower, "control") {
        Some(0xffe3)
    } else if same_text(lower, "shift") {
        Some(0xffe1)
    } else if same_text(lower, "alt") {
        Some(0xffe9)
    } else if same_text(lower, "super") || same_text(lower, "meta") || same_text(lower, "win")
        || same_text(lower, "windows") || same_text(lower, "cmd") || same_text(lower, "command") {
        Some(0xffeb)
    } else {
        None
    }
}

fn key_in_table(lower: &str) -> (r: Option<u32>)
    ensures
        r == key_table(lower@),
{
    if same_text(lower, "return") || same_text(lower, "enter") {
        Some(0xff0d)
    } else if same_text(lower, "tab") {
        Some(0xff09)
    } else if same_text(lower, "escape") || same_text(lower, "esc") {
        Some(0xff1b)
    } else if same_text(lower, "backspace") {
        Some(0xff08)
    } else if same_text(lower, "delete") {
        Some(0xffff)
    } else if same_text(lower, "space") {
        Some(0x0020)
    } else if same_text(lower, "up") {
        Some(0xff52)
    } else if same_text(lower, "down") {
        Some(0xff54)
    } else if same_text(lower, "left") {
        Some(0xff51)
    } else if same_text(lower, "right") {
        Some(0xff53)
    } else if same_text(lower, "home") {
        Some(0xff50)
    } else if same_text(lower, "end") {
        Some(0xff57)
    } else if same_text(lower, "page_up") {
        Some(0xff55)
    } else if same_text(lower, "page_down") {
        Some(0xff56)
    } else {
        function_key(lower)
    }
}

fn function_key(lower: &str) -> (r: Option<u32>)
    ensures
        r == (if lower@ == "f1"@ {
            Some(0xffbeu32)
        } else if lower@ == "f2"@ {
            Some(0xffbfu32)
        } else if lower@ == "f3"@ {
            Some(0xffc0u32)
        } else if lower@ == "f4"@ {
            Some(0xffc1u32)
        } else if lower@ == "f5"@ {
            Some(0xffc2u32)
        } else if lower@ == "f6"@ {
            Some(0xffc3u32)
        } else if lower@ == "f7"@ {
            Some(0xffc4u32)
        } else if lower@ == "f8"@ {
            Some(0xffc5u32)
        } else if lower@ == "f9"@ {
            Some(0xffc6u32)
        } else if lower@ == "f10"@ {
            Some(0xffc7u32)
        } else if lower@ == "f11"@ {
            Some(0xffc8u32)
        } else if lower@ == "f12"@ {
            Some(0xffc9u32)
        } else {
            None
        }),
{
    if same_text(lower, "f1") {
        Some(0xffbe)
    } else if same_text(lower, "f2") {
        Some(0xffbf)
    } else if same_text(lower, "f3") {
        Some(0xffc0)
    } else if same_text(lower, "f4") {
        Some(0xffc1)
    } else if same_text(lower, "f5") {
        Some(0xffc2)
    } else if same_text(lower, "f6") {
        Some(0xffc3)
    } else if same_text(lower, "f7") {
        Some(0xffc4)
    } else if same_text(lower, "f8") {
        Some(0xffc5)
    } else if same_text(lower, "f9") {
        Some(0xffc6)
    } else if same_text(lower, "f10") {
        Some(0xffc7)
    } else if same_text(lower, "f11") {
        Some(0xffc8)
    } else if same_text(lower, "f12") {
        Some(0xffc9)
    } else {
        None
    }
}

/// Looks up a key by its name and the name's lower-case form.
pub fn keysym_of_name(key: &str, lower: &str) -> (r: Option<u32>)
    ensures
        r == named_keysym(key@, lower@),
{
    match key_in_table(lower) {
        Some(k) => Some(k),
        None => {
            let cs = chars_of(key);
            if cs.len() == 1 {
                Some(char_to_keysym(cs[0]))
            } else {
                None
            }
        },
    }
}

/// Maps a modifier name, in any case, to the keysym of its left-hand variant.
/// `Control` is `Ctrl`; `Meta`, `Super`, `Win`, `Windows`, `Cmd` and `Command` are
/// all the Super key.
pub fn modifier_name_to_keysym(name: &str) -> (r: Option<u32>)
    ensures
        r == modifier_keysym(name@),
{
    modifier_in_table(to_lowercase(name).as_str())
}

/// Converts a key name such as `"Return"`, `"F1"` or `"a"`, in any case, to a
/// keysym. A single character stands for itself.
pub fn key_name_to_keysym(key: &str) -> (r: Option<u32>)
    ensures
        r == key_keysym(key@),
{
    keysym_of_name(key, to_lowercase(key).as_str())
}

/// Converts a character to its keysym. Latin-1 characters map to their code point,
/// characters above U+00FF to `0x01000000` plus the code point.
pub fn char_to_keysym(ch: char) -> (r: u32)
    ensures
        r == char_keysym(ch),
{
    let cp: u32 = ch as u32;
    if cp > 0xff {
        0x01000000 + cp
    } else {
        cp
    }
}

/// The keysyms of the characters of a text.
pub open spec fn text_keysyms(s: Seq<char>) -> Seq<u32> {
    s.map_values(|c: char| char_keysym(c))
}

/// The keysyms that typing `text` presses, one per character.
pub fn keysyms_of_text(text: &str) -> (r: Vec<u32>)
    ensures
        r@ == text_keysyms(text@),
        r@.len() == text@.len(),
        forall|i: int|
            0 <= i < r@.len() ==> #[trigger] r@[i] == (if text@[i] as u32 <= 0xff {
                text@[i] as u32
            } else {
                (0x0100_0000 + text@[i] as u32) as u32
            }),
{
    let cs = chars_of(text);
    let mut out: Vec<u32> = Vec::new();
    let mut i: usize = 0;
    while i < cs.len()
        invariant
            cs@ == text@,
            i <= cs.len(),
            out@ == text_keysyms(text@).take(i as int),
        decreases cs.len() - i,
    {
        out.push(char_to_keysym(cs[i]));
        assert(out@ =~= text_keysyms(text@).take(i + 1));
        i = i + 1;
    }
    assert(text_keysyms(text@).take(i as int) =~= text_keysyms(text@));
    proof {
        law_typing_presses_each_character(text@);
    }
    out
}

// ── Chords ──────────────────────────────────────────────────────────────────

/// The mathematical value of a [`Chord`].
#[verifier::ext_equal]
pub struct ChordView {
    pub modifiers: Seq<u32>,
    pub key: u32,
}

impl View for Chord {
    type V = ChordView;

    open spec fn view(&self) -> ChordView {
        ChordView { modifiers: self.modifiers@, key: self.key }
    }
}

/// The separators of a chord, brought to one.
pub open spec fn one_separator(c: char) -> char {
    if c == '-' {
        '+'
    } else {
        c
    }
}

/// The pieces that are not blank, trimmed.
pub open spec fn nonblank(p: Seq<Seq<char>>) -> Seq<Seq<char>>
    decreases p.len(),
{
    if p.len() == 0 {
        Seq::empty()
    } else {
        let front = nonblank(p.drop_last());
        let t = text::trimmed(p.last());
        if t.len() > 0 {
            front.push(t)
        } else {
            front
        }
    }
}

/// The tokens of a chord: what stands between `+` and `-` signs, without the
/// blank ones.
pub open spec fn chord_tokens(input: Seq<char>) -> Seq<Seq<char>> {
    nonblank(text::pieces(input.map_values(|c: char| one_separator(c)), '+'))
}

/// The keysyms of modifier names, where all are.
pub open spec fn modifier_keysyms(names: Seq<Seq<char>>) -> Option<Seq<u32>>
    decreases names.len(),
{
    if names.len() == 0 {
        Some(Seq::empty())
    } else {
        match (modifier_keysyms(names.drop_last()), modifier_keysym(names.last())) {
            (Some(front), Some(m)) => Some(front.push(m)),
            _ => None,
        }
    }
}

/// The chord that a text describes. One character alone is always a key, even a
/// separator; else every token but the last has to name a modifier, and the last
/// one a modifier or a key.
pub open spec fn chord_of(input: Seq<char>) -> Option<ChordView> {
    let whole = text::trimmed(input);
    if whole.len() == 1 {
        match key_keysym(whole) {
            Some(key) => Some(ChordView { modifiers: Seq::empty(), key }),
            None => None,
        }
    } else {
        let tokens = chord_tokens(input);
        if tokens.len() == 0 {
            None
        } else {
            let target = match modifier_keysym(tokens.last()) {
                Some(k) => Some(k),
                None => key_keysym(tokens.last()),
            };
            match (target, modifier_keysyms(tokens.drop_last())) {
                (Some(key), Some(modifiers)) => Some(ChordView { modifiers, key }),
                _ => None,
            }
        }
    }
}

fn tokens_of(input: &str) -> (r: Vec<String>)
    ensures
        crate::atspi::texts(r@) == chord_tokens(input@),
{
    let cs = chars_of(input);
    let ghost unified = input@.map_values(|c: char| one_separator(c));
    let mut plain: Vec<char> = Vec::new();
    let mut i: usize = 0;
    while i < cs.len()
        invariant
            cs@ == input@,
            unified == input@.map_values(|c: char| one_separator(c)),
            i <= cs.len(),
            plain@ == unified.take(i as int),
        decreases cs.len() - i,
    {
        let c = if cs[i] == '-' {
            '+'
        } else {
            cs[i]
        };
        plain.push(c);
        assert(plain@ =~= unified.take(i + 1));
        i = i + 1;
    }
    assert(plain@ =~= unified);
    let parts = split_at_char(&plain, '+');
    let ghost p = text::pieces(unified, '+');
    let mut out: Vec<String> = Vec::new();
    let mut k: usize = 0;
    assert(crate::atspi::texts(out@) =~= nonblank(p.take(0)));
    while k < parts.len()
        invariant
            p == text::pieces(unified, '+'),
            parts@.len() == p.len(),
            forall|j: int| 0 <= j < parts@.len() ==> (#[trigger] parts@[j])@ == p[j],
            k <= parts.len(),
            crate::atspi::texts(out@) == nonblank(p.take(k as int)),
        decreases parts.len() - k,
    {
        let t = trim(&parts[k]);
        proof {
            assert(p.take(k + 1).drop_last() =~= p.take(k as int));
            assert(p.take(k + 1).last() == p[k as int]);
        }
        if t.len() > 0 {
            let ghost before = out@;
            let s = text_of(&t, 0, t.len());
            assert(s@ =~= t@);
            out.push(s);
            assert(crate::atspi::texts(out@) =~= crate::atspi::texts(before).push(t@));
        }
        k = k + 1;
    }
    assert(p.take(k as int) =~= p);
    out
}

/// Parses a chord like `"Ctrl+Shift+A"` or `"Ctrl-A"`, or a bare key name like
/// `"Return"`. Empty input and unrecognized tokens give `None`.
pub fn parse_chord(input: &str) -> (r: Option<Chord>)
    ensures
        match r {
            Some(c) => chord_of(input@) == Some(c@),
            None => chord_of(input@) is None,
        },
{
    let whole = trim(&chars_of(input));
    if whole.len() == 1 {
        let s = text_of(&whole, 0, 1);
        assert(s@ =~= whole@);
        return match key_name_to_keysym(s.as_str()) {
            Some(key) => {
                let c = Chord { modifiers: Vec::new(), key };
                assert(c@ =~= ChordView { modifiers: Seq::empty(), key });
                Some(c)
            },
            None => None,
        };
    }
    let tokens = tokens_of(input);
    let ghost names = crate::atspi::texts(tokens@);
    if tokens.len() == 0 {
        return None;
    }
    let last = tokens.len() - 1;
    assert(names.last() == tokens@[last as int]@);
    let target = match modifier_name_to_keysym(tokens[last].as_str()) {
        Some(k) => Some(k),
        None => key_name_to_keysym(tokens[last].as_str()),
    };
    let key = match target {
        Some(k) => k,
        None => {
            return None;
        },
    };
    match held_modifiers(&tokens, last) {
        Some(modifiers) => {
            assert(names.take(last as int) =~= names.drop_last());
            Some(Chord { modifiers, key })
        },
        None => {
            assert(names.take(last as int) =~= names.drop_last());
            None
        },
    }
}

fn held_modifiers(tokens: &Vec<String>, n: usize) -> (r: Option<Vec<u32>>)
    requires
        n <= tokens.len(),
    ensures
        match r {
            Some(m) => modifier_keysyms(crate::atspi::texts(tokens@).take(n as int)) == Some(m@),
            None => modifier_keysyms(crate::atspi::texts(tokens@).take(n as int)) is None,
        },
{
    let ghost held = crate::atspi::texts(tokens@).take(n as int);
    let mut modifiers: Vec<u32> = Vec::new();
    let mut i: usize = 0;
    assert(held.take(0) =~= Seq::empty());
    while i < n
        invariant
            held == crate::atspi::texts(tokens@).take(n as int),
            i <= n <= tokens.len(),
            modifier_keysyms(held.take(i as int)) == Some(modifiers@),
        decreases n - i,
    {
        proof {
            assert(held.take(i + 1).drop_last() =~= held.take(i as int));
            assert(held.take(i + 1).last() == tokens@[i as int]@);
        }
        match modifier_name_to_keysym(tokens[i].as_str()) {
            Some(m) => modifiers.push(m),
            None => {
                proof {
                    lemma_one_bad_modifier(held, i as int);
                }
                return None;
            },
        }
        i = i + 1;
    }
    assert(held.take(i as int) =~= held);
    Some(modifiers)
}

proof fn lemma_one_bad_modifier(names: Seq<Seq<char>>, i: int)
    requires
        0 <= i < names.len(),
        modifier_keysym(names[i]) is None,
    ensures
        modifier_keysyms(names) is None,
    decreases names.len(),
{
    if i < names.len() - 1 {
        lemma_one_bad_modifier(names.drop_last(), i);
    }
}

// ── Laws ────────────────────────────────────────────────────────────────────

proof fn lemma_tables_are_apart(lower: Seq<char>)
    requires
        modifier_table(lower) is Some,
    ensures
        key_table(lower) is None,
        lower.len() > 2,
{
    reveal_strlit("ctrl");
    reveal_strlit("control");
    reveal_strlit("shift");
    reveal_strlit("alt");
    reveal_strlit("super");
    reveal_strlit("meta");
    reveal_strlit("win");
    reveal_strlit("windows");
    reveal_strlit("cmd");
    reveal_strlit("command");
    reveal_strlit("return");
    reveal_strlit("enter");
    reveal_strlit("tab");
    reveal_strlit("escape");
    reveal_strlit("esc");
    reveal_strlit("backspace");
    reveal_strlit("delete");
    reveal_strlit("space");
    reveal_strlit("up");
    reveal_strlit("down");
    reveal_strlit("left");
    reveal_strlit("right");
    reveal_strlit("home");
    reveal_strlit("end");
    reveal_strlit("page_up");
    reveal_strlit("page_down");
    reveal_strlit("f1");
    reveal_strlit("f2");
    reveal_strlit("f3");
    reveal_strlit("f4");
    reveal_strlit("f5");
    reveal_strlit("f6");
    reveal_strlit("f7");
    reveal_strlit("f8");
    reveal_strlit("f9");
    reveal_strlit("f10");
    reveal_strlit("f11");
    reveal_strlit("f12");
    assert("ctrl"@.len() == 4 && "ctrl"@[0] == 'c' && "ctrl"@[1] == 't');
    assert("control"@.len() == 7 && "control"@[0] == 'c' && "control"@[1] == 'o');
    assert("shift"@.len() == 5 && "shift"@[0] == 's' && "shift"@[1] == 'h');
    assert("alt"@.len() == 3 && "alt"@[0] == 'a' && "alt"@[1] == 'l');
    assert("super"@.len() == 5 && "super"@[0] == 's' && "super"@[1] == 'u');
    assert("meta"@.len() == 4 && "meta"@[0] == 'm' && "meta"@[1] == 'e');
    assert("win"@.len() == 3 && "win"@[0] == 'w' && "win"@[1] == 'i');
    assert("windows"@.len() == 7 && "windows"@[0] == 'w' && "windows"@[1] == 'i');
    assert("cmd"@.len() == 3 && "cmd"@[0] == 'c' && "cmd"@[1] == 'm');
    assert("command"@.len() == 7 && "command"@[0] == 'c' && "command"@[1] == 'o');
}

/// No name stands for both a modifier and a key. Left out is a single character beyond
/// ASCII, of which only the Unicode tables tell what its lower case is.
pub proof fn law_modifiers_are_no_keys(name: Seq<char>)
    requires
        modifier_keysym(name) is Some,
        name.len() == 1 ==> text::ascii(name[0]),
    ensures
        key_keysym(name) is None,
{
    lemma_tables_are_apart(text::lowercase(name));
    if name.len() == 1 {
        assert(text::all_ascii(name));
    }
}

/// Typing presses one key for each character, and for each the key of that very character:
/// its code point in Latin-1, and beyond it the code point in the range set aside for
/// Unicode.
pub proof fn law_typing_presses_each_character(s: Seq<char>)
    ensures
        text_keysyms(s).len() == s.len(),
        forall|i: int|
            0 <= i < s.len() ==> {
                &&& s[i] as u32 <= 0xff ==> #[trigger] text_keysyms(s)[i] == s[i] as u32
                &&& s[i] as u32 > 0xff ==> text_keysyms(s)[i] == 0x0100_0000 + s[i] as u32
            },
{
    assert forall|i: int| 0 <= i < s.len() implies {
        &&& s[i] as u32 <= 0xff ==> #[trigger] text_keysyms(s)[i] == s[i] as u32
        &&& s[i] as u32 > 0xff ==> text_keysyms(s)[i] == 0x0100_0000 + s[i] as u32
    } by {
        lemma_keysym_of(s[i]);
    }
}

proof fn lemma_keysym_of(c: char)
    ensures
        c as u32 <= 0x10ffff,
        c as u32 <= 0xff ==> char_keysym(c) == c as u32,
        c as u32 > 0xff ==> char_keysym(c) == 0x0100_0000 + c as u32,
{
}

proof fn lemma_keysyms_differ(a: char, b: char)
    requires
        char_keysym(a) == char_keysym(b),
    ensures
        a == b,
{
}

/// Different texts are typed differently.
pub proof fn law_different_texts_type_differently(a: Seq<char>, b: Seq<char>)
    requires
        text_keysyms(a) == text_keysyms(b),
    ensures
        a == b,
{
    law_typing_presses_each_character(a);
    law_typing_presses_each_character(b);
    assert forall|i: int| 0 <= i < a.len() implies a[i] == b[i] by {
        assert(text_keysyms(a)[i] == text_keysyms(b)[i]);
        assert(a.len() == b.len());
        assert(text_keysyms(a)[i] == char_keysym(a[i]));
        assert(text_keysyms(b)[i] == char_keysym(b[i]));
        lemma_keysyms_differ(a[i], b[i]);
    }
    assert(a =~= b);
}

/// Typing one text and then another presses the keys of the two put together.
pub proof fn law_typing_goes_on(a: Seq<char>, b: Seq<char>)
    ensures
        text_keysyms(a + b) == text_keysyms(a) + text_keysyms(b),
{
    assert(text_keysyms(a + b) =~= text_keysyms(a) + text_keysyms(b));
}

/// A name of one character stands for that character, in the case it is written in.
pub proof fn law_one_character_names_itself(c: char)
    requires
        (c as u32) < 128,
    ensures
        key_keysym(seq![c]) == Some(c as u32),
        modifier_keysym(seq![c]) is None,
{
    let key = seq![c];
    let lower = text::lowercase(key);
    assert(text::all_ascii(key));
    lemma_names_are_long(lower);
}

proof fn lemma_names_are_long(lower: Seq<char>)
    requires
        lower.len() <= 1,
    ensures
        key_table(lower) is None,
        modifier_table(lower) is None,
{
    if modifier_table(lower) is Some {
        lemma_tables_are_apart(lower);
    }
    reveal_strlit("return");
    reveal_strlit("enter");
    reveal_strlit("tab");
    reveal_strlit("escape");
    reveal_strlit("esc");
    reveal_strlit("backspace");
    reveal_strlit("delete");
    reveal_strlit("space");
    reveal_strlit("up");
    reveal_strlit("down");
    reveal_strlit("left");
    reveal_strlit("right");
    reveal_strlit("home");
    reveal_strlit("end");
    reveal_strlit("page_up");
    reveal_strlit("page_down");
    reveal_strlit("f1");
    reveal_strlit("f2");
    reveal_strlit("f3");
    reveal_strlit("f4");
    reveal_strlit("f5");
    reveal_strlit("f6");
    reveal_strlit("f7");
    reveal_strlit("f8");
    reveal_strlit("f9");
    reveal_strlit("f10");
    reveal_strlit("f11");
    reveal_strlit("f12");
}

/// Names of more than one character, and modifiers, go by their lower case: how they are
/// capitalised changes nothing.
pub proof fn law_case_of_names_is_ignored(a: Seq<char>, b: Seq<char>)
    requires
        text::lowercase(a) == text::lowercase(b),
    ensures
        modifier_keysym(a) == modifier_keysym(b),
        a.len() != 1 && b.len() != 1 ==> key_keysym(a) == key_keysym(b),
{
}

/// A name in any case stands for the key that its lower case is the name of, and a name of
/// several characters that is no key's stands for none.
pub proof fn law_named_keys(name: Seq<char>)
    requires
        name.len() > 1,
    ensures
        ({
            let lower = text::lowercase(name);
            let key = key_keysym(name);
            &&& lower == "return"@ || lower == "enter"@ ==> key == Some(0xff0du32)
            &&& lower == "tab"@ ==> key == Some(0xff09u32)
            &&& lower == "escape"@ || lower == "esc"@ ==> key == Some(0xff1bu32)
            &&& lower == "backspace"@ ==> key == Some(0xff08u32)
            &&& lower == "delete"@ ==> key == Some(0xffffu32)
            &&& lower == "space"@ ==> key == Some(' ' as u32)
            &&& lower == "home"@ ==> key == Some(0xff50u32)
            &&& lower == "left"@ ==> key == Some(0xff51u32)
            &&& lower == "up"@ ==> key == Some(0xff52u32)
            &&& lower == "right"@ ==> key == Some(0xff53u32)
            &&& lower == "down"@ ==> key == Some(0xff54u32)
            &&& lower == "page_up"@ ==> key == Some(0xff55u32)
            &&& lower == "page_down"@ ==> key == Some(0xff56u32)
            &&& lower == "end"@ ==> key == Some(0xff57u32)
            &&& key is Some ==> seq![
                "return"@,
                "enter"@,
                "tab"@,
                "escape"@,
                "esc"@,
                "backspace"@,
                "delete"@,
                "space"@,
                "home"@,
                "left"@,
                "up"@,
                "right"@,
                "down"@,
                "page_up"@,
                "page_down"@,
                "end"@,
            ].contains(lower) || exists|n: nat|
                1 <= n <= 12 && lower == seq!['f'] + #[trigger] text::decimal(n)
        }),
{
    let lower = text::lowercase(name);
    lemma_key_names_differ();
    lemma_function_key_names();
    if key_keysym(name) is Some {
        let names = seq![
            "return"@,
            "enter"@,
            "tab"@,
            "escape"@,
            "esc"@,
            "backspace"@,
            "delete"@,
            "space"@,
            "home"@,
            "left"@,
            "up"@,
            "right"@,
            "down"@,
            "page_up"@,
            "page_down"@,
            "end"@,
        ];
        assert(names[0] == "return"@ && names[1] == "enter"@ && names[2] == "tab"@ && names[3]
            == "escape"@ && names[4] == "esc"@ && names[5] == "backspace"@ && names[6] == "delete"@
            && names[7] == "space"@ && names[8] == "home"@ && names[9] == "left"@ && names[10]
            == "up"@ && names[11] == "right"@ && names[12] == "down"@ && names[13] == "page_up"@
            && names[14] == "page_down"@ && names[15] == "end"@);
    }
}

proof fn lemma_key_names_differ()
    ensures
        key_table("return"@) == Some(0xff0du32),
        key_table("enter"@) == Some(0xff0du32),
        key_table("tab"@) == Some(0xff09u32),
        key_table("escape"@) == Some(0xff1bu32),
        key_table("esc"@) == Some(0xff1bu32),
        key_table("backspace"@) == Some(0xff08u32),
        key_table("delete"@) == Some(0xffffu32),
        key_table("space"@) == Some(0x20u32),
        key_table("home"@) == Some(0xff50u32),
        key_table("left"@) == Some(0xff51u32),
        key_table("up"@) == Some(0xff52u32),
        key_table("right"@) == Some(0xff53u32),
        key_table("down"@) == Some(0xff54u32),
        key_table("page_up"@) == Some(0xff55u32),
        key_table("page_down"@) == Some(0xff56u32),
        key_table("end"@) == Some(0xff57u32),
{
    reveal_strlit("return");
    reveal_strlit("enter");
    reveal_strlit("tab");
    reveal_strlit("escape");
    reveal_strlit("esc");
    reveal_strlit("backspace");
    reveal_strlit("delete");
    reveal_strlit("space");
    reveal_strlit("up");
    reveal_strlit("down");
    reveal_strlit("left");
    reveal_strlit("right");
    reveal_strlit("home");
    reveal_strlit("end");
    reveal_strlit("page_up");
    reveal_strlit("page_down");
    assert("return"@[0] == 'r' && "return"@[1] == 'e');
    assert("enter"@[0] == 'e' && "enter"@.len() == 5);
    assert("tab"@[0] == 't');
    assert("escape"@[0] == 'e' && "escape"@.len() == 6);
    assert("esc"@[0] == 'e' && "esc"@[1] == 's' && "esc"@.len() == 3);
    assert("backspace"@[0] == 'b');
    assert("delete"@[0] == 'd' && "delete"@[1] == 'e');
    assert("space"@[0] == 's');
    assert("up"@[0] == 'u');
    assert("down"@[0] == 'd' && "down"@[1] == 'o');
    assert("left"@[0] == 'l');
    assert("right"@[0] == 'r' && "right"@[1] == 'i');
    assert("home"@[0] == 'h');
    assert("end"@[0] == 'e' && "end"@[1] == 'n' && "end"@.len() == 3);
    assert("page_up"@[0] == 'p' && "page_up"@.len() == 7);
    assert("page_down"@[0] == 'p' && "page_down"@.len() == 9);
}

proof fn lemma_function_key_names()
    ensures
        "f1"@ == seq!['f'] + text::decimal(1),
        "f2"@ == seq!['f'] + text::decimal(2),
        "f3"@ == seq!['f'] + text::decimal(3),
        "f4"@ == seq!['f'] + text::decimal(4),
        "f5"@ == seq!['f'] + text::decimal(5),
        "f6"@ == seq!['f'] + text::decimal(6),
        "f7"@ == seq!['f'] + text::decimal(7),
        "f8"@ == seq!['f'] + text::decimal(8),
        "f9"@ == seq!['f'] + text::decimal(9),
        "f10"@ == seq!['f'] + text::decimal(10),
        "f11"@ == seq!['f'] + text::decimal(11),
        "f12"@ == seq!['f'] + text::decimal(12),
{
    reveal_strlit("f1");
    reveal_strlit("f2");
    reveal_strlit("f3");
    reveal_strlit("f4");
    reveal_strlit("f5");
    reveal_strlit("f6");
    reveal_strlit("f7");
    reveal_strlit("f8");
    reveal_strlit("f9");
    reveal_strlit("f10");
    reveal_strlit("f11");
    reveal_strlit("f12");
    reveal_with_fuel(text::decimal, 2);
    assert("f1"@ =~= seq!['f'] + text::decimal(1));
    assert("f2"@ =~= seq!['f'] + text::decimal(2));
    assert("f3"@ =~= seq!['f'] + text::decimal(3));
    assert("f4"@ =~= seq!['f'] + text::decimal(4));
    assert("f5"@ =~= seq!['f'] + text::decimal(5));
    assert("f6"@ =~= seq!['f'] + text::decimal(6));
    assert("f7"@ =~= seq!['f'] + text::decimal(7));
    assert("f8"@ =~= seq!['f'] + text::decimal(8));
    assert("f9"@ =~= seq!['f'] + text::decimal(9));
    assert("f10"@ =~= seq!['f'] + text::decimal(10));
    assert("f11"@ =~= seq!['f'] + text::decimal(11));
    assert("f12"@ =~= seq!['f'] + text::decimal(12));
}

/// The twelve function keys stand in a row, each under `F` and its number, and there is no
/// other function key.
pub proof fn law_function_keys_in_a_row(n: nat)
    ensures
        key_keysym(seq!['F'] + text::decimal(n)) == (if 1 <= n <= 12 {
            Some((0xffbd + n) as u32)
        } else {
            None
        }),
{
    let name = seq!['F'] + text::decimal(n);
    let lower = seq!['f'] + text::decimal(n);
    text::law_numeral_is_decimal(n, 0);
    assert forall|i: int| 0 <= i < name.len() implies (#[trigger] name[i] as u32) < 128 by {
        if i > 0 {
            assert(name[i] == text::decimal(n)[i - 1]);
        }
    }
    text::law_lower_case(name);
    assert forall|i: int| 0 <= i < name.len() implies text::lowercase(name)[i] == lower[i] by {
        if i > 0 {
            assert(name[i] == text::decimal(n)[i - 1]);
            assert('0' <= text::decimal(n)[i - 1] <= '9');
        }
    }
    assert(text::lowercase(name) =~= lower);
    lemma_function_key_names();
    lemma_only_function_keys_begin_with_f(lower);
    assert forall|m: nat| lower == seq!['f'] + #[trigger] text::decimal(m) implies m == n by {
        assert(lower.skip(1) =~= text::decimal(n));
        assert((seq!['f'] + text::decimal(m)).skip(1) =~= text::decimal(m));
        text::law_numerals_differ(m as int, n as int);
    }
}

proof fn lemma_only_function_keys_begin_with_f(lower: Seq<char>)
    requires
        lower.len() > 0,
        lower[0] == 'f',
    ensures
        lower != "return"@ && lower != "enter"@ && lower != "tab"@ && lower != "escape"@ && lower
            != "esc"@ && lower != "backspace"@ && lower != "delete"@ && lower != "space"@ && lower
            != "up"@ && lower != "down"@ && lower != "left"@ && lower != "right"@ && lower
            != "home"@ && lower != "end"@ && lower != "page_up"@ && lower != "page_down"@,
{
    reveal_strlit("return");
    reveal_strlit("enter");
    reveal_strlit("tab");
    reveal_strlit("escape");
    reveal_strlit("esc");
    reveal_strlit("backspace");
    reveal_strlit("delete");
    reveal_strlit("space");
    reveal_strlit("up");
    reveal_strlit("down");
    reveal_strlit("left");
    reveal_strlit("right");
    reveal_strlit("home");
    reveal_strlit("end");
    reveal_strlit("page_up");
    reveal_strlit("page_down");
}

/// A modifier is known by one of its names, in any case, and held by its left-hand key.
pub proof fn law_named_modifiers(name: Seq<char>)
    ensures
        ({
            let lower = text::lowercase(name);
            &&& modifier_keysym(name) == Some(0xffe3u32) <==> lower == "ctrl"@ || lower
                == "control"@
            &&& modifier_keysym(name) == Some(0xffe1u32) <==> lower == "shift"@
            &&& modifier_keysym(name) == Some(0xffe9u32) <==> lower == "alt"@
            &&& modifier_keysym(name) == Some(0xffebu32) <==> lower == "super"@ || lower
                == "meta"@ || lower == "win"@ || lower == "windows"@ || lower == "cmd"@ || lower
                == "command"@
            &&& modifier_keysym(name) matches Some(k) ==> k == 0xffe3 || k == 0xffe1 || k == 0xffe9
                || k == 0xffeb
        }),
{
    reveal_strlit("ctrl");
    reveal_strlit("control");
    reveal_strlit("shift");
    reveal_strlit("alt");
    reveal_strlit("super");
    reveal_strlit("meta");
    reveal_strlit("win");
    reveal_strlit("windows");
    reveal_strlit("cmd");
    reveal_strlit("command");
    assert("ctrl"@.len() == 4 && "ctrl"@[0] == 'c' && "ctrl"@[1] == 't');
    assert("control"@.len() == 7 && "control"@[0] == 'c' && "control"@[3] == 't');
    assert("shift"@.len() == 5 && "shift"@[0] == 's' && "shift"@[1] == 'h');
    assert("alt"@.len() == 3 && "alt"@[0] == 'a' && "alt"@[1] == 'l');
    assert("super"@.len() == 5 && "super"@[0] == 's' && "super"@[1] == 'u');
    assert("meta"@.len() == 4 && "meta"@[0] == 'm' && "meta"@[1] == 'e');
    assert("win"@.len() == 3 && "win"@[0] == 'w' && "win"@[1] == 'i');
    assert("windows"@.len() == 7 && "windows"@[0] == 'w' && "windows"@[1] == 'i');
    assert("cmd"@.len() == 3 && "cmd"@[0] == 'c' && "cmd"@[1] == 'm');
    assert("command"@.len() == 7 && "command"@[0] == 'c' && "command"@[3] == 'm');
}

proof fn lemma_nonblank_joined(a: Seq<Seq<char>>, b: Seq<Seq<char>>)
    ensures
        nonblank(a + b) == nonblank(a) + nonblank(b),
    decreases b.len(),
{
    if b.len() == 0 {
        assert(a + b =~= a);
        assert(nonblank(a) + nonblank(b) =~= nonblank(a));
    } else {
        lemma_nonblank_joined(a, b.drop_last());
        assert((a + b).drop_last() =~= a + b.drop_last());
        assert((a + b).last() == b.last());
        assert(nonblank(a + b) =~= nonblank(a) + nonblank(b));
    }
}

proof fn lemma_modifier_first(first: Seq<char>, names: Seq<Seq<char>>)
    ensures
        modifier_keysyms(seq![first] + names) == (match (
            modifier_keysym(first),
            modifier_keysyms(names),
        ) {
            (Some(m), Some(rest)) => Some(seq![m] + rest),
            _ => None,
        }),
    decreases names.len(),
{
    let all = seq![first] + names;
    if names.len() == 0 {
        assert(all.drop_last() =~= Seq::empty());
        assert(all.last() == first);
        reveal_with_fuel(modifier_keysyms, 2);
        if modifier_keysym(first) is Some {
            let m = modifier_keysym(first)->0;
            assert(Seq::<u32>::empty().push(m) =~= seq![m] + Seq::<u32>::empty());
        }
    } else {
        lemma_modifier_first(first, names.drop_last());
        assert(all.drop_last() =~= seq![first] + names.drop_last());
        assert(all.last() == names.last());
        if modifier_keysym(first) is Some && modifier_keysyms(names) is Some {
            let m = modifier_keysym(first)->0;
            let front = modifier_keysyms(names.drop_last())->0;
            let last = modifier_keysym(names.last())->0;
            assert((seq![m] + front).push(last) =~= seq![m] + front.push(last));
        }
    }
}

proof fn lemma_trimmed_spans(s: Seq<char>, i: int, j: int)
    requires
        0 <= i <= j < s.len(),
        !text::white_space(s[i]),
        !text::white_space(s[j]),
    ensures
        text::trimmed(s).len() >= j - i + 1,
    decreases s.len(),
{
    if text::white_space(s[0]) {
        let rest = s.skip(1);
        assert(rest[i - 1] == s[i] && rest[j - 1] == s[j]);
        lemma_trimmed_spans(rest, i - 1, j - 1);
    } else if text::white_space(s.last()) {
        let rest = s.drop_last();
        assert(rest[i] == s[i] && rest[j] == s[j]);
        lemma_trimmed_spans(rest, i, j);
    }
}

proof fn lemma_one_token(s: Seq<char>)
    requires
        !s.contains('+'),
        !s.contains('-'),
    ensures
        chord_tokens(s) == (if text::trimmed(s).len() > 0 {
            seq![text::trimmed(s)]
        } else {
            Seq::empty()
        }),
{
    let mapped = s.map_values(|c: char| one_separator(c));
    assert forall|i: int| 0 <= i < s.len() implies mapped[i] == s[i] by {
        assert(s.contains(s[i]));
    }
    assert(mapped =~= s);
    let none = Seq::<char>::empty();
    text::lemma_pieces_extend(none, s, '+');
    assert(none + s =~= s);
    let p = text::pieces(s, '+');
    assert(p =~= seq![s]);
    assert(p.drop_last() =~= Seq::empty());
    reveal_with_fuel(nonblank, 2);
    if text::trimmed(s).len() > 0 {
        assert(nonblank(p) =~= seq![text::trimmed(s)]);
    }
}

proof fn lemma_tokens_joined(a: Seq<char>, sep: char, b: Seq<char>)
    requires
        sep == '+' || sep == '-',
    ensures
        chord_tokens(a.push(sep) + b) == chord_tokens(a) + chord_tokens(b),
{
    let f = |c: char| one_separator(c);
    let (ma, mb) = (a.map_values(f), b.map_values(f));
    assert((a.push(sep) + b).map_values(f) =~= ma.push('+') + mb);
    text::lemma_pieces_joined(ma, mb, '+');
    lemma_nonblank_joined(text::pieces(ma, '+'), text::pieces(mb, '+'));
}

proof fn lemma_trimmed_is_part(s: Seq<char>)
    requires
        text::trimmed(s).len() > 0,
    ensures
        exists|i: int| 0 <= i < s.len() && !text::white_space(#[trigger] s[i]),
{
    text::law_trimming(s);
    let t = text::trimmed(s);
    let (a, b) = choose|a: Seq<char>, b: Seq<char>|
        {
            &&& #[trigger] ((a + t) + b) == s
            &&& forall|i: int| 0 <= i < a.len() ==> text::white_space(#[trigger] a[i])
            &&& forall|i: int| 0 <= i < b.len() ==> text::white_space(#[trigger] b[i])
        };
    assert(s[a.len() as int] == t[0]);
}

/// A chord without a separator is a single key, a modifier or another one, with nothing
/// held; a single character is a key by itself, and a blank text is no chord.
pub proof fn law_chord_of_one_key(name: Seq<char>)
    requires
        !name.contains('+'),
        !name.contains('-'),
    ensures
        ({
            let whole = text::trimmed(name);
            let key = if modifier_keysym(whole) is Some && whole.len() != 1 {
                modifier_keysym(whole)
            } else {
                key_keysym(whole)
            };
            chord_of(name) == (if whole.len() > 0 && key is Some {
                Some(ChordView { modifiers: Seq::empty(), key: key->0 })
            } else {
                None
            })
        }),
{
    let whole = text::trimmed(name);
    lemma_one_token(name);
    if whole.len() > 0 {
        let tokens = seq![whole];
        assert(tokens.drop_last() =~= Seq::empty());
    }
}

/// A modifier in front of a chord, joined to it by a plus sign or a hyphen, is held before
/// the modifiers of that chord, and its key is pressed as before; what is no modifier makes
/// the whole no chord.
pub proof fn law_modifier_in_front_is_held_first(name: Seq<char>, sep: char, chord: Seq<char>)
    requires
        sep == '+' || sep == '-',
        !name.contains('+'),
        !name.contains('-'),
        text::trimmed(name).len() > 0,
        chord_tokens(chord).len() > 0,
        text::trimmed(chord).len() == 1 ==> (text::trimmed(chord)[0] as u32) < 128,
    ensures
        chord_of(name.push(sep) + chord) == (match (
            modifier_keysym(text::trimmed(name)),
            chord_of(chord),
        ) {
            (Some(held), Some(c)) => Some(
                ChordView { modifiers: seq![held] + c.modifiers, key: c.key },
            ),
            _ => None,
        }),
{
    let whole = name.push(sep) + chord;
    let first = text::trimmed(name);
    lemma_one_token(name);
    lemma_tokens_joined(name, sep, chord);
    let rest = chord_tokens(chord);
    let tokens = chord_tokens(whole);
    assert(tokens =~= seq![first] + rest);
    assert(tokens.last() == rest.last());
    assert(tokens.drop_last() =~= seq![first] + rest.drop_last());
    lemma_modifier_first(first, rest.drop_last());
    lemma_trimmed_is_part(name);
    let i = choose|i: int| 0 <= i < name.len() && !text::white_space(#[trigger] name[i]);
    assert(whole[i] == name[i]);
    assert(whole[name.len() as int] == sep);
    lemma_trimmed_spans(whole, i, name.len() as int);
    let t = text::trimmed(chord);
    if t.len() == 1 {
        lemma_lone_character(chord);
        law_one_character_names_itself(t[0]);
        assert(t =~= seq![t[0]]);
        assert(rest.drop_last() =~= Seq::empty());
        assert(modifier_keysyms(rest.drop_last()) == Some(Seq::<u32>::empty()));
    }
}

proof fn lemma_lone_character(s: Seq<char>)
    requires
        text::trimmed(s).len() == 1,
        chord_tokens(s).len() > 0,
    ensures
        chord_tokens(s) == seq![text::trimmed(s)],
{
    text::law_trimming(s);
    let t = text::trimmed(s);
    let (a, b) = choose|a: Seq<char>, b: Seq<char>|
        {
            &&& #[trigger] ((a + t) + b) == s
            &&& forall|i: int| 0 <= i < a.len() ==> text::white_space(#[trigger] a[i])
            &&& forall|i: int| 0 <= i < b.len() ==> text::white_space(#[trigger] b[i])
        };
    if t[0] == '+' || t[0] == '-' {
        lemma_blank_tokens(a);
        lemma_blank_tokens(b);
        lemma_tokens_joined(a, t[0], b);
        assert(a.push(t[0]) + b =~= s);
    } else {
        assert forall|i: int| 0 <= i < s.len() implies s[i] != '+' && s[i] != '-' by {
            if i < a.len() {
                assert(s[i] == a[i]);
            } else if i > a.len() {
                assert(s[i] == b[i - a.len() - 1]);
            }
        }
        lemma_one_token(s);
    }
}

proof fn lemma_blank_tokens(s: Seq<char>)
    requires
        forall|i: int| 0 <= i < s.len() ==> text::white_space(#[trigger] s[i]),
    ensures
        chord_tokens(s).len() == 0,
{
    assert forall|i: int| 0 <= i < s.len() implies s[i] != '+' && s[i] != '-' by {
        assert(text::white_space(s[i]));
    }
    lemma_one_token(s);
    if text::trimmed(s).len() > 0 {
        lemma_trimmed_is_part(s);
    }
}

/// Which of the two separators stands between the names of a chord, and how many stand
/// there, changes nothing.
pub proof fn law_separators_are_alike(a: Seq<char>, b: Seq<char>, gap: Seq<char>)
    requires
        gap.len() > 0,
        forall|i: int| 0 <= i < gap.len() ==> #[trigger] gap[i] == '+' || gap[i] == '-',
    ensures
        chord_tokens(a + gap + b) == chord_tokens(a) + chord_tokens(b),
    decreases gap.len(),
{
    let rest = gap.drop_last();
    if rest.len() == 0 {
        assert(a + gap + b =~= a.push(gap[0]) + b);
        lemma_tokens_joined(a, gap[0], b);
    } else {
        let none = Seq::<char>::empty();
        assert forall|i: int| 0 <= i < rest.len() implies #[trigger] rest[i] == '+' || rest[i]
            == '-' by {
            assert(rest[i] == gap[i]);
        }
        law_separators_are_alike(a, none, rest);
        lemma_blank_tokens(none);
        assert(chord_tokens(a) + chord_tokens(none) =~= chord_tokens(a));
        assert(a + rest + none =~= a + rest);
        lemma_tokens_joined(a + rest, gap.last(), b);
        assert((a + rest).push(gap.last()) + b =~= a + gap + b);
    }
}

/// The value of a chord: its modifiers in their order, and its key.
pub proof fn law_chord_values_are_its_fields(c: Chord)
    ensures
        c@.modifiers == c.modifiers@,
        c@.key == c.key,
{
}

} // verus!
