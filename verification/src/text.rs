//! Text primitives: the handful of string operations the rest of the crate is
//! written with, each specified over the string's sequence of characters.
use vstd::prelude::*;
use vstd::string::*;

verus! {

/// `String::push` appends one character.
pub assume_specification[ String::push ](s: &mut String, c: char)
    ensures
        final(s)@ == old(s)@.push(c),
;

/// The characters of `s`, in order.
pub fn chars_of(s: &str) -> (r: Vec<char>)
    ensures
        r@ == s@,
{
    let mut out: Vec<char> = Vec::new();
    for c in it: s.chars()
        invariant
            it.seq() == s@,
            out@ == s@.take(it.index() as int),
    {
        out.push(c);
    }
    out
}

/// The characters `from..to` of `cs` as a string.
pub fn text_of(cs: &Vec<char>, from: usize, to: usize) -> (r: String)
    requires
        from <= to <= cs.len(),
    ensures
        r@ == cs@.subrange(from as int, to as int),
{
    let mut out = String::new();
    let mut i: usize = from;
    while i < to
        invariant
            from <= i <= to <= cs.len(),
            out@ == cs@.subrange(from as int, i as int),
        decreases to - i,
    {
        out.push(cs[i]);
        i = i + 1;
    }
    out
}

/// Whether `a` and `b` hold the same characters.
pub fn same_text(a: &str, b: &str) -> (r: bool)
    ensures
        r == (a@ == b@),
{
    let x = chars_of(a);
    let y = chars_of(b);
    if x.len() != y.len() {
        return false;
    }
    let mut i: usize = 0;
    while i < x.len()
        invariant
            x@ == a@,
            y@ == b@,
            x.len() == y.len(),
            i <= x.len(),
            forall|k: int| 0 <= k < i ==> x@[k] == y@[k],
        decreases x.len() - i,
    {
        if x[i] != y[i] {
            return false;
        }
        i = i + 1;
    }
    assert(x@ =~= y@);
    true
}

/// A copy of an optional string.
pub fn clone_optional(s: &Option<String>) -> (r: Option<String>)
    ensures
        r == *s,
{
    match s {
        Some(t) => Some(t.clone()),
        None => None,
    }
}

/// A copy of a list of strings.
pub fn clone_texts(v: &Vec<String>) -> (r: Vec<String>)
    ensures
        r@ == v@,
{
    let mut out: Vec<String> = Vec::new();
    let mut i: usize = 0;
    while i < v.len()
        invariant
            i <= v.len(),
            out@ == v@.take(i as int),
        decreases v.len() - i,
    {
        out.push(v[i].clone());
        i = i + 1;
    }
    out
}

/// A copy of a list of pairs of strings.
pub fn clone_pairs(v: &Vec<(String, String)>) -> (r: Vec<(String, String)>)
    ensures
        r@ == v@,
{
    let mut out: Vec<(String, String)> = Vec::new();
    let mut i: usize = 0;
    while i < v.len()
        invariant
            i <= v.len(),
            out@ == v@.take(i as int),
        decreases v.len() - i,
    {
        out.push((v[i].0.clone(), v[i].1.clone()));
        i = i + 1;
    }
    out
}

// ── Decimal numerals ────────────────────────────────────────────────────────

/// The character of a decimal digit.
pub open spec fn digit_char(d: nat) -> char {
    ((48 + d) as u8) as char
}

/// The decimal numeral of `n`, without leading zeros.
pub open spec fn decimal(n: nat) -> Seq<char>
    decreases n,
{
    if n < 10 {
        seq![digit_char(n)]
    } else {
        decimal(n / 10).push(digit_char(n % 10))
    }
}

/// The decimal numeral of an integer: a minus sign in front of a negative one.
pub open spec fn decimal_int(n: int) -> Seq<char> {
    if n < 0 {
        seq!['-'] + decimal((-n) as nat)
    } else {
        decimal(n as nat)
    }
}

fn push_decimal(out: &mut String, n: u128)
    ensures
        final(out)@ == old(out)@ + decimal(n as nat),
    decreases n,
{
    let ghost before = out@;
    if n >= 10 {
        push_decimal(out, n / 10);
    }
    let d: u8 = 48u8 + (n % 10) as u8;
    out.push(d as char);
    assert(out@ =~= before + decimal(n as nat));
}

/// The decimal numeral of `n`.
pub fn decimal_u64(n: u64) -> (r: String)
    ensures
        r@ == decimal(n as nat),
{
    let mut out = String::new();
    push_decimal(&mut out, n as u128);
    assert(out@ =~= decimal(n as nat));
    out
}

/// The decimal digits of `n`.
pub fn decimal_u128(n: u128) -> (r: String)
    ensures
        r@ == decimal(n as nat),
{
    let mut out = String::new();
    push_decimal(&mut out, n);
    assert(out@ =~= decimal(n as nat));
    out
}

/// The decimal numeral of `n`, signed.
pub fn decimal_i32(n: i32) -> (r: String)
    ensures
        r@ == decimal_int(n as int),
{
    let mut out = String::new();
    if n < 0 {
        out.push('-');
        push_decimal(&mut out, (-(n as i64)) as u128);
    } else {
        push_decimal(&mut out, n as u128);
    }
    assert(out@ =~= decimal_int(n as int));
    out
}

/// Whether `c` is one of the ten decimal digits.
pub open spec fn is_digit(c: char) -> bool {
    '0' <= c && c <= '9'
}

/// Whether every character of `s` is a decimal digit.
pub open spec fn all_digits(s: Seq<char>) -> bool {
    forall|i: int| 0 <= i < s.len() ==> is_digit(#[trigger] s[i])
}

/// The number that a run of decimal digits stands for.
pub open spec fn digits_value(s: Seq<char>) -> nat
    decreases s.len(),
{
    if s.len() == 0 {
        0
    } else {
        digits_value(s.drop_last()) * 10 + (s.last() as nat - 48) as nat
    }
}

/// What `s` reads as: an optional sign (`-` only where `signed`), then at least
/// one decimal digit and nothing else, with a value in `lo..=hi`.
pub open spec fn parsed_int(s: Seq<char>, signed: bool, lo: int, hi: int) -> Option<int> {
    let negative = signed && s.len() > 0 && s[0] == '-';
    let body = if negative || (s.len() > 0 && s[0] == '+') {
        s.skip(1)
    } else {
        s
    };
    if body.len() == 0 || !all_digits(body) {
        None
    } else {
        let v = if negative {
            -(digits_value(body) as int)
        } else {
            digits_value(body) as int
        };
        if lo <= v <= hi {
            Some(v)
        } else {
            None
        }
    }
}

/// The value of the digits from `from` on, with everything above `u64::MAX`
/// reported as some number above it; `None` unless there is at least one
/// character and all are digits.
fn magnitude(cs: &Vec<char>, from: usize) -> (r: Option<u128>)
    requires
        from <= cs.len(),
    ensures
        ({
            let body = cs@.skip(from as int);
            match r {
                None => body.len() == 0 || !all_digits(body),
                Some(m) => {
                    &&& body.len() > 0 && all_digits(body)
                    &&& m <= u64::MAX ==> m == digits_value(body)
                    &&& m > u64::MAX ==> digits_value(body) > u64::MAX
                },
            }
        }),
{
    if from == cs.len() {
        return None;
    }
    let ghost body = cs@.skip(from as int);
    let mut acc: u128 = 0;
    let mut i: usize = from;
    while i < cs.len()
        invariant
            from <= i <= cs.len(),
            body == cs@.skip(from as int),
            acc <= u64::MAX ==> acc == digits_value(body.take(i - from)),
            acc > u64::MAX ==> digits_value(body.take(i - from)) > u64::MAX,
            acc <= 200_000_000_000_000_000_000,
            forall|k: int| 0 <= k < i - from ==> is_digit(#[trigger] body[k]),
        decreases cs.len() - i,
    {
        let c = cs[i];
        assert(body[i - from] == c);
        if !('0' <= c && c <= '9') {
            assert(!is_digit(body[i - from]));
            return None;
        }
        assert(body.take(i + 1 - from).drop_last() =~= body.take(i - from));
        assert(body.take(i + 1 - from).last() == c);
        if acc <= 0xffff_ffff_ffff_ffff {
            acc = acc * 10 + (c as u32 - 48) as u128;
        }
        i = i + 1;
    }
    assert(body.take(i - from) =~= body);
    Some(acc)
}

/// Reads a signed 32-bit integer.
pub fn parse_i32(cs: &Vec<char>) -> (r: Option<i32>)
    ensures
        match r {
            Some(v) => parsed_int(cs@, true, i32::MIN as int, i32::MAX as int) == Some(v as int),
            None => parsed_int(cs@, true, i32::MIN as int, i32::MAX as int) is None,
        },
{
    let negative: bool = cs.len() > 0 && cs[0] == '-';
    let from: usize = if negative || (cs.len() > 0 && cs[0] == '+') {
        1
    } else {
        0
    };
    assert(cs@.skip(0) =~= cs@);
    match magnitude(cs, from) {
        None => None,
        Some(m) => {
            if negative {
                if m > 2147483648 {
                    None
                } else {
                    Some((-(m as i64)) as i32)
                }
            } else if m > 2147483647 {
                None
            } else {
                Some(m as i32)
            }
        },
    }
}

/// Reads an unsigned 64-bit integer.
pub fn parse_u64(cs: &Vec<char>) -> (r: Option<u64>)
    ensures
        match r {
            Some(v) => parsed_int(cs@, false, 0, u64::MAX as int) == Some(v as int),
            None => parsed_int(cs@, false, 0, u64::MAX as int) is None,
        },
{
    let from: usize = if cs.len() > 0 && cs[0] == '+' {
        1
    } else {
        0
    };
    assert(cs@.skip(0) =~= cs@);
    match magnitude(cs, from) {
        None => None,
        Some(m) => {
            if m > 0xffff_ffff_ffff_ffff {
                None
            } else {
                Some(m as u64)
            }
        },
    }
}

// ── Searching and splitting ─────────────────────────────────────────────────

/// Whether `p` stands in `s` at position `i`.
pub open spec fn occurs_at(s: Seq<char>, p: Seq<char>, i: int) -> bool {
    0 <= i && i + p.len() <= s.len() && s.subrange(i, i + p.len()) == p
}

/// Whether `p` stands somewhere in `s`.
pub open spec fn occurs(s: Seq<char>, p: Seq<char>) -> bool {
    exists|i: int| occurs_at(s, p, i)
}

fn matches_at(cs: &Vec<char>, p: &Vec<char>, i: usize) -> (r: bool)
    requires
        i + p.len() <= cs.len(),
    ensures
        r == occurs_at(cs@, p@, i as int),
{
    let mut k: usize = 0;
    while k < p.len()
        invariant
            k <= p.len(),
            i + p.len() <= cs.len(),
            forall|j: int| 0 <= j < k ==> cs@[i + j] == p@[j],
        decreases p.len() - k,
    {
        if cs[i + k] != p[k] {
            assert(cs@.subrange(i as int, i + p.len())[k as int] != p@[k as int]);
            return false;
        }
        k = k + 1;
    }
    assert(cs@.subrange(i as int, i + p.len()) =~= p@);
    true
}

/// The first position from `from` on at which `p` stands in `cs`.
pub fn find_from(cs: &Vec<char>, p: &Vec<char>, from: usize) -> (r: Option<usize>)
    requires
        from <= cs.len(),
    ensures
        match r {
            Some(i) => from <= i && occurs_at(cs@, p@, i as int) && (forall|j: int|
                from <= j < i ==> !occurs_at(cs@, p@, j)),
            None => forall|j: int| from <= j ==> !occurs_at(cs@, p@, j),
        },
{
    let mut i: usize = from;
    while cs.len() - i >= p.len()
        invariant
            from <= i <= cs.len(),
            forall|j: int| from <= j < i ==> !occurs_at(cs@, p@, j),
        decreases cs.len() - i,
    {
        if matches_at(cs, p, i) {
            return Some(i);
        }
        if i == cs.len() {
            return None;
        }
        i = i + 1;
    }
    None
}

/// Whether `p` stands somewhere in `s`.
pub fn contains_text(s: &str, p: &str) -> (r: bool)
    ensures
        r == occurs(s@, p@),
{
    let cs = chars_of(s);
    let ps = chars_of(p);
    match find_from(&cs, &ps, 0) {
        Some(i) => {
            assert(occurs_at(s@, p@, i as int));
            true
        },
        None => {
            assert forall|j: int| !occurs_at(s@, p@, j) by {
                if 0 <= j {
                    assert(!occurs_at(cs@, ps@, j));
                }
            }
            false
        },
    }
}

/// The pieces of `s` between the occurrences of `sep`.
pub open spec fn pieces(s: Seq<char>, sep: char) -> Seq<Seq<char>>
    decreases s.len(),
{
    if s.len() == 0 {
        seq![Seq::empty()]
    } else {
        let front = pieces(s.drop_last(), sep);
        if s.last() == sep {
            front.push(Seq::empty())
        } else {
            front.drop_last().push(front.last().push(s.last()))
        }
    }
}

/// Text falls into at least one piece.
pub proof fn lemma_pieces_nonempty(s: Seq<char>, sep: char)
    ensures
        pieces(s, sep).len() >= 1,
    decreases s.len(),
{
    if s.len() > 0 {
        lemma_pieces_nonempty(s.drop_last(), sep);
    }
}

/// Text without the separator, put behind `s`, lengthens the last piece.
pub proof fn lemma_pieces_extend(s: Seq<char>, t: Seq<char>, sep: char)
    requires
        !t.contains(sep),
    ensures
        pieces(s + t, sep) == pieces(s, sep).drop_last().push(pieces(s, sep).last() + t),
    decreases t.len(),
{
    lemma_pieces_nonempty(s, sep);
    if t.len() == 0 {
        assert(s + t =~= s);
        assert(pieces(s, sep).last() + t =~= pieces(s, sep).last());
        assert(pieces(s, sep) =~= pieces(s, sep).drop_last().push(pieces(s, sep).last()));
    } else {
        let front = t.drop_last();
        assert(t.last() == t[t.len() - 1]);
        assert forall|i: int| 0 <= i < front.len() implies front[i] != sep by {
            assert(t.contains(t[i]));
        }
        lemma_pieces_extend(s, front, sep);
        assert((s + t).drop_last() =~= s + front);
        assert((s + t).last() == t.last());
        assert(t.contains(t.last()));
        let p = pieces(s, sep);
        assert(p.last() + t =~= (p.last() + front).push(t.last()));
        assert(p.drop_last().push(p.last() + front).drop_last() =~= p.drop_last());
    }
}

/// A separator behind `s` opens an empty piece.
pub proof fn lemma_pieces_separator(s: Seq<char>, sep: char)
    ensures
        pieces(s.push(sep), sep) == pieces(s, sep).push(Seq::empty()),
{
    assert(s.push(sep).drop_last() =~= s);
}

/// Text behind a separator has its pieces behind those before it.
pub proof fn lemma_pieces_joined(s: Seq<char>, t: Seq<char>, sep: char)
    ensures
        pieces(s.push(sep) + t, sep) == pieces(s, sep) + pieces(t, sep),
    decreases t.len(),
{
    let whole = s.push(sep) + t;
    lemma_pieces_nonempty(t, sep);
    if t.len() == 0 {
        assert(whole =~= s.push(sep));
        lemma_pieces_separator(s, sep);
        assert(pieces(s, sep) + pieces(t, sep) =~= pieces(s, sep).push(Seq::empty()));
    } else {
        let front = t.drop_last();
        lemma_pieces_joined(s, front, sep);
        lemma_pieces_nonempty(front, sep);
        assert(whole.drop_last() =~= s.push(sep) + front);
        assert(whole.last() == t.last());
        let (a, b) = (pieces(s, sep), pieces(front, sep));
        assert((a + b).drop_last() =~= a + b.drop_last());
        assert((a + b).last() == b.last());
        assert(pieces(whole, sep) =~= a + pieces(t, sep));
    }
}

/// Splits text at each `sep`.
pub fn split_at_char(cs: &Vec<char>, sep: char) -> (r: Vec<Vec<char>>)
    ensures
        r@.len() == pieces(cs@, sep).len(),
        forall|i: int| 0 <= i < r@.len() ==> (#[trigger] r@[i])@ == pieces(cs@, sep)[i],
{
    let mut out: Vec<Vec<char>> = Vec::new();
    let mut piece: Vec<char> = Vec::new();
    let mut i: usize = 0;
    while i < cs.len()
        invariant
            i <= cs.len(),
            pieces(cs@.take(i as int), sep).len() == out@.len() + 1,
            piece@ == pieces(cs@.take(i as int), sep).last(),
            forall|k: int|
                0 <= k < out@.len() ==> (#[trigger] out@[k])@ == pieces(cs@.take(i as int), sep)[k],
        decreases cs.len() - i,
    {
        let c = cs[i];
        let ghost so_far = cs@.take(i as int);
        let ghost next = cs@.take(i + 1);
        proof {
            assert(next.drop_last() =~= so_far);
            assert(next.last() == c);
        }
        if c == sep {
            let mut done: Vec<char> = Vec::new();
            core::mem::swap(&mut done, &mut piece);
            out.push(done);
        } else {
            piece.push(c);
        }
        i = i + 1;
    }
    assert(cs@.take(i as int) =~= cs@);
    out.push(piece);
    out
}

/// The position of the first `c` in `s`, `s.len()` where there is none.
pub open spec fn first_index(s: Seq<char>, c: char) -> int
    decreases s.len(),
{
    if s.len() == 0 || s[0] == c {
        0
    } else {
        1 + first_index(s.skip(1), c)
    }
}

/// The first position of `c` in `s` is within bounds, holds `c` unless it is the
/// end, and has no `c` before it.
pub proof fn lemma_first_index(s: Seq<char>, c: char)
    ensures
        0 <= first_index(s, c) <= s.len(),
        first_index(s, c) < s.len() ==> s[first_index(s, c)] == c,
        forall|i: int| 0 <= i < first_index(s, c) ==> s[i] != c,
    decreases s.len(),
{
    if s.len() > 0 && s[0] != c {
        let rest = s.skip(1);
        lemma_first_index(rest, c);
        assert forall|i: int| 0 <= i < first_index(s, c) implies s[i] != c by {
            if i > 0 {
                assert(s[i] == rest[i - 1]);
            }
        }
    }
}

/// A position that holds `c` with no `c` before it is the first.
pub proof fn lemma_first_index_is(s: Seq<char>, c: char, at: int)
    requires
        0 <= at <= s.len(),
        at < s.len() ==> s[at] == c,
        forall|i: int| 0 <= i < at ==> s[i] != c,
    ensures
        first_index(s, c) == at,
{
    lemma_first_index(s, c);
    if first_index(s, c) < at {
        assert(s[first_index(s, c)] != c);
    }
}

/// The parts of `s` before and after the first `c`.
pub open spec fn split_once(s: Seq<char>, c: char) -> Option<(Seq<char>, Seq<char>)> {
    let i = first_index(s, c);
    if i < s.len() {
        Some((s.take(i), s.skip(i + 1)))
    } else {
        None
    }
}

/// Splits text at the first `c`.
pub fn split_once_at(cs: &Vec<char>, c: char) -> (r: Option<(String, String)>)
    ensures
        match r {
            Some((a, b)) => split_once(cs@, c) == Some((a@, b@)),
            None => split_once(cs@, c) is None,
        },
{
    let mut i: usize = 0;
    while i < cs.len()
        invariant
            i <= cs.len(),
            forall|k: int| 0 <= k < i ==> cs@[k] != c,
        decreases cs.len() - i,
    {
        if cs[i] == c {
            proof {
                lemma_first_index_is(cs@, c, i as int);
            }
            assert(cs@.take(i as int) =~= cs@.subrange(0, i as int));
            assert(cs@.skip(i + 1) =~= cs@.subrange(i + 1, cs@.len() as int));
            return Some((text_of(cs, 0, i), text_of(cs, i + 1, cs.len())));
        }
        i = i + 1;
    }
    proof {
        lemma_first_index_is(cs@, c, i as int);
    }
    None
}

/// `rel` below the directory `base`.
pub open spec fn joined_path(base: Seq<char>, rel: Seq<char>) -> Seq<char> {
    if base.len() == 0 || base.last() == '/' {
        base + rel
    } else {
        base + "/"@ + rel
    }
}

/// A relative path below a directory.
pub fn joined(base: &str, rel: &str) -> (r: String)
    ensures
        r@ == joined_path(base@, rel@),
{
    let cs = chars_of(base);
    let mut out = base.to_string();
    if cs.len() > 0 && cs[cs.len() - 1] != '/' {
        out.append("/");
    }
    out.append(rel);
    out
}

// ── White space ─────────────────────────────────────────────────────────────

/// The characters with the Unicode `White_Space` property.
pub open spec fn white_space(c: char) -> bool {
    let n = c as u32;
    ||| 0x09 <= n <= 0x0d
    ||| n == 0x20
    ||| n == 0x85
    ||| n == 0xa0
    ||| n == 0x1680
    ||| 0x2000 <= n <= 0x200a
    ||| n == 0x2028
    ||| n == 0x2029
    ||| n == 0x202f
    ||| n == 0x205f
    ||| n == 0x3000
}

/// Whether `c` is white space.
pub fn is_white_space(c: char) -> (r: bool)
    ensures
        r == white_space(c),
{
    let n: u32 = c as u32;
    (0x09 <= n && n <= 0x0d) || n == 0x20 || n == 0x85 || n == 0xa0 || n == 0x1680 || (0x2000 <= n
        && n <= 0x200a) || n == 0x2028 || n == 0x2029 || n == 0x202f || n == 0x205f || n == 0x3000
}

/// `s` without the white space at its two ends.
pub open spec fn trimmed(s: Seq<char>) -> Seq<char>
    decreases s.len(),
{
    if s.len() == 0 {
        s
    } else if white_space(s[0]) {
        trimmed(s.skip(1))
    } else if white_space(s.last()) {
        trimmed(s.drop_last())
    } else {
        s
    }
}

/// Drops the white space at the two ends.
pub fn trim(cs: &Vec<char>) -> (r: Vec<char>)
    ensures
        r@ == trimmed(cs@),
{
    let mut from: usize = 0;
    let mut to: usize = cs.len();
    assert(cs@.subrange(0, cs@.len() as int) =~= cs@);
    while from < to && is_white_space(cs[from])
        invariant
            from <= to == cs.len(),
            trimmed(cs@.subrange(from as int, to as int)) == trimmed(cs@),
        decreases to - from,
    {
        assert(cs@.subrange(from as int, to as int).skip(1) =~= cs@.subrange(from + 1, to as int));
        from = from + 1;
    }
    while from < to && is_white_space(cs[to - 1])
        invariant
            from <= to <= cs.len(),
            from < to ==> !white_space(cs@[from as int]),
            trimmed(cs@.subrange(from as int, to as int)) == trimmed(cs@),
        decreases to - from,
    {
        assert(cs@.subrange(from as int, to as int).drop_last() =~= cs@.subrange(
            from as int,
            to - 1,
        ));
        to = to - 1;
    }
    let mut out: Vec<char> = Vec::new();
    let mut i: usize = from;
    while i < to
        invariant
            from <= i <= to <= cs.len(),
            out@ == cs@.subrange(from as int, i as int),
        decreases to - i,
    {
        out.push(cs[i]);
        i = i + 1;
    }
    out
}

// ── Letter case ─────────────────────────────────────────────────────────────

/// Whether `c` is an ASCII character.
pub open spec fn ascii(c: char) -> bool {
    (c as u32) < 128
}

/// Whether every character of `s` is ASCII.
pub open spec fn all_ascii(s: Seq<char>) -> bool {
    forall|i: int| 0 <= i < s.len() ==> ascii(#[trigger] s[i])
}

/// `c` with `A` to `Z` mapped to `a` to `z`.
pub open spec fn ascii_lower(c: char) -> char {
    if 'A' <= c && c <= 'Z' {
        ((c as u8) + 32) as u8 as char
    } else {
        c
    }
}

/// `c` with `a` to `z` mapped to `A` to `Z`.
pub open spec fn ascii_upper(c: char) -> char {
    if 'a' <= c && c <= 'z' {
        ((c as u8) - 32) as u8 as char
    } else {
        c
    }
}

/// What `str::to_lowercase` makes of text that is not all ASCII.
pub uninterp spec fn unicode_lowercase(s: Seq<char>) -> Seq<char>;

/// What `char::to_uppercase` makes of a character that is not ASCII.
pub uninterp spec fn unicode_upper_of(c: char) -> Seq<char>;

/// What `char::to_lowercase` makes of a character that is not ASCII.
pub uninterp spec fn unicode_lower_of(c: char) -> Seq<char>;

/// `s` in lower case.
pub open spec fn lowercase(s: Seq<char>) -> Seq<char> {
    if all_ascii(s) {
        s.map_values(|c: char| ascii_lower(c))
    } else {
        unicode_lowercase(s)
    }
}

/// `c` in upper case; some characters turn into several.
pub open spec fn upper_of(c: char) -> Seq<char> {
    if ascii(c) {
        seq![ascii_upper(c)]
    } else {
        unicode_upper_of(c)
    }
}

/// `c` in lower case; some characters turn into several.
pub open spec fn lower_of(c: char) -> Seq<char> {
    if ascii(c) {
        seq![ascii_lower(c)]
    } else {
        unicode_lower_of(c)
    }
}

/// Calls `str::to_lowercase`. On ASCII text it maps `A` to `Z` to `a` to `z` and
/// keeps the rest; on other text the result follows from the text alone, by the
/// Unicode tables, and is only given a name here.
#[verifier::external_body]
pub(crate) fn to_lowercase(s: &str) -> (r: String)
    ensures
        all_ascii(s@) ==> r@ == s@.map_values(|c: char| ascii_lower(c)),
        !all_ascii(s@) ==> r@ == unicode_lowercase(s@),
{
    s.to_lowercase()
}

/// Calls `char::to_uppercase` and collects what it yields. An ASCII character
/// maps to its one upper-case counterpart; what another one maps to follows from
/// it alone, by the Unicode tables, and is only given a name here.
#[verifier::external_body]
pub(crate) fn to_uppercase_char(c: char) -> (r: String)
    ensures
        ascii(c) ==> r@ == seq![ascii_upper(c)],
        !ascii(c) ==> r@ == unicode_upper_of(c),
{
    c.to_uppercase().collect()
}

/// Calls `char::to_lowercase` and collects what it yields. An ASCII character
/// maps to its one lower-case counterpart; what another one maps to follows from
/// it alone, by the Unicode tables, and is only given a name here.
#[verifier::external_body]
pub(crate) fn to_lowercase_char(c: char) -> (r: String)
    ensures
        ascii(c) ==> r@ == seq![ascii_lower(c)],
        !ascii(c) ==> r@ == unicode_lower_of(c),
{
    c.to_lowercase().collect()
}

// ── Quoting ─────────────────────────────────────────────────────────────────

/// What the `Debug` form of a `str` is: the text in double quotes, with what is
/// not printable escaped.
pub uninterp spec fn quoted(s: Seq<char>) -> Seq<char>;

/// Calls the `Debug` formatting of `str`. The result follows from the text
/// alone; which characters are escaped is left to std's tables.
#[verifier::external_body]
pub(crate) fn debug_quoted(s: &str) -> (r: String)
    ensures
        r@ == quoted(s@),
{
    format!("{:?}", s)
}

/// What the `Debug` form of a `std::time::Duration` is, given its whole seconds and
/// the nanoseconds beyond them.
pub uninterp spec fn duration_text(secs: u64, nanos: u32) -> Seq<char>;

/// Calls the `Debug` formatting of `std::time::Duration`. The result follows from
/// the length of time alone; how it is rounded into units is left to std.
#[verifier::external_body]
pub(crate) fn duration_debug(secs: u64, nanos: u32) -> (r: String)
    requires
        nanos < 1_000_000_000,
    ensures
        r@ == duration_text(secs, nanos),
{
    format!("{:?}", std::time::Duration::new(secs, nanos))
}

// ── Order ───────────────────────────────────────────────────────────────────

/// Whether `a` comes before `b` in the order of their characters' code points,
/// first difference first; a proper prefix comes first.
pub open spec fn precedes(a: Seq<char>, b: Seq<char>) -> bool
    decreases a.len(),
{
    if b.len() == 0 {
        false
    } else if a.len() == 0 {
        true
    } else if a[0] != b[0] {
        a[0] < b[0]
    } else {
        precedes(a.skip(1), b.skip(1))
    }
}

/// Whether `a` comes before `b` or is the same.
pub open spec fn precedes_or_same(a: Seq<char>, b: Seq<char>) -> bool {
    a == b || precedes(a, b)
}

/// Nothing comes before itself.
pub proof fn lemma_precedes_irreflexive(a: Seq<char>)
    ensures
        !precedes(a, a),
    decreases a.len(),
{
    if a.len() > 0 {
        lemma_precedes_irreflexive(a.skip(1));
    }
}

/// The order is transitive.
pub proof fn lemma_precedes_transitive(a: Seq<char>, b: Seq<char>, c: Seq<char>)
    requires
        precedes(a, b),
        precedes(b, c),
    ensures
        precedes(a, c),
    decreases a.len(),
{
    if a.len() > 0 && a[0] == b[0] && b[0] == c[0] {
        lemma_precedes_transitive(a.skip(1), b.skip(1), c.skip(1));
    }
}

/// Of two different texts one comes before the other.
pub proof fn lemma_precedes_total(a: Seq<char>, b: Seq<char>)
    ensures
        a == b || precedes(a, b) || precedes(b, a),
    decreases a.len(),
{
    if a.len() == 0 || b.len() == 0 {
        if a.len() == 0 && b.len() == 0 {
            assert(a =~= b);
        }
    } else if a[0] == b[0] {
        lemma_precedes_total(a.skip(1), b.skip(1));
        if a.skip(1) == b.skip(1) {
            assert(a =~= seq![a[0]] + a.skip(1));
            assert(b =~= seq![b[0]] + b.skip(1));
        }
    }
}

/// Whether `a` comes before `b`.
pub fn comes_before(a: &str, b: &str) -> (r: bool)
    ensures
        r == precedes(a@, b@),
{
    let x = chars_of(a);
    let y = chars_of(b);
    let mut i: usize = 0;
    assert(x@.skip(0) =~= x@);
    assert(y@.skip(0) =~= y@);
    while i < x.len() && i < y.len() && x[i] == y[i]
        invariant
            x@ == a@,
            y@ == b@,
            i <= x.len(),
            i <= y.len(),
            precedes(a@, b@) == precedes(x@.skip(i as int), y@.skip(i as int)),
        decreases x.len() - i,
    {
        assert(x@.skip(i as int).skip(1) =~= x@.skip(i + 1));
        assert(y@.skip(i as int).skip(1) =~= y@.skip(i + 1));
        i = i + 1;
    }
    if i == y.len() {
        false
    } else if i == x.len() {
        true
    } else {
        x[i] < y[i]
    }
}

// ── Laws ────────────────────────────────────────────────────────────────────

/// A numeral has only the digits `0` to `9`, begins with no zero but in `0` itself, and
/// grows by one digit with each factor of ten.
pub proof fn law_numeral_is_decimal(n: nat, d: nat)
    requires
        d < 10,
    ensures
        decimal(n).len() >= 1,
        forall|i: int| 0 <= i < decimal(n).len() ==> '0' <= #[trigger] decimal(n)[i] <= '9',
        decimal(n)[0] == '0' ==> n == 0,
        n > 0 ==> decimal(10 * n + d) == decimal(n).push(decimal(d)[0]),
        decimal(d).len() == 1,
        decimal(d)[0] as int == '0' as int + d,
    decreases n,
{
    if n >= 10 {
        law_numeral_is_decimal(n / 10, d);
        let front = decimal(n / 10);
        assert forall|i: int| 0 <= i < decimal(n).len() implies '0' <= #[trigger] decimal(n)[i]
            <= '9' by {
            if i < front.len() {
                assert(decimal(n)[i] == front[i]);
            }
        }
        assert(decimal(n)[0] == front[0]);
    }
}

/// Different numbers have different numerals.
pub proof fn law_numerals_differ(m: int, n: int)
    requires
        decimal_int(m) == decimal_int(n),
    ensures
        m == n,
{
    lemma_decimal_value(if m < 0 {
        (-m) as nat
    } else {
        m as nat
    });
    lemma_decimal_value(if n < 0 {
        (-n) as nat
    } else {
        n as nat
    });
    let (a, b) = (decimal_int(m), decimal_int(n));
    law_numeral_is_decimal(if m < 0 {
        (-m) as nat
    } else {
        m as nat
    }, 0);
    law_numeral_is_decimal(if n < 0 {
        (-n) as nat
    } else {
        n as nat
    }, 0);
    if m < 0 {
        assert(a[0] == '-');
        assert(a.skip(1) =~= decimal((-m) as nat));
    }
    if n < 0 {
        assert(b[0] == '-');
        assert(b.skip(1) =~= decimal((-n) as nat));
    }
}

/// A minus sign stands in front of a negative number's numeral and nowhere else.
pub proof fn law_sign_stands_in_front(n: int)
    ensures
        n >= 0 ==> !decimal_int(n).contains('-'),
        n < 0 ==> decimal_int(n) == seq!['-'] + decimal_int(-n),
{
    if n >= 0 {
        law_numeral_is_decimal(n as nat, 0);
    }
}

proof fn lemma_decimal_value(n: nat)
    ensures
        decimal(n).len() >= 1,
        all_digits(decimal(n)),
        digits_value(decimal(n)) == n,
    decreases n,
{
    reveal_with_fuel(digits_value, 2);
    if n < 10 {
        assert(decimal(n).drop_last() =~= Seq::empty());
    } else {
        lemma_decimal_value(n / 10);
        assert(decimal(n).drop_last() =~= decimal(n / 10));
    }
}

/// A written number is read back, where it lies in the range that is asked for; a plus sign
/// in front changes nothing, and a minus sign is read only where numbers are signed.
pub proof fn law_number_reads_back(n: int, lo: int, hi: int)
    ensures
        parsed_int(decimal_int(n), true, lo, hi) == (if lo <= n <= hi {
            Some(n)
        } else {
            None
        }),
        n >= 0 ==> {
            &&& parsed_int(decimal_int(n), false, lo, hi) == parsed_int(
                decimal_int(n),
                true,
                lo,
                hi,
            )
            &&& parsed_int(seq!['+'] + decimal_int(n), false, lo, hi) == parsed_int(
                decimal_int(n),
                true,
                lo,
                hi,
            )
            &&& parsed_int(seq!['+'] + decimal_int(n), true, lo, hi) == parsed_int(
                decimal_int(n),
                true,
                lo,
                hi,
            )
        },
        n < 0 ==> parsed_int(decimal_int(n), false, lo, hi) is None,
{
    let s = decimal_int(n);
    if n < 0 {
        lemma_decimal_value((-n) as nat);
        assert(s.skip(1) =~= decimal((-n) as nat));
        assert(!is_digit(s[0]));
    } else {
        lemma_decimal_value(n as nat);
        assert(is_digit(s[0]));
        let plus = seq!['+'] + s;
        assert(plus.skip(1) =~= s);
        assert(plus[0] == '+');
    }
}

/// Only digits, at least one, with at most one sign in front of them, are read as a number.
pub proof fn law_only_numerals_are_read(s: Seq<char>, signed: bool, lo: int, hi: int)
    requires
        parsed_int(s, signed, lo, hi) is Some,
    ensures
        s.len() > 0,
        '0' <= s.last() <= '9',
        forall|i: int| 1 <= i < s.len() ==> '0' <= #[trigger] s[i] <= '9',
        '0' <= s[0] <= '9' || s[0] == '+' || (signed && s[0] == '-'),
        lo <= parsed_int(s, signed, lo, hi)->0 <= hi,
        s[0] == '-' ==> parsed_int(s, signed, lo, hi)->0 <= 0,
        s[0] != '-' ==> parsed_int(s, signed, lo, hi)->0 >= 0,
{
    let negative = signed && s.len() > 0 && s[0] == '-';
    let body = if negative || (s.len() > 0 && s[0] == '+') {
        s.skip(1)
    } else {
        s
    };
    assert forall|i: int| 1 <= i < s.len() implies '0' <= #[trigger] s[i] <= '9' by {
        if body.len() == s.len() {
            assert(is_digit(body[i]));
        } else {
            assert(is_digit(body[i - 1]));
        }
    }
    assert(is_digit(body[body.len() - 1]));
    if body.len() == s.len() {
        assert(is_digit(body[0]));
    }
}

/// One more digit behind a run of digits makes ten times the number and that digit.
pub proof fn law_digits_count_in_tens(s: Seq<char>, c: char)
    requires
        '0' <= c <= '9',
    ensures
        digits_value(Seq::empty()) == 0,
        digits_value(s.push(c)) == 10 * digits_value(s) + (c as int - '0' as int),
{
    assert(s.push(c).drop_last() =~= s);
}

/// Pieces put together again, a separator between two.
pub open spec fn rejoined(pieces: Seq<Seq<char>>, sep: char) -> Seq<char>
    decreases pieces.len(),
{
    if pieces.len() == 0 {
        Seq::empty()
    } else if pieces.len() == 1 {
        pieces[0]
    } else {
        rejoined(pieces.drop_last(), sep).push(sep) + pieces.last()
    }
}

/// The pieces of a text hold no separator, and put together again they are the text.
pub proof fn law_pieces_rejoin(s: Seq<char>, sep: char)
    ensures
        pieces(s, sep).len() >= 1,
        rejoined(pieces(s, sep), sep) == s,
        forall|i: int| 0 <= i < pieces(s, sep).len() ==> !(#[trigger] pieces(s, sep)[i]).contains(sep),
    decreases s.len(),
{
    reveal_with_fuel(rejoined, 2);
    let p = pieces(s, sep);
    if s.len() > 0 {
        let front = pieces(s.drop_last(), sep);
        law_pieces_rejoin(s.drop_last(), sep);
        if s.last() == sep {
            assert(p.drop_last() =~= front);
            assert(rejoined(p, sep) =~= s);
            assert forall|i: int| 0 <= i < p.len() implies !(#[trigger] p[i]).contains(sep) by {
                if i < front.len() {
                    assert(p[i] == front[i]);
                }
            }
        } else {
            let l = front.last();
            assert(p.drop_last() =~= front.drop_last());
            assert(p.last() == l.push(s.last()));
            if front.len() == 1 {
                assert(front[0] == l);
                assert(s.drop_last().push(s.last()) =~= s);
            } else {
                assert((rejoined(front.drop_last(), sep).push(sep) + l).push(s.last()) =~= rejoined(
                    front.drop_last(),
                    sep,
                ).push(sep) + l.push(s.last()));
                assert(s.drop_last().push(s.last()) =~= s);
            }
            assert forall|i: int| 0 <= i < p.len() implies !(#[trigger] p[i]).contains(sep) by {
                if i < front.len() - 1 {
                    assert(p[i] == front[i]);
                } else {
                    assert(!front[front.len() - 1].contains(sep));
                    assert forall|j: int| 0 <= j < p[i].len() implies p[i][j] != sep by {
                        if j < l.len() {
                            assert(l.contains(l[j]));
                        }
                    }
                }
            }
        }
    }
}

/// A text falls apart at the first of a character, and only where it holds that character.
pub proof fn law_split_once(s: Seq<char>, c: char)
    ensures
        match split_once(s, c) {
            Some((a, b)) => a.push(c) + b == s && !a.contains(c),
            None => !s.contains(c),
        },
{
    lemma_first_index(s, c);
    let i = first_index(s, c);
    if i < s.len() {
        assert(s.take(i).push(c) + s.skip(i + 1) =~= s);
    }
}

/// A text occurs exactly in what has it between two other texts.
pub proof fn law_occurs_between(s: Seq<char>, p: Seq<char>)
    ensures
        occurs(s, p) <==> exists|a: Seq<char>, b: Seq<char>| #[trigger] ((a + p) + b) == s,
{
    if occurs(s, p) {
        let i = choose|i: int| occurs_at(s, p, i);
        assert((s.take(i) + p) + s.skip(i + p.len()) =~= s);
    }
    if exists|a: Seq<char>, b: Seq<char>| #[trigger] ((a + p) + b) == s {
        let (a, b) = choose|a: Seq<char>, b: Seq<char>| #[trigger] ((a + p) + b) == s;
        assert(s.subrange(a.len() as int, (a.len() + p.len()) as int) =~= p);
        assert(occurs_at(s, p, a.len() as int));
    }
}

/// A path below a directory begins with the directory and ends with the relative path, with
/// one slash between the two, unless the directory brings it along or is not named at all.
pub proof fn law_path_lies_below(base: Seq<char>, rel: Seq<char>)
    ensures
        joined_path(base, rel).len() >= base.len() + rel.len(),
        joined_path(base, rel).take(base.len() as int) == base,
        joined_path(base, rel).skip(joined_path(base, rel).len() - rel.len()) == rel,
        base.len() > 0 ==> {
            let slash = joined_path(base, rel).len() - rel.len() - 1;
            joined_path(base, rel)[slash] == '/' && slash == (if base.last() == '/' {
                base.len() - 1
            } else {
                base.len() as int
            })
        },
        base.len() == 0 ==> joined_path(base, rel) == rel,
{
    reveal_strlit("/");
    let p = joined_path(base, rel);
    assert(p.take(base.len() as int) =~= base);
    assert(p.skip(p.len() - rel.len()) =~= rel);
}

/// Among ASCII characters, white space is the space and tab to carriage return.
pub proof fn law_ascii_white_space(c: char)
    requires
        (c as u32) < 128,
    ensures
        white_space(c) <==> c == ' ' || c == '\t' || c == '\n' || c == '\r' || c as u32 == 11
            || c as u32 == 12,
{
}

/// Trimming takes white space off the two ends, all of it and nothing else.
pub proof fn law_trimming(s: Seq<char>)
    ensures
        exists|a: Seq<char>, b: Seq<char>|
            {
                &&& #[trigger] ((a + trimmed(s)) + b) == s
                &&& forall|i: int| 0 <= i < a.len() ==> white_space(#[trigger] a[i])
                &&& forall|i: int| 0 <= i < b.len() ==> white_space(#[trigger] b[i])
            },
        trimmed(s).len() > 0 ==> !white_space(trimmed(s)[0]) && !white_space(trimmed(s).last()),
    decreases s.len(),
{
    let none = Seq::<char>::empty();
    if s.len() == 0 {
        assert((none + trimmed(s)) + none =~= s);
    } else if white_space(s[0]) {
        let rest = s.skip(1);
        law_trimming(rest);
        let (a, b) = choose|a: Seq<char>, b: Seq<char>|
            {
                &&& #[trigger] ((a + trimmed(rest)) + b) == rest
                &&& forall|i: int| 0 <= i < a.len() ==> white_space(#[trigger] a[i])
                &&& forall|i: int| 0 <= i < b.len() ==> white_space(#[trigger] b[i])
            };
        let front = seq![s[0]] + a;
        assert(seq![s[0]] + rest =~= s);
        assert((front + trimmed(s)) + b =~= seq![s[0]] + ((a + trimmed(rest)) + b));
    } else if white_space(s.last()) {
        let rest = s.drop_last();
        law_trimming(rest);
        let (a, b) = choose|a: Seq<char>, b: Seq<char>|
            {
                &&& #[trigger] ((a + trimmed(rest)) + b) == rest
                &&& forall|i: int| 0 <= i < a.len() ==> white_space(#[trigger] a[i])
                &&& forall|i: int| 0 <= i < b.len() ==> white_space(#[trigger] b[i])
            };
        let back = b.push(s.last());
        assert(rest.push(s.last()) =~= s);
        assert((a + trimmed(s)) + back =~= ((a + trimmed(rest)) + b).push(s.last()));
    } else {
        assert((none + trimmed(s)) + none =~= s);
    }
}

/// In ASCII text, lower case moves the capitals `A` to `Z` by the distance to `a` and keeps
/// every other character.
pub proof fn law_lower_case(s: Seq<char>)
    requires
        forall|i: int| 0 <= i < s.len() ==> (#[trigger] s[i] as u32) < 128,
    ensures
        lowercase(s).len() == s.len(),
        forall|i: int|
            0 <= i < s.len() ==> {
                &&& 'A' <= s[i] <= 'Z' ==> #[trigger] lowercase(s)[i] as int == s[i] as int + 32
                &&& !('A' <= s[i] <= 'Z') ==> lowercase(s)[i] == s[i]
            },
{
    assert(all_ascii(s));
}

/// An ASCII letter in one case is moved to the other, and no other ASCII character is moved.
pub proof fn law_letter_case(c: char)
    requires
        (c as u32) < 128,
    ensures
        upper_of(c).len() == 1,
        lower_of(c).len() == 1,
        'a' <= c <= 'z' ==> upper_of(c)[0] as int == c as int - 32 && lower_of(c)[0] == c,
        'A' <= c <= 'Z' ==> lower_of(c)[0] as int == c as int + 32 && upper_of(c)[0] == c,
        !('a' <= c <= 'z') && !('A' <= c <= 'Z') ==> upper_of(c)[0] == c && lower_of(c)[0] == c,
{
}

/// The first difference decides which of two texts comes first, and a text comes before
/// every longer one that begins with it.
pub proof fn law_first_difference_decides(
    common: Seq<char>,
    a: char,
    b: char,
    x: Seq<char>,
    y: Seq<char>,
)
    ensures
        a != b ==> (precedes(common.push(a) + x, common.push(b) + y) <==> a < b),
        precedes(common, common.push(a) + x),
        !precedes(common.push(a) + x, common),
    decreases common.len(),
{
    let (p, q) = (common.push(a) + x, common.push(b) + y);
    if common.len() > 0 {
        let rest = common.skip(1);
        law_first_difference_decides(rest, a, b, x, y);
        assert(p.skip(1) =~= rest.push(a) + x);
        assert(q.skip(1) =~= rest.push(b) + y);
    }
}

/// White space beyond ASCII: the next line, the spaces of fixed and of no-break width, and the
/// separators of lines and paragraphs.
pub proof fn law_white_space(c: char)
    ensures
        ({
            let n = c as int;
            n >= 128 ==> (white_space(c) <==> n == 0x85 || n == 0xa0 || n == 0x1680 || (0x2000 <= n
                && n < 0x200b) || n == 0x2028 || n == 0x2029 || n == 0x202f || n == 0x205f || n
                == 0x3000)
        }),
{
}

} // verus!
