//! Selectors built from values: string literals that denote any text, and the lookups
//! by id, name and role.
use crate::query;
use crate::text::{self, chars_of, split_at_char, text_of};
use vstd::prelude::*;
use vstd::string::*;

verus! {

/// A string literal: its quote character and what it holds.
pub type Literal = (char, Seq<char>);

/// The text of a literal.
pub open spec fn literal_text(l: Literal) -> Seq<char> {
    seq![l.0] + l.1 + seq![l.0]
}

/// Whether a literal can be read back: its quote does not occur in what it holds.
pub open spec fn sound(l: Literal) -> bool {
    !l.1.contains(l.0)
}

/// The text of a list of arguments.
pub open spec fn list_text(literals: Seq<Literal>) -> Seq<char>
    decreases literals.len(),
{
    if literals.len() == 0 {
        seq![]
    } else if literals.len() == 1 {
        literal_text(literals[0])
    } else {
        list_text(literals.drop_last()) + ", "@ + literal_text(literals.last())
    }
}

/// The expression that puts literals together: a single one stands for itself.
pub open spec fn expression(literals: Seq<Literal>) -> Seq<char> {
    if literals.len() == 1 {
        literal_text(literals[0])
    } else {
        "concat("@ + list_text(literals) + ")"@
    }
}

/// The text that the expression denotes.
pub open spec fn denoted(literals: Seq<Literal>) -> Seq<char>
    decreases literals.len(),
{
    if literals.len() == 0 {
        seq![]
    } else {
        denoted(literals.drop_last()) + literals.last().1
    }
}

/// Pieces in single quotes, with a quoted apostrophe between any two.
pub open spec fn interleaved(pieces: Seq<Seq<char>>) -> Seq<Literal>
    decreases pieces.len(),
{
    if pieces.len() == 0 {
        seq![]
    } else if pieces.len() == 1 {
        seq![('\'', pieces[0])]
    } else {
        interleaved(pieces.drop_last()).push(('"', seq!['\''])).push(('\'', pieces.last()))
    }
}

/// The literals that together denote `s`: one, in quotes that do not occur in `s`, or
/// the pieces between its apostrophes.
pub open spec fn literals_for(s: Seq<char>) -> Seq<Literal> {
    if !s.contains('\'') {
        seq![('\'', s)]
    } else if !s.contains('"') {
        seq![('"', s)]
    } else {
        interleaved(text::pieces(s, '\''))
    }
}

fn holds_char(cs: &Vec<char>, c: char) -> (r: bool)
    ensures
        r == cs@.contains(c),
{
    let mut i: usize = 0;
    while i < cs.len()
        invariant
            i <= cs.len(),
            forall|k: int| 0 <= k < i ==> cs@[k] != c,
        decreases cs.len() - i,
    {
        if cs[i] == c {
            return true;
        }
        i = i + 1;
    }
    false
}

fn push_quoted(out: &mut String, quote: char, content: &str)
    ensures
        final(out)@ == old(out)@ + literal_text((quote, content@)),
{
    let ghost before = out@;
    out.push(quote);
    out.append(content);
    out.push(quote);
    assert(out@ =~= before + literal_text((quote, content@)));
}

proof fn lemma_interleaved(pieces: Seq<Seq<char>>)
    requires
        pieces.len() > 0,
    ensures
        interleaved(pieces).len() == 2 * pieces.len() - 1,
    decreases pieces.len(),
{
    if pieces.len() > 1 {
        lemma_interleaved(pieces.drop_last());
    }
}

fn push_pieces(out: &mut String, parts: &Vec<Vec<char>>, Ghost(all): Ghost<Seq<Seq<char>>>)
    requires
        parts@.len() > 0,
        parts@.len() == all.len(),
        forall|i: int| 0 <= i < parts@.len() ==> (#[trigger] parts@[i])@ == all[i],
    ensures
        final(out)@ == old(out)@ + list_text(interleaved(all)),
{
    let ghost before = out@;
    push_quoted(out, '\'', text_of(&parts[0], 0, parts[0].len()).as_str());
    assert(parts@[0]@.subrange(0, parts@[0]@.len() as int) =~= parts@[0]@);
    assert(all.take(1)[0] == all[0]);
    assert(out@ =~= before + list_text(interleaved(all.take(1))));
    let mut i: usize = 1;
    while i < parts.len()
        invariant
            1 <= i <= parts.len(),
            parts@.len() == all.len(),
            forall|k: int| 0 <= k < parts@.len() ==> (#[trigger] parts@[k])@ == all[k],
            out@ == before + list_text(interleaved(all.take(i as int))),
        decreases parts.len() - i,
    {
        let ghost sofar = interleaved(all.take(i as int));
        let piece = text_of(&parts[i], 0, parts[i].len());
        out.append(", \"'\", ");
        push_quoted(out, '\'', piece.as_str());
        proof {
            reveal_strlit(", ");
            reveal_strlit(", \"'\", ");
            let next = all.take(i + 1);
            assert(next.drop_last() =~= all.take(i as int));
            assert(next.last() == all[i as int]);
            assert(piece@ =~= all[i as int]);
            lemma_interleaved(all.take(i as int));
            let apostrophe: Literal = ('"', seq!['\'']);
            let last: Literal = ('\'', all[i as int]);
            let one = sofar.push(apostrophe);
            let two = one.push(last);
            assert(interleaved(next) == two);
            assert(two.drop_last() =~= one);
            assert(one.drop_last() =~= sofar);
            assert(list_text(one) == list_text(sofar) + ", "@ + literal_text(apostrophe));
            assert(list_text(two) == list_text(one) + ", "@ + literal_text(last));
            assert(out@ =~= before + list_text(interleaved(next)));
        }
        i = i + 1;
    }
    assert(all.take(i as int) =~= all);
}

/// Renders text as a string literal of the selector language, or, where it holds both
/// kinds of quotes, as a `concat(...)` of such literals.
pub fn xpath_literal(s: &str) -> (r: String)
    ensures
        r@ == expression(literals_for(s@)),
{
    let cs = chars_of(s);
    let single = holds_char(&cs, '\'');
    let double = holds_char(&cs, '"');
    let mut out = String::new();
    if !single {
        push_quoted(&mut out, '\'', s);
        assert(out@ =~= literal_text(('\'', s@)));
        return out;
    }
    if !double {
        push_quoted(&mut out, '"', s);
        assert(out@ =~= literal_text(('"', s@)));
        return out;
    }
    let parts = split_at_char(&cs, '\'');
    let ghost all = text::pieces(s@, '\'');
    proof {
        text::lemma_pieces_nonempty(s@, '\'');
        lemma_interleaved(all);
        lemma_more_than_one_piece(s@);
    }
    let mut out = "concat(".to_string();
    push_pieces(&mut out, &parts, Ghost(all));
    out.append(")");
    out
}

proof fn lemma_more_than_one_piece(s: Seq<char>)
    requires
        s.contains('\''),
    ensures
        text::pieces(s, '\'').len() > 1,
    decreases s.len(),
{
    text::lemma_pieces_nonempty(s, '\'');
    if s.len() > 0 {
        text::lemma_pieces_nonempty(s.drop_last(), '\'');
        if s.last() != '\'' {
            let k = choose|k: int| 0 <= k < s.len() && s[k] == '\'';
            assert(s.drop_last()[k] == '\'');
            lemma_more_than_one_piece(s.drop_last());
        }
    }
}

/// The selector of the elements with this toolkit id.
pub open spec fn by_id(id: Seq<char>) -> Seq<char> {
    "//*[@id="@ + expression(literals_for(id)) + "]"@
}

/// The selector of the elements with this accessible name.
pub open spec fn by_name(name: Seq<char>) -> Seq<char> {
    "//*[@name="@ + expression(literals_for(name)) + "]"@
}

/// The selector of the elements with this tag and accessible name.
pub open spec fn by_role_name(role: Seq<char>, name: Seq<char>) -> Seq<char> {
    "//"@ + role + "[@name="@ + expression(literals_for(name)) + "]"@
}

/// The selector of the elements with this toolkit id.
pub fn find_by_id_xpath(id: &str) -> (r: String)
    ensures
        r@ == by_id(id@),
{
    let mut s = "//*[@id=".to_string();
    s.append(xpath_literal(id).as_str());
    s.append("]");
    s
}

/// The selector of the elements with this accessible name.
pub fn find_by_name_xpath(name: &str) -> (r: String)
    ensures
        r@ == by_name(name@),
{
    let mut s = "//*[@name=".to_string();
    s.append(xpath_literal(name).as_str());
    s.append("]");
    s
}

/// The selector of the elements with this tag and accessible name.
pub fn find_by_role_name_xpath(role: &str, name: &str) -> (r: String)
    ensures
        r@ == by_role_name(role@, name@),
{
    let mut s = "//".to_string();
    s.append(role);
    s.append("[@name=");
    s.append(xpath_literal(name).as_str());
    s.append("]");
    s
}

// ── Laws ────────────────────────────────────────────────────────────────────

/// The pieces with an apostrophe between any two.
spec fn glued(pieces: Seq<Seq<char>>) -> Seq<char>
    decreases pieces.len(),
{
    if pieces.len() == 0 {
        seq![]
    } else if pieces.len() == 1 {
        pieces[0]
    } else {
        glued(pieces.drop_last()) + seq!['\''] + pieces.last()
    }
}

proof fn lemma_glued_push(front: Seq<Seq<char>>, last: Seq<char>, c: char)
    ensures
        glued(front.push(last.push(c))) == glued(front.push(last)).push(c),
{
    assert(front.push(last.push(c)).drop_last() =~= front);
    assert(front.push(last).drop_last() =~= front);
    if front.len() > 0 {
        assert(glued(front) + seq!['\''] + last.push(c) =~= (glued(front) + seq!['\'']
            + last).push(c));
    }
}

proof fn lemma_pieces_glue(s: Seq<char>)
    ensures
        glued(text::pieces(s, '\'')) == s,
        forall|i: int|
            0 <= i < text::pieces(s, '\'').len() ==> !(#[trigger] text::pieces(
                s,
                '\'',
            )[i]).contains('\''),
    decreases s.len(),
{
    let p = text::pieces(s, '\'');
    if s.len() == 0 {
        assert(p =~= seq![Seq::<char>::empty()]);
        assert(glued(p) =~= s);
    } else {
        let t = s.drop_last();
        let f = text::pieces(t, '\'');
        lemma_pieces_glue(t);
        text::lemma_pieces_nonempty(t, '\'');
        assert(s =~= t.push(s.last()));
        if s.last() == '\'' {
            assert(p == f.push(Seq::empty()));
            assert(p.drop_last() =~= f);
            assert(glued(p) =~= glued(f) + seq!['\''] + Seq::<char>::empty());
            assert(glued(p) =~= s);
            assert forall|i: int| 0 <= i < p.len() implies !(#[trigger] p[i]).contains('\'') by {
                if i < f.len() {
                    assert(p[i] == f[i]);
                }
            }
        } else {
            let front = f.drop_last();
            assert(f =~= front.push(f.last()));
            lemma_glued_push(front, f.last(), s.last());
            assert forall|i: int| 0 <= i < p.len() implies !(#[trigger] p[i]).contains('\'') by {
                if i < front.len() {
                    assert(p[i] == f[i]);
                } else {
                    assert(p[i] == f.last().push(s.last()));
                    assert(!f[f.len() - 1].contains('\''));
                    assert forall|k: int| 0 <= k < p[i].len() implies p[i][k] != '\'' by {
                        if k < f.last().len() {
                            assert(f.last().contains(f.last()[k]));
                        }
                    }
                }
            }
        }
    }
}

proof fn lemma_interleaved_denotes(pieces: Seq<Seq<char>>)
    requires
        forall|i: int| 0 <= i < pieces.len() ==> !(#[trigger] pieces[i]).contains('\''),
    ensures
        denoted(interleaved(pieces)) == glued(pieces),
        forall|i: int|
            0 <= i < interleaved(pieces).len() ==> sound(#[trigger] interleaved(pieces)[i]),
    decreases pieces.len(),
{
    let l = interleaved(pieces);
    if pieces.len() == 1 {
        assert(l.drop_last() =~= Seq::<Literal>::empty());
        assert(denoted(l.drop_last()) =~= Seq::<char>::empty());
        assert(denoted(l) =~= pieces[0]);
    } else if pieces.len() > 1 {
        let front = pieces.drop_last();
        assert forall|i: int| 0 <= i < front.len() implies !(#[trigger] front[i]).contains(
            '\'',
        ) by {
            assert(front[i] == pieces[i]);
        }
        lemma_interleaved_denotes(front);
        let f = interleaved(front);
        let apostrophe: Literal = ('"', seq!['\'']);
        let one = f.push(apostrophe);
        assert(l.drop_last() =~= one);
        assert(one.drop_last() =~= f);
        assert(denoted(one) == denoted(f) + seq!['\'']);
        assert(denoted(l) == denoted(one) + pieces.last());
        assert forall|i: int| 0 <= i < l.len() implies sound(#[trigger] l[i]) by {
            if i < f.len() {
                assert(l[i] == f[i]);
            } else if i == f.len() {
                assert(l[i] == apostrophe);
            } else {
                assert(l[i] == ('\'', pieces.last()));
                assert(!pieces[pieces.len() - 1].contains('\''));
            }
        }
    }
}

/// The literal for a text denotes that text, whatever quotes it holds, and each of its
/// parts ends where it is meant to.
pub proof fn law_literal_denotes_text(s: Seq<char>)
    ensures
        denoted(literals_for(s)) == s,
        forall|i: int| 0 <= i < literals_for(s).len() ==> sound(#[trigger] literals_for(s)[i]),
        literals_for(s).len() > 0,
{
    let l = literals_for(s);
    if !s.contains('\'') || !s.contains('"') {
        assert(l.drop_last() =~= Seq::<Literal>::empty());
        assert(denoted(l.drop_last()) =~= Seq::<char>::empty());
        assert(denoted(l) =~= s);
    } else {
        lemma_pieces_glue(s);
        lemma_interleaved_denotes(text::pieces(s, '\''));
        text::lemma_pieces_nonempty(s, '\'');
        lemma_interleaved(text::pieces(s, '\''));
    }
}

/// Whether a text opens no string literal that it does not close, and has its colons
/// in string literals only.
pub open spec fn self_contained(t: Seq<char>) -> bool {
    &&& query::literal_at(t, t.len() as int) is None
    &&& forall|i: int|
        0 <= i < t.len() && t[i] == ':' ==> #[trigger] query::literal_at(t, i) is Some
}

proof fn lemma_literal_at_front(a: Seq<char>, b: Seq<char>, i: int)
    requires
        0 <= i <= a.len(),
    ensures
        query::literal_at(a + b, i) == query::literal_at(a, i),
    decreases i,
{
    if i > 0 {
        lemma_literal_at_front(a, b, i - 1);
        assert((a + b)[i - 1] == a[i - 1]);
    }
}

proof fn lemma_literal_at_back(a: Seq<char>, b: Seq<char>, j: int)
    requires
        0 <= j <= b.len(),
        query::literal_at(a, a.len() as int) is None,
    ensures
        query::literal_at(a + b, a.len() + j) == query::literal_at(b, j),
    decreases j,
{
    if j > 0 {
        lemma_literal_at_back(a, b, j - 1);
        assert((a + b)[a.len() + j - 1] == b[j - 1]);
    } else {
        lemma_literal_at_front(a, b, a.len() as int);
    }
}

proof fn lemma_self_contained_sum(a: Seq<char>, b: Seq<char>)
    requires
        self_contained(a),
        self_contained(b),
    ensures
        self_contained(a + b),
{
    let t = a + b;
    lemma_literal_at_back(a, b, b.len() as int);
    assert forall|i: int| 0 <= i < t.len() && t[i] == ':' implies #[trigger] query::literal_at(
        t,
        i,
    ) is Some by {
        if i < a.len() {
            lemma_literal_at_front(a, b, i);
            assert(query::literal_at(a, i) is Some);
        } else {
            lemma_literal_at_back(a, b, i - a.len());
            assert(query::literal_at(b, i - a.len()) is Some);
        }
    }
}

proof fn lemma_plain_is_self_contained(t: Seq<char>)
    requires
        forall|i: int| 0 <= i < t.len() ==> #[trigger] t[i] != '"' && t[i] != '\'' && t[i] != ':',
    ensures
        self_contained(t),
{
    lemma_plain_literal(t, t.len() as int);
}

proof fn lemma_plain_literal(t: Seq<char>, n: int)
    requires
        0 <= n <= t.len(),
        forall|i: int| 0 <= i < n ==> #[trigger] t[i] != '"' && t[i] != '\'',
    ensures
        query::literal_at(t, n) is None,
    decreases n,
{
    if n > 0 {
        lemma_plain_literal(t, n - 1);
        assert(t[n - 1] != '"');
    }
}

proof fn lemma_inside_literal(l: Literal, i: int)
    requires
        sound(l),
        l.0 == '"' || l.0 == '\'',
        1 <= i <= l.1.len() + 1,
    ensures
        query::literal_at(literal_text(l), i) == Some(l.0),
    decreases i,
{
    let t = literal_text(l);
    assert(t[0] == l.0);
    if i == 1 {
        assert(query::literal_at(t, 0) is None);
    } else {
        lemma_inside_literal(l, i - 1);
        assert(t[i - 1] == l.1[i - 2]);
        assert(l.1.contains(l.1[i - 2]));
    }
}

proof fn lemma_literal_is_self_contained(l: Literal)
    requires
        sound(l),
        l.0 == '"' || l.0 == '\'',
    ensures
        self_contained(literal_text(l)),
{
    let t = literal_text(l);
    let n = t.len() as int;
    lemma_inside_literal(l, n - 1);
    assert(t[n - 1] == l.0);
    assert forall|i: int| 0 <= i < t.len() && t[i] == ':' implies #[trigger] query::literal_at(
        t,
        i,
    ) is Some by {
        assert(t[0] == l.0);
        lemma_inside_literal(l, i);
    }
}

spec fn well_quoted(literals: Seq<Literal>) -> bool {
    forall|i: int|
        0 <= i < literals.len() ==> sound(#[trigger] literals[i]) && (literals[i].0 == '"'
            || literals[i].0 == '\'')
}

proof fn lemma_list_is_self_contained(literals: Seq<Literal>)
    requires
        well_quoted(literals),
    ensures
        self_contained(list_text(literals)),
    decreases literals.len(),
{
    reveal_strlit(", ");
    if literals.len() == 1 {
        lemma_literal_is_self_contained(literals[0]);
    } else if literals.len() > 1 {
        let front = literals.drop_last();
        assert forall|i: int| 0 <= i < front.len() implies sound(#[trigger] front[i]) && (
        front[i].0 == '"' || front[i].0 == '\'') by {
            assert(front[i] == literals[i]);
        }
        lemma_list_is_self_contained(front);
        lemma_plain_is_self_contained(", "@);
        lemma_literal_is_self_contained(literals[literals.len() - 1]);
        lemma_self_contained_sum(list_text(front), ", "@);
        lemma_self_contained_sum(list_text(front) + ", "@, literal_text(literals.last()));
    }
}

proof fn lemma_interleaved_quotes(pieces: Seq<Seq<char>>)
    ensures
        forall|i: int|
            0 <= i < interleaved(pieces).len() ==> (#[trigger] interleaved(pieces)[i]).0 == '"'
                || interleaved(pieces)[i].0 == '\'',
    decreases pieces.len(),
{
    if pieces.len() > 1 {
        let front = pieces.drop_last();
        lemma_interleaved_quotes(front);
        let l = interleaved(pieces);
        assert forall|i: int| 0 <= i < l.len() implies (#[trigger] l[i]).0 == '"' || l[i].0
            == '\'' by {
            if i < interleaved(front).len() {
                assert(l[i] == interleaved(front)[i]);
            }
        }
    }
}

proof fn lemma_expression_is_self_contained(s: Seq<char>)
    ensures
        self_contained(expression(literals_for(s))),
{
    reveal_strlit("concat(");
    reveal_strlit(")");
    let l = literals_for(s);
    law_literal_denotes_text(s);
    if s.contains('\'') && s.contains('"') {
        lemma_interleaved_quotes(text::pieces(s, '\''));
    }
    assert(well_quoted(l));
    if l.len() == 1 {
        lemma_literal_is_self_contained(l[0]);
    } else {
        lemma_list_is_self_contained(l);
        lemma_plain_is_self_contained("concat("@);
        lemma_plain_is_self_contained(")"@);
        lemma_self_contained_sum("concat("@, list_text(l));
        lemma_self_contained_sum("concat("@ + list_text(l), ")"@);
    }
}

proof fn lemma_self_contained_has_no_prefix(t: Seq<char>)
    requires
        self_contained(t),
    ensures
        !query::uses_prefix(t),
{
    assert forall|i: int| !query::prefix_at(t, i) by {
        if 0 <= i < t.len() && t[i] == ':' {
            assert(query::literal_at(t, i) is Some);
        }
    }
}

/// A lookup by id or name never tests for a namespace prefix, whatever characters the
/// id or the name holds.
pub proof fn law_lookup_has_no_prefix(value: Seq<char>)
    ensures
        !query::uses_prefix(by_id(value)),
        !query::uses_prefix(by_name(value)),
{
    reveal_strlit("//*[@id=");
    reveal_strlit("//*[@name=");
    reveal_strlit("]");
    let e = expression(literals_for(value));
    lemma_expression_is_self_contained(value);
    lemma_plain_is_self_contained("//*[@id="@);
    lemma_plain_is_self_contained("//*[@name="@);
    lemma_plain_is_self_contained("]"@);
    lemma_self_contained_sum("//*[@id="@, e);
    lemma_self_contained_sum("//*[@id="@ + e, "]"@);
    lemma_self_contained_sum("//*[@name="@, e);
    lemma_self_contained_sum("//*[@name="@ + e, "]"@);
    lemma_self_contained_has_no_prefix(by_id(value));
    lemma_self_contained_has_no_prefix(by_name(value));
}

/// A lookup by tag and name tests for no namespace prefix where the tag itself has
/// neither colons nor quotes.
pub proof fn law_role_lookup_has_no_prefix(role: Seq<char>, name: Seq<char>)
    requires
        forall|i: int|
            0 <= i < role.len() ==> #[trigger] role[i] != '"' && role[i] != '\'' && role[i] != ':',
    ensures
        !query::uses_prefix(by_role_name(role, name)),
{
    reveal_strlit("//");
    reveal_strlit("[@name=");
    reveal_strlit("]");
    let e = expression(literals_for(name));
    lemma_expression_is_self_contained(name);
    lemma_plain_is_self_contained("//"@);
    lemma_plain_is_self_contained(role);
    lemma_plain_is_self_contained("[@name="@);
    lemma_plain_is_self_contained("]"@);
    lemma_self_contained_sum("//"@, role);
    lemma_self_contained_sum("//"@ + role, "[@name="@);
    lemma_self_contained_sum("//"@ + role + "[@name="@, e);
    lemma_self_contained_sum("//"@ + role + "[@name="@ + e, "]"@);
    lemma_self_contained_has_no_prefix(by_role_name(role, name));
}

// ── Reproducible lookups ────────────────────────────────────────────────────

/// Whether the only function that a text calls outside of literals has a name that ends
/// in `t`.
spec fn calls_concat(t: Seq<char>) -> bool {
    forall|i: int|
        0 <= i < t.len() && t[i] == '(' && #[trigger] query::literal_at(t, i) is None ==> i > 0
            && t[i - 1] == 't'
}

proof fn lemma_calls_concat_sum(a: Seq<char>, b: Seq<char>)
    requires
        self_contained(a),
        calls_concat(a),
        calls_concat(b),
    ensures
        calls_concat(a + b),
{
    let t = a + b;
    assert forall|i: int|
        0 <= i < t.len() && t[i] == '(' && #[trigger] query::literal_at(
            t,
            i,
        ) is None implies i > 0 && t[i - 1] == 't' by {
        if i < a.len() {
            lemma_literal_at_front(a, b, i);
            assert(query::literal_at(a, i) is None);
        } else {
            lemma_literal_at_back(a, b, i - a.len());
            assert(query::literal_at(b, i - a.len()) is None);
        }
    }
}

proof fn lemma_literal_calls_nothing(l: Literal)
    requires
        sound(l),
        l.0 == '"' || l.0 == '\'',
    ensures
        calls_concat(literal_text(l)),
{
    let t = literal_text(l);
    assert forall|i: int|
        0 <= i < t.len() && t[i] == '(' && #[trigger] query::literal_at(
            t,
            i,
        ) is None implies i > 0 && t[i - 1] == 't' by {
        assert(t[0] == l.0);
        lemma_inside_literal(l, i);
    }
}

proof fn lemma_list_calls_nothing(literals: Seq<Literal>)
    requires
        well_quoted(literals),
    ensures
        calls_concat(list_text(literals)),
    decreases literals.len(),
{
    reveal_strlit(", ");
    if literals.len() == 1 {
        lemma_literal_calls_nothing(literals[0]);
    } else if literals.len() > 1 {
        let front = literals.drop_last();
        assert forall|i: int| 0 <= i < front.len() implies sound(#[trigger] front[i]) && (
        front[i].0 == '"' || front[i].0 == '\'') by {
            assert(front[i] == literals[i]);
        }
        lemma_list_calls_nothing(front);
        lemma_list_is_self_contained(front);
        lemma_literal_calls_nothing(literals[literals.len() - 1]);
        lemma_plain_is_self_contained(", "@);
        lemma_calls_concat_sum(list_text(front), ", "@);
        lemma_self_contained_sum(list_text(front), ", "@);
        lemma_calls_concat_sum(list_text(front) + ", "@, literal_text(literals.last()));
    }
}

proof fn lemma_expression_calls_concat(s: Seq<char>)
    ensures
        calls_concat(expression(literals_for(s))),
{
    reveal_strlit("concat(");
    reveal_strlit(")");
    let l = literals_for(s);
    law_literal_denotes_text(s);
    if s.contains('\'') && s.contains('"') {
        lemma_interleaved_quotes(text::pieces(s, '\''));
    }
    assert(well_quoted(l));
    if l.len() == 1 {
        lemma_literal_calls_nothing(l[0]);
    } else {
        lemma_list_calls_nothing(l);
        lemma_list_is_self_contained(l);
        lemma_plain_is_self_contained("concat("@);
        lemma_calls_concat_sum("concat("@, list_text(l));
        lemma_self_contained_sum("concat("@, list_text(l));
        lemma_calls_concat_sum("concat("@ + list_text(l), ")"@);
    }
}

proof fn lemma_outside_throughout(t: Seq<char>, i: int, n: int)
    requires
        0 <= i <= n <= t.len(),
        query::literal_at(t, i) is None,
        forall|k: int| i <= k < n ==> #[trigger] t[k] != '"' && t[k] != '\'',
    ensures
        query::literal_at(t, n) is None,
    decreases n - i,
{
    if i < n {
        lemma_outside_throughout(t, i, n - 1);
        assert(t[n - 1] != '"');
    }
}

proof fn lemma_word_is_outside(t: Seq<char>, word: Seq<char>, at: int)
    requires
        query::outside_literals(t, word),
        0 <= at < word.len(),
        forall|k: int| 0 <= k < word.len() ==> #[trigger] word[k] != '"' && word[k] != '\'',
    ensures
        exists|i: int|
            {
                &&& 0 <= i && i + word.len() <= t.len()
                &&& #[trigger] t.subrange(i, i + word.len()) == word
                &&& query::literal_at(t, i + at) is None
            },
{
    let i = choose|i: int|
        0 <= i && i + word.len() <= t.len() && query::literal_at(t, i) is None
            && #[trigger] t.subrange(i, i + word.len()) == word;
    assert forall|k: int| i <= k < i + at implies #[trigger] t[k] != '"' && t[k] != '\'' by {
        assert(t.subrange(i, i + word.len())[k - i] == t[k]);
        assert(word[k - i] != '"');
    }
    lemma_outside_throughout(t, i, i + at);
}

proof fn lemma_quiet_is_reproducible(xml: Seq<char>, t: Seq<char>)
    requires
        self_contained(t),
        calls_concat(t),
    ensures
        query::reproducible(xml, t),
{
    reveal_strlit("sum(");
    reveal_strlit("name(");
    reveal_strlit("namespace::");
    if query::outside_literals(t, "sum("@) {
        lemma_word_is_outside(t, "sum("@, 3);
        let i = choose|i: int|
            0 <= i && i + 4 <= t.len() && #[trigger] t.subrange(i, i + 4) == "sum("@
                && query::literal_at(t, i + 3) is None;
        assert(t.subrange(i, i + 4)[3] == t[i + 3] && t.subrange(i, i + 4)[2] == t[i + 2]);
    }
    if query::outside_literals(t, "name("@) {
        lemma_word_is_outside(t, "name("@, 4);
        let i = choose|i: int|
            0 <= i && i + 5 <= t.len() && #[trigger] t.subrange(i, i + 5) == "name("@
                && query::literal_at(t, i + 4) is None;
        assert(t.subrange(i, i + 5)[4] == t[i + 4] && t.subrange(i, i + 5)[3] == t[i + 3]);
    }
    if query::outside_literals(t, "namespace::"@) {
        lemma_word_is_outside(t, "namespace::"@, 9);
        let i = choose|i: int|
            0 <= i && i + 11 <= t.len() && #[trigger] t.subrange(i, i + 11) == "namespace::"@
                && query::literal_at(t, i + 9) is None;
        assert(t.subrange(i, i + 11)[9] == t[i + 9]);
    }
}

/// What a lookup by id or name finds follows from the document alone, whatever
/// characters the id or the name holds.
pub proof fn law_lookup_is_reproducible(xml: Seq<char>, value: Seq<char>)
    ensures
        query::reproducible(xml, by_id(value)),
        query::reproducible(xml, by_name(value)),
{
    reveal_strlit("//*[@id=");
    reveal_strlit("//*[@name=");
    reveal_strlit("]");
    let e = expression(literals_for(value));
    lemma_expression_is_self_contained(value);
    lemma_expression_calls_concat(value);
    lemma_plain_is_self_contained("//*[@id="@);
    lemma_plain_is_self_contained("//*[@name="@);
    lemma_plain_is_self_contained("]"@);
    lemma_self_contained_sum("//*[@id="@, e);
    lemma_self_contained_sum("//*[@id="@ + e, "]"@);
    lemma_self_contained_sum("//*[@name="@, e);
    lemma_self_contained_sum("//*[@name="@ + e, "]"@);
    lemma_calls_concat_sum("//*[@id="@, e);
    lemma_calls_concat_sum("//*[@id="@ + e, "]"@);
    lemma_calls_concat_sum("//*[@name="@, e);
    lemma_calls_concat_sum("//*[@name="@ + e, "]"@);
    lemma_quiet_is_reproducible(xml, by_id(value));
    lemma_quiet_is_reproducible(xml, by_name(value));
}

/// What a lookup by tag and name finds follows from the document alone where the tag
/// itself has neither colons nor quotes nor parentheses.
pub proof fn law_role_lookup_is_reproducible(xml: Seq<char>, role: Seq<char>, name: Seq<char>)
    requires
        forall|i: int|
            0 <= i < role.len() ==> #[trigger] role[i] != '"' && role[i] != '\'' && role[i] != ':'
                && role[i] != '(',
    ensures
        query::reproducible(xml, by_role_name(role, name)),
{
    reveal_strlit("//");
    reveal_strlit("[@name=");
    reveal_strlit("]");
    let e = expression(literals_for(name));
    lemma_expression_is_self_contained(name);
    lemma_expression_calls_concat(name);
    lemma_plain_is_self_contained("//"@);
    lemma_plain_is_self_contained(role);
    lemma_plain_is_self_contained("[@name="@);
    lemma_plain_is_self_contained("]"@);
    lemma_self_contained_sum("//"@, role);
    lemma_self_contained_sum("//"@ + role, "[@name="@);
    lemma_self_contained_sum("//"@ + role + "[@name="@, e);
    lemma_self_contained_sum("//"@ + role + "[@name="@ + e, "]"@);
    lemma_calls_concat_sum("//"@, role);
    lemma_calls_concat_sum("//"@ + role, "[@name="@);
    lemma_calls_concat_sum("//"@ + role + "[@name="@, e);
    lemma_calls_concat_sum("//"@ + role + "[@name="@ + e, "]"@);
    lemma_quiet_is_reproducible(xml, by_role_name(role, name));
}

/// The selector of every element has an answer in any document, which follows from the
/// document alone.
pub proof fn law_whole_tree_is_reproducible(xml: Seq<char>)
    ensures
        query::reproducible(xml, "//*"@),
        query::runnable(xml, "//*"@),
{
    reveal_strlit("//*");
    lemma_plain_is_self_contained("//*"@);
    lemma_quiet_is_reproducible(xml, "//*"@);
    lemma_self_contained_has_no_prefix("//*"@);
}

/// A lookup selects, anywhere in the tree, the elements whose attribute is the text that is
/// looked up: `id` for an id, `name` for a name, and the latter under one tag for a role.
pub proof fn law_lookup_tests_its_attribute(role: Seq<char>, value: Seq<char>)
    ensures
        by_id(value) == "//*[@id="@ + expression(literals_for(value)) + "]"@,
        by_name(value) == "//*[@name="@ + expression(literals_for(value)) + "]"@,
        by_role_name(role, value) == "//"@ + role + "[@name="@ + expression(literals_for(value))
            + "]"@,
        by_role_name("*"@, value) == by_name(value),
{
    reveal_strlit("//");
    reveal_strlit("*");
    reveal_strlit("[@name=");
    reveal_strlit("//*[@name=");
    assert("//"@ + "*"@ + "[@name="@ =~= "//*[@name="@);
    assert(by_role_name("*"@, value) =~= by_name(value));
}

/// A text without apostrophes is written between apostrophes, and one without double quotes
/// between these. Any other is put together from parts in quotes, a comma and a space between
/// two.
pub proof fn law_literals_are_quoted(s: Seq<char>, front: Seq<Literal>, last: Literal)
    ensures
        !s.contains('\'') ==> expression(literals_for(s)) == seq!['\''] + s + seq!['\''],
        s.contains('\'') && !s.contains('"') ==> expression(literals_for(s)) == seq!['"'] + s
            + seq!['"'],
        s.contains('\'') && s.contains('"') ==> expression(literals_for(s)) == "concat("@
            + list_text(literals_for(s)) + ")"@,
        front.len() > 0 ==> list_text(front.push(last)) == list_text(front) + ", "@ + seq![last.0]
            + last.1 + seq![last.0],
        list_text(seq![last]) == seq![last.0] + last.1 + seq![last.0],
{
    if s.contains('\'') && s.contains('"') {
        lemma_more_than_one_piece(s);
        lemma_interleaved(text::pieces(s, '\''));
    }
    if front.len() > 0 {
        let more = front.push(last);
        assert(more.drop_last() =~= front);
        assert(list_text(more) =~= list_text(front) + ", "@ + seq![last.0] + last.1
            + seq![last.0]);
    }
}

} // verus!
