//! Selectors over the accessibility tree, and what a match of one is good for.
//!
//! A [`Locator`] is a selector that is resolved anew at every use: nothing in it is
//! tied to what the tree held when it was made.
use crate::error::{self, Error, ErrorView};
use crate::geometry::Rect;
use crate::query::{self, can_run, evaluate_xpath, evaluate_xpath_detailed, ElementInfo, InfoView};
use crate::snapshot;
use crate::text::{self, chars_of, debug_quoted, decimal_u64, same_text, text_of, trim};
use vstd::prelude::*;
use vstd::string::*;

verus! {

/// How an option of a selection container is named.
#[derive(Debug, Clone, Copy)]
pub enum SelectBy<'a> {
    /// The child with this accessible name, which must be the only one so named.
    Label(&'a str),
    /// The child at this position, counted from 0.
    Index(usize),
}

// ── Selectors ───────────────────────────────────────────────────────────────

/// A selector, with the time that waiting for it may take where it differs from the
/// session's.
#[derive(Debug)]
pub struct Locator {
    xpath: String,
    timeout_ns: Option<u128>,
}

/// The mathematical value of a [`Locator`].
#[verifier::ext_equal]
pub struct LocatorView {
    pub xpath: Seq<char>,
    /// Time limit in nanoseconds.
    pub timeout: Option<nat>,
}

impl View for Locator {
    type V = LocatorView;

    closed spec fn view(&self) -> LocatorView {
        LocatorView {
            xpath: self.xpath@,
            timeout: match self.timeout_ns {
                Some(n) => Some(n as nat),
                None => None,
            },
        }
    }
}

impl Clone for Locator {
    fn clone(&self) -> (r: Self)
        ensures
            r@ == self@,
    {
        Locator { xpath: self.xpath.clone(), timeout_ns: self.timeout_ns }
    }
}

/// The selector `sub` within the matches of `outer`: an absolute one stands for
/// itself, any other selects among the descendants.
pub open spec fn scoped(outer: Seq<char>, sub: Seq<char>) -> Seq<char> {
    let t = text::trimmed(sub);
    if t.len() > 0 && t[0] == '/' {
        t
    } else {
        "("@ + outer + ")//"@ + t
    }
}

/// The selector of the match of `outer` at position `n`, counted from 0.
pub open spec fn nth_of(outer: Seq<char>, n: nat) -> Seq<char> {
    "("@ + outer + ")["@ + text::decimal(n + 1) + "]"@
}

/// The selector of the last match of `outer`.
pub open spec fn last_of(outer: Seq<char>) -> Seq<char> {
    "("@ + outer + ")[last()]"@
}

/// The selector of the parents of the matches of `outer`.
pub open spec fn parent_of(outer: Seq<char>) -> Seq<char> {
    "("@ + outer + ")/.."@
}

/// The selector of the children of the matches of `outer`.
pub open spec fn children_of(outer: Seq<char>) -> Seq<char> {
    "("@ + outer + ")/*"@
}

/// The selector of the ancestors of the matches of `outer`.
pub open spec fn ancestors_of(outer: Seq<char>) -> Seq<char> {
    "("@ + outer + ")/ancestor::*"@
}

fn enclosed(outer: &str, suffix: &str) -> (r: String)
    ensures
        r@ == "("@ + outer@ + suffix@,
{
    let mut s = "(".to_string();
    s.append(outer);
    s.append(suffix);
    s
}

impl Locator {
    /// A locator for `xpath` that waits as long as its session does.
    pub fn new(xpath: &str) -> (r: Self)
        ensures
            r@ == (LocatorView { xpath: xpath@, timeout: None }),
    {
        Locator { xpath: xpath.to_string(), timeout_ns: None }
    }

    /// The selector.
    pub fn xpath(&self) -> (r: &str)
        ensures
            r@ == self@.xpath,
    {
        self.xpath.as_str()
    }

    /// The same locator with a time limit of its own, in nanoseconds. A limit of zero
    /// means a single attempt.
    pub fn with_timeout(&self, timeout_ns: u128) -> (r: Self)
        ensures
            r@ == (LocatorView { timeout: Some(timeout_ns as nat), ..self@ }),
    {
        Locator { xpath: self.xpath.clone(), timeout_ns: Some(timeout_ns) }
    }

    fn with_xpath(&self, xpath: String) -> (r: Self)
        ensures
            r@ == (LocatorView { xpath: xpath@, ..self@ }),
    {
        Locator { xpath, timeout_ns: self.timeout_ns }
    }

    /// Scopes a selector to the matches of this one.
    pub fn locate(&self, sub: &str) -> (r: Self)
        ensures
            r@ == (LocatorView { xpath: scoped(self@.xpath, sub@), ..self@ }),
    {
        let cs = trim(&chars_of(sub));
        let t = text_of(&cs, 0, cs.len());
        assert(t@ =~= text::trimmed(sub@));
        if cs.len() > 0 && cs[0] == '/' {
            self.with_xpath(t)
        } else {
            let mut x = enclosed(self.xpath.as_str(), ")//");
            x.append(t.as_str());
            self.with_xpath(x)
        }
    }

    /// The match at position `n`, counted from 0.
    pub fn nth(&self, n: usize) -> (r: Self)
        requires
            n < usize::MAX,
        ensures
            r@ == (LocatorView { xpath: nth_of(self@.xpath, n as nat), ..self@ }),
    {
        let mut x = enclosed(self.xpath.as_str(), ")[");
        x.append(decimal_u64(n as u64 + 1).as_str());
        x.append("]");
        self.with_xpath(x)
    }

    /// The first match.
    pub fn first(&self) -> (r: Self)
        ensures
            r@ == (LocatorView { xpath: nth_of(self@.xpath, 0), ..self@ }),
    {
        self.nth(0)
    }

    /// The last match.
    pub fn last(&self) -> (r: Self)
        ensures
            r@ == (LocatorView { xpath: last_of(self@.xpath), ..self@ }),
    {
        self.with_xpath(enclosed(self.xpath.as_str(), ")[last()]"))
    }

    /// The parent of each match.
    pub fn parent(&self) -> (r: Self)
        ensures
            r@ == (LocatorView { xpath: parent_of(self@.xpath), ..self@ }),
    {
        self.with_xpath(enclosed(self.xpath.as_str(), ")/.."))
    }

    /// One locator for each of `count` matches, by position.
    pub fn all(&self, count: usize) -> (r: Vec<Self>)
        ensures
            r@.len() == count,
            forall|i: int|
                0 <= i < count ==> (#[trigger] r@[i])@ == (LocatorView {
                    xpath: nth_of(self@.xpath, i as nat),
                    ..self@
                }),
    {
        let mut out: Vec<Self> = Vec::new();
        let mut i: usize = 0;
        while i < count
            invariant
                i <= count,
                out@.len() == i,
                forall|k: int|
                    0 <= k < i ==> (#[trigger] out@[k])@ == (LocatorView {
                        xpath: nth_of(self@.xpath, k as nat),
                        ..self@
                    }),
            decreases count - i,
        {
            out.push(self.nth(i));
            i = i + 1;
        }
        out
    }

    /// How long waiting for this locator may take, given the session's limit.
    pub fn effective_timeout(&self, session_ns: u64) -> (r: u128)
        ensures
            r == (match self@.timeout {
                Some(n) => n,
                None => session_ns as nat,
            }),
            r == limit_of(self@.timeout, session_ns as nat),
    {
        match self.timeout_ns {
            Some(n) => n,
            None => session_ns as u128,
        }
    }
}

// ── Composed selectors and prefixes ─────────────────────────────────────────

/// Whether every colon in `t` stands next to another.
spec fn paired_colons(t: Seq<char>) -> bool {
    forall|j: int|
        0 <= j < t.len() && #[trigger] t[j] == ':' ==> (j > 0 && t[j - 1] == ':') || (j + 1
            < t.len() && t[j + 1] == ':')
}

proof fn lemma_enclosed_literal(s: Seq<char>, t: Seq<char>, i: int)
    requires
        0 <= i <= s.len(),
    ensures
        query::literal_at("("@ + s + t, i + 1) == query::literal_at(s, i),
    decreases i,
{
    reveal_strlit("(");
    let e = "("@ + s + t;
    if i > 0 {
        lemma_enclosed_literal(s, t, i - 1);
        assert(e[i] == s[i - 1]);
    } else {
        assert(e[0] == '(');
        assert(query::literal_at(e, 0) is None);
    }
}

proof fn lemma_enclosed_call(s: Seq<char>, t: Seq<char>, i: int)
    requires
        0 <= i <= s.len(),
        t.len() > 0,
        t[0] == ')',
    ensures
        query::calls("("@ + s + t, i + 1) == query::calls(s, i),
    decreases s.len() - i,
{
    reveal_strlit("(");
    let e = "("@ + s + t;
    if i < s.len() {
        assert(e[i + 1] == s[i]);
        lemma_enclosed_call(s, t, i + 1);
    } else {
        assert(e[i + 1] == ')');
    }
}

proof fn lemma_enclosed_variable(s: Seq<char>, t: Seq<char>, i: int)
    requires
        0 <= i <= s.len(),
    ensures
        query::names_variable("("@ + s + t, i + 1) == query::names_variable(s, i),
    decreases i,
{
    reveal_strlit("(");
    let e = "("@ + s + t;
    if i > 0 {
        assert(e[i] == s[i - 1]);
        lemma_enclosed_variable(s, t, i - 1);
    } else {
        assert(e[0] == '(');
    }
}

proof fn lemma_enclosed_prefix(s: Seq<char>, t: Seq<char>)
    requires
        t.len() > 0,
        t[0] == ')',
        paired_colons(t),
    ensures
        query::uses_prefix("("@ + s + t) == query::uses_prefix(s),
{
    reveal_strlit("(");
    let e = "("@ + s + t;
    let n = s.len() as int;
    assert forall|i: int| 0 <= i < n implies query::prefix_at(e, i + 1) == query::prefix_at(
        s,
        i,
    ) by {
        lemma_enclosed_literal(s, t, i);
        lemma_enclosed_call(s, t, i + 1);
        lemma_enclosed_variable(s, t, i);
        assert(e[i + 1] == s[i]);
        if i > 0 {
            assert(e[i] == s[i - 1]);
        } else {
            assert(e[i] == '(');
        }
        if i + 1 < n {
            assert(e[i + 2] == s[i + 1]);
        } else {
            assert(e[i + 2] == ')');
        }
    }
    if query::uses_prefix(s) {
        let i = choose|i: int| query::prefix_at(s, i);
        assert(query::prefix_at(e, i + 1));
    }
    if query::uses_prefix(e) {
        let k = choose|k: int| query::prefix_at(e, k);
        if k == 0 {
            assert(e[0] == '(');
        } else if k <= n {
            assert(query::prefix_at(s, k - 1));
        } else {
            let j = k - n - 1;
            assert(e[k] == t[j]);
            if j > 0 {
                assert(e[k - 1] == t[j - 1]);
            }
            if j + 1 < t.len() {
                assert(e[k + 1] == t[j + 1]);
            }
        }
    }
}

/// The derived selectors use a namespace prefix if and only if the selector they are
/// made from does.
pub proof fn law_derived_selectors_keep_prefixes(outer: Seq<char>)
    ensures
        query::uses_prefix(children_of(outer)) == query::uses_prefix(outer),
        query::uses_prefix(ancestors_of(outer)) == query::uses_prefix(outer),
        query::uses_prefix(parent_of(outer)) == query::uses_prefix(outer),
        query::uses_prefix(last_of(outer)) == query::uses_prefix(outer),
{
    reveal_strlit(")/*");
    reveal_strlit(")/ancestor::*");
    reveal_strlit(")/..");
    reveal_strlit(")[last()]");
    lemma_enclosed_prefix(outer, ")/*"@);
    lemma_enclosed_prefix(outer, ")/ancestor::*"@);
    lemma_enclosed_prefix(outer, ")/.."@);
    lemma_enclosed_prefix(outer, ")[last()]"@);
}

proof fn lemma_enclosed_word(s: Seq<char>, t: Seq<char>, word: Seq<char>)
    requires
        t.len() > 0,
        t[0] == ')',
        word.len() > 1,
        word[0] != '(',
        !word.contains(')'),
        forall|j: int|
            0 <= j && j + 1 < t.len() && #[trigger] t[j] == word[0] ==> t[j + 1] != word[1],
        query::outside_literals("("@ + s + t, word),
    ensures
        query::outside_literals(s, word),
{
    reveal_strlit("(");
    let e = "("@ + s + t;
    let n = s.len() as int;
    let k = choose|k: int|
        0 <= k && k + word.len() <= e.len() && query::literal_at(e, k) is None
            && #[trigger] e.subrange(k, k + word.len()) == word;
    let here = e.subrange(k, k + word.len());
    assert(here[0] == e[k] && here[1] == e[k + 1]);
    if k > n {
        assert(e[k] == t[k - n - 1] && e[k + 1] == t[k - n]);
    } else if k + word.len() > n + 1 {
        assert(here[n + 1 - k] == e[n + 1] && e[n + 1] == ')');
    } else {
        assert(k > 0);
        lemma_enclosed_literal(s, t, k - 1);
        assert(s.subrange(k - 1, k - 1 + word.len()) =~= here);
    }
}

proof fn lemma_enclosed_reproducible(xml: Seq<char>, s: Seq<char>, t: Seq<char>)
    requires
        t.len() > 0,
        t[0] == ')',
        forall|j: int|
            0 <= j && j + 1 < t.len() ==> (#[trigger] t[j] == 's' ==> t[j + 1] != 'u') && (t[j] == 'n'
                ==> t[j + 1] != 'a'),
        query::reproducible(xml, s),
    ensures
        query::reproducible(xml, "("@ + s + t),
{
    reveal_strlit("sum(");
    reveal_strlit("name(");
    reveal_strlit("namespace::");
    let e = "("@ + s + t;
    if query::outside_literals(e, "sum("@) {
        lemma_enclosed_word(s, t, "sum("@);
    }
    if query::outside_literals(e, "name("@) {
        lemma_enclosed_word(s, t, "name("@);
    }
    if query::outside_literals(e, "namespace::"@) {
        lemma_enclosed_word(s, t, "namespace::"@);
    }
}

/// Where what a selector matches follows from the document alone, so does what the
/// selectors made from it match.
pub proof fn law_derived_selectors_stay_reproducible(xml: Seq<char>, outer: Seq<char>)
    requires
        query::reproducible(xml, outer),
    ensures
        query::reproducible(xml, children_of(outer)),
        query::reproducible(xml, ancestors_of(outer)),
        query::reproducible(xml, parent_of(outer)),
        query::reproducible(xml, last_of(outer)),
{
    reveal_strlit(")/*");
    reveal_strlit(")/ancestor::*");
    reveal_strlit(")/..");
    reveal_strlit(")[last()]");
    lemma_enclosed_reproducible(xml, outer, ")/*"@);
    lemma_enclosed_reproducible(xml, outer, ")/ancestor::*"@);
    lemma_enclosed_reproducible(xml, outer, ")/.."@);
    lemma_enclosed_reproducible(xml, outer, ")[last()]"@);
}

// ── One match ───────────────────────────────────────────────────────────────

/// What a number of matches means to a caller that needs exactly one.
pub open spec fn exactly_one(xpath: Seq<char>, count: nat) -> Result<(), ErrorView> {
    if count == 0 {
        Err(ErrorView::ElementNotFound { xpath })
    } else if count == 1 {
        Ok(())
    } else {
        Err(ErrorView::AmbiguousSelector { xpath, count })
    }
}

/// Checks that a selector matched exactly one element.
pub fn select_exactly_one(xpath: &str, count: usize) -> (r: Result<(), Error>)
    ensures
        error::outcome(r) == exactly_one(xpath@, count as nat),
{
    if count == 0 {
        Err(Error::ElementNotFound { xpath: xpath.to_string() })
    } else if count == 1 {
        Ok(())
    } else {
        Err(Error::AmbiguousSelector { xpath: xpath.to_string(), count })
    }
}

/// The only one of the matches of a selector.
pub open spec fn only_one(xpath: Seq<char>, hits: Seq<InfoView>) -> Result<InfoView, ErrorView> {
    match exactly_one(xpath, hits.len()) {
        Ok(_) => Ok(hits[0]),
        Err(e) => Err(e),
    }
}

/// A result with its element and its error taken by their mathematical values.
pub open spec fn info_outcome(r: Result<ElementInfo, Error>) -> Result<InfoView, ErrorView> {
    match r {
        Ok(i) => Ok(i@),
        Err(e) => Err(e@),
    }
}

/// The only one of the matches of a selector.
pub fn sole_match(xpath: &str, hits: Vec<ElementInfo>) -> (r: Result<ElementInfo, Error>)
    ensures
        info_outcome(r) == only_one(xpath@, query::infos(hits@)),
{
    let mut hits = hits;
    match select_exactly_one(xpath, hits.len()) {
        Ok(_) => Ok(hits.remove(0)),
        Err(e) => Err(e),
    }
}

/// Whether `r` is what describing the matches of a selector can come to.
pub open spec fn described_answer(
    xml: Seq<char>,
    xpath: Seq<char>,
    r: Result<Seq<InfoView>, ErrorView>,
) -> bool {
    query::query_answer(
        xml,
        xpath,
        r,
        |nodes: Seq<Option<query::ElementNode>>| query::described_all(nodes),
    )
}

/// Whether `r` is what identifying the matches of a selector can come to.
pub open spec fn identified_answer(
    xml: Seq<char>,
    xpath: Seq<char>,
    r: Result<Seq<(Seq<char>, Seq<char>)>, ErrorView>,
) -> bool {
    query::query_answer(
        xml,
        xpath,
        r,
        |nodes: Seq<Option<query::ElementNode>>| query::identities(nodes),
    )
}

/// A result with its elements and its error taken by their mathematical values.
pub open spec fn infos_outcome(r: Result<Vec<ElementInfo>, Error>) -> Result<
    Seq<InfoView>,
    ErrorView,
> {
    match r {
        Ok(v) => Ok(query::infos(v@)),
        Err(e) => Err(e@),
    }
}

/// Whether `r` is what counting the matches of a selector can come to.
pub open spec fn counted_answer(
    xml: Seq<char>,
    xpath: Seq<char>,
    r: Result<usize, Error>,
) -> bool {
    exists|found: Result<Seq<(Seq<char>, Seq<char>)>, ErrorView>|
        {
            &&& #[trigger] identified_answer(xml, xpath, found)
            &&& match found {
                Ok(ids) => r matches Ok(n) && n == ids.len(),
                Err(e) => r matches Err(f) && f@ == e,
            }
        }
}

/// Whether `r` is what looking for the only match of a selector can come to.
pub open spec fn sole_answer(
    xml: Seq<char>,
    xpath: Seq<char>,
    r: Result<InfoView, ErrorView>,
) -> bool {
    exists|hits: Result<Seq<InfoView>, ErrorView>|
        {
            &&& #[trigger] described_answer(xml, xpath, hits)
            &&& r == (match hits {
                Ok(h) => only_one(xpath, h),
                Err(e) => Err(e),
            })
        }
}

impl Locator {
    /// How many elements of a snapshot this locator matches.
    pub fn count(&self, xml: &str) -> (r: Result<usize, Error>)
        requires
            query::runnable(xml@, self@.xpath),
        ensures
            counted_answer(xml@, self@.xpath, r),
    {
        match evaluate_xpath(xml, self.xpath.as_str()) {
            Ok(v) => {
                let ghost found: Result<Seq<(Seq<char>, Seq<char>)>, ErrorView> = Ok(
                    snapshot::keys_of(v@),
                );
                assert(identified_answer(xml@, self@.xpath, found));
                Ok(v.len())
            },
            Err(e) => {
                let ghost found: Result<Seq<(Seq<char>, Seq<char>)>, ErrorView> = Err(e@);
                assert(identified_answer(xml@, self@.xpath, found));
                Err(e)
            },
        }
    }

    /// The metadata of every element of a snapshot that this locator matches.
    pub fn inspect_all(&self, xml: &str) -> (r: Result<Vec<ElementInfo>, Error>)
        requires
            query::runnable(xml@, self@.xpath),
        ensures
            described_answer(xml@, self@.xpath, infos_outcome(r)),
    {
        evaluate_xpath_detailed(xml, self.xpath.as_str())
    }

    /// The only element of a snapshot that this locator matches.
    pub fn resolve_once_info(&self, xml: &str) -> (r: Result<ElementInfo, Error>)
        requires
            query::runnable(xml@, self@.xpath),
        ensures
            sole_answer(xml@, self@.xpath, info_outcome(r)),
    {
        let hits = self.inspect_all(xml);
        let ghost found = infos_outcome(hits);
        assert(described_answer(xml@, self@.xpath, found));
        match hits {
            Ok(h) => sole_match(self.xpath.as_str(), h),
            Err(e) => Err(e),
        }
    }
}

// ── States ──────────────────────────────────────────────────────────────────

/// Whether a state is among the names of the set ones.
pub open spec fn carries(states: Seq<Seq<char>>, state: Seq<char>) -> bool {
    states.contains(state)
}

/// Whether the names of the set states hold `state`.
pub fn has_state(states: &[String], state: &str) -> (r: bool)
    ensures
        r == carries(crate::atspi::texts(states@), state@),
{
    let ghost all = crate::atspi::texts(states@);
    let mut i: usize = 0;
    while i < states.len()
        invariant
            all == crate::atspi::texts(states@),
            i <= states.len(),
            forall|k: int| 0 <= k < i ==> #[trigger] all[k] != state@,
        decreases states.len() - i,
    {
        if same_text(states[i].as_str(), state) {
            assert(all[i as int] == state@);
            return true;
        }
        i = i + 1;
    }
    false
}

/// Whether an element with these states can be interacted with. Toolkits report one
/// of two states for it, or both.
pub open spec fn interactable(states: Seq<Seq<char>>) -> bool {
    carries(states, "enabled"@) || carries(states, "sensitive"@)
}

/// Whether an element with these states can be interacted with.
pub fn is_enabled_in(states: &[String]) -> (r: bool)
    ensures
        r == interactable(crate::atspi::texts(states@)),
{
    has_state(states, "enabled") || has_state(states, "sensitive")
}

/// Whether the matches are hidden: there is none, or the first one does not show.
pub open spec fn hidden(hits: Seq<InfoView>) -> bool {
    hits.len() == 0 || !carries(hits[0].states, "showing"@)
}

/// Whether an element with these states is ready for an action.
pub open spec fn actionable(states: Seq<Seq<char>>) -> bool {
    carries(states, "showing"@) && interactable(states)
}

/// Whether an element with these states is ready to take the focus.
pub open spec fn ready_for_focus(states: Seq<Seq<char>>) -> bool {
    carries(states, "showing"@) && carries(states, "focusable"@)
}

/// The role that an element is told to have.
pub open spec fn told_role(info: InfoView) -> Seq<char> {
    match info.role_raw {
        Some(role) => role,
        None => info.role,
    }
}

/// The bounds of an element that has some, or else the error.
pub open spec fn bounds_or(info: InfoView, missing: ErrorView) -> Result<Rect, ErrorView> {
    match info.bounds {
        Some(b) => Ok(b),
        None => Err(missing),
    }
}

/// How long waiting for a locator may take.
pub open spec fn limit_of(own: Option<nat>, session: nat) -> nat {
    match own {
        Some(n) => n,
        None => session,
    }
}

/// Whether there is exactly one match, and it has the state.
pub fn single_has_state(hits: &[ElementInfo], state: &str) -> (r: bool)
    ensures
        r == (hits@.len() == 1 && carries(hits@[0]@.states, state@)),
{
    hits.len() == 1 && has_state(hits[0].states.as_slice(), state)
}

/// Whether there is exactly one match, and it can be interacted with.
pub fn single_is_enabled(hits: &[ElementInfo]) -> (r: bool)
    ensures
        r == (hits@.len() == 1 && interactable(hits@[0]@.states)),
{
    hits.len() == 1 && is_enabled_in(hits[0].states.as_slice())
}

/// Whether there is no match, or the first one does not show.
pub fn is_hidden(hits: &[ElementInfo]) -> (r: bool)
    ensures
        r == (hits@.len() == 0 || !carries(hits@[0]@.states, "showing"@)),
        r == hidden(query::infos(hits@)),
{
    hits.len() == 0 || !has_state(hits[0].states.as_slice(), "showing")
}

/// Whether an element is ready for an action: it shows and can be interacted with.
pub fn is_actionable(info: &ElementInfo) -> (r: bool)
    ensures
        r == (carries(info@.states, "showing"@) && interactable(info@.states)),
        r == actionable(info@.states),
{
    has_state(info.states.as_slice(), "showing") && is_enabled_in(info.states.as_slice())
}

/// Whether an element is ready to take the focus: it shows and can be focused.
pub fn is_focusable(info: &ElementInfo) -> (r: bool)
    ensures
        r == (carries(info@.states, "showing"@) && carries(info@.states, "focusable"@)),
        r == ready_for_focus(info@.states),
{
    has_state(info.states.as_slice(), "showing") && has_state(
        info.states.as_slice(),
        "focusable",
    )
}

// ── Metadata ────────────────────────────────────────────────────────────────

/// The role as the toolkit reports it, or else the tag.
pub fn role_of(info: &ElementInfo) -> (r: String)
    ensures
        r@ == (match info@.role_raw {
            Some(role) => role,
            None => info@.role,
        }),
        r@ == told_role(info@),
{
    match &info.role_raw {
        Some(role) => role.clone(),
        None => info.role.clone(),
    }
}

/// A toolkit attribute.
pub fn attribute_of(info: &ElementInfo, key: &str) -> (r: Option<String>)
    ensures
        match r {
            Some(v) => info@.attributes.contains_key(key@) && v@ == info@.attributes[key@],
            None => !info@.attributes.contains_key(key@),
        },
{
    match info.attributes.get(key) {
        Some(v) => Some(v.clone()),
        None => None,
    }
}

fn missing_bounds(before: &str, xpath: &str, after: &str) -> (r: Error)
    ensures
        r@ == (ErrorView::Atspi { message: before@ + xpath@ + after@, source: None }),
{
    let mut m = before.to_string();
    m.append(xpath);
    m.append(after);
    Error::atspi(m.as_str())
}

/// The error of asking an element without bounds for them.
pub open spec fn no_bounds(xpath: Seq<char>) -> ErrorView {
    ErrorView::Atspi {
        message: "no bounds available for "@ + xpath
            + " — element doesn't implement Component or isn't laid out"@,
        source: None,
    }
}

/// The bounds of an element.
pub fn bounds_of(info: &ElementInfo, xpath: &str) -> (r: Result<Rect, Error>)
    ensures
        error::outcome(r) == (match info@.bounds {
            Some(b) => Ok(b),
            None => Err(no_bounds(xpath@)),
        }),
        error::outcome(r) == bounds_or(info@, no_bounds(xpath@)),
{
    match info.bounds {
        Some(b) => Ok(b),
        None => Err(
            missing_bounds(
                "no bounds available for ",
                xpath,
                " — element doesn't implement Component or isn't laid out",
            ),
        ),
    }
}

/// The error of a pointer action on an element without bounds.
pub open spec fn no_pointer_target(xpath: Seq<char>) -> ErrorView {
    ErrorView::Atspi {
        message: "no bounds for "@ + xpath + " — pointer actions need Component extents"@,
        source: None,
    }
}

/// The bounds that a pointer action on an element aims at.
pub fn pointer_target(info: &ElementInfo, xpath: &str) -> (r: Result<Rect, Error>)
    ensures
        error::outcome(r) == (match info@.bounds {
            Some(b) => Ok(b),
            None => Err(no_pointer_target(xpath@)),
        }),
        error::outcome(r) == bounds_or(info@, no_pointer_target(xpath@)),
{
    match info.bounds {
        Some(b) => Ok(b),
        None => Err(
            missing_bounds(
                "no bounds for ",
                xpath,
                " — pointer actions need Component extents",
            ),
        ),
    }
}

// ── Options of a selection container ────────────────────────────────────────

/// Whether an element has this accessible name.
pub open spec fn named(info: InfoView, label: Seq<char>) -> bool {
    info.name == Some(label)
}

/// How many elements have this accessible name.
pub open spec fn count_named(children: Seq<InfoView>, label: Seq<char>) -> nat
    decreases children.len(),
{
    if children.len() == 0 {
        0
    } else {
        count_named(children.drop_last(), label) + (if named(children.last(), label) {
            1nat
        } else {
            0
        })
    }
}

/// The position of the first element with this accessible name.
pub open spec fn first_named(children: Seq<InfoView>, label: Seq<char>) -> int
    decreases children.len(),
{
    if children.len() == 0 {
        0
    } else if count_named(children.drop_last(), label) > 0 {
        first_named(children.drop_last(), label)
    } else {
        children.len() - 1
    }
}

/// The position of the option with this accessible name among a container's children.
pub open spec fn option_named(
    children: Seq<InfoView>,
    label: Seq<char>,
    xpath: Seq<char>,
) -> Result<int, ErrorView> {
    let count = count_named(children, label);
    if count == 0 {
        Err(
            ErrorView::Atspi {
                message: "select_option: no child with accessible name "@ + text::quoted(label)
                    + " under "@ + xpath,
                source: None,
            },
        )
    } else if count > 1 {
        Err(ErrorView::AmbiguousSelector { xpath: xpath + "#"@ + label, count })
    } else {
        Ok(first_named(children, label))
    }
}

/// Finds the option with this accessible name among a container's children. Where
/// two share it, the error names the selector and the label.
pub fn child_index_for_label(children: &[ElementInfo], label: &str, xpath: &str) -> (r: Result<
    usize,
    Error,
>)
    ensures
        (match r {
            Ok(i) => Ok(i as int),
            Err(e) => Err(e@),
        }) == option_named(query::infos(children@), label@, xpath@),
{
    let ghost all = query::infos(children@);
    let mut count: usize = 0;
    let mut first: usize = 0;
    let mut i: usize = 0;
    assert(all.take(0) =~= Seq::<InfoView>::empty());
    while i < children.len()
        invariant
            all == query::infos(children@),
            i <= children.len(),
            count == count_named(all.take(i as int), label@),
            count <= i,
            count > 0 ==> first == first_named(all.take(i as int), label@),
        decreases children.len() - i,
    {
        assert(all.take(i + 1).drop_last() =~= all.take(i as int));
        assert(all.take(i + 1).last() == all[i as int]);
        assert(all[i as int] == children@[i as int]@);
        let hit = match &children[i].name {
            Some(name) => same_text(name.as_str(), label),
            None => false,
        };
        assert(hit == named(all[i as int], label@));
        if hit {
            if count == 0 {
                first = i;
            }
            count = count + 1;
        }
        i = i + 1;
    }
    assert(all.take(i as int) =~= all);
    if count == 0 {
        let mut m = "select_option: no child with accessible name ".to_string();
        m.append(debug_quoted(label).as_str());
        m.append(" under ");
        m.append(xpath);
        return Err(Error::atspi(m.as_str()));
    }
    if count > 1 {
        let mut x = xpath.to_string();
        x.append("#");
        x.append(label);
        return Err(Error::AmbiguousSelector { xpath: x, count });
    }
    Ok(first)
}

/// An option that is found by its name is the only child so named.
pub proof fn law_option_is_unique(
    children: Seq<InfoView>,
    label: Seq<char>,
    xpath: Seq<char>,
    i: int,
)
    requires
        option_named(children, label, xpath) == Ok::<int, ErrorView>(i),
    ensures
        0 <= i < children.len(),
        named(children[i], label),
        forall|k: int|
            0 <= k < children.len() && k != i ==> !named(#[trigger] children[k], label),
{
    lemma_first_named(children, label);
}

proof fn lemma_none_named(children: Seq<InfoView>, label: Seq<char>)
    requires
        count_named(children, label) == 0,
    ensures
        forall|k: int| 0 <= k < children.len() ==> !named(#[trigger] children[k], label),
    decreases children.len(),
{
    if children.len() > 0 {
        lemma_none_named(children.drop_last(), label);
        assert forall|k: int| 0 <= k < children.len() implies !named(
            #[trigger] children[k],
            label,
        ) by {
            if k < children.len() - 1 {
                assert(children[k] == children.drop_last()[k]);
            }
        }
    }
}

proof fn lemma_first_named(children: Seq<InfoView>, label: Seq<char>)
    requires
        count_named(children, label) == 1,
    ensures
        0 <= first_named(children, label) < children.len(),
        named(children[first_named(children, label)], label),
        forall|k: int|
            0 <= k < children.len() && k != first_named(children, label) ==> !named(
                #[trigger] children[k],
                label,
            ),
    decreases children.len(),
{
    let front = children.drop_last();
    if count_named(front, label) > 0 {
        lemma_first_named(front, label);
        assert forall|k: int|
            0 <= k < children.len() && k != first_named(children, label) implies !named(
            #[trigger] children[k],
            label,
        ) by {
            if k < front.len() {
                assert(children[k] == front[k]);
            }
        }
    } else {
        lemma_none_named(front, label);
        assert forall|k: int|
            0 <= k < children.len() && k != first_named(children, label) implies !named(
            #[trigger] children[k],
            label,
        ) by {
            assert(children[k] == front[k]);
        }
    }
}

/// The error of a position that no child index can hold.
pub open spec fn index_too_large(index: nat) -> ErrorView {
    ErrorView::Atspi {
        message: "select_option: index "@ + text::decimal(index)
            + " too large to fit AT-SPI's i32 child index"@,
        source: None,
    }
}

/// A position as a child index.
pub fn child_index(index: usize) -> (r: Result<i32, Error>)
    ensures
        if index <= i32::MAX {
            r matches Ok(i) && i == index
        } else {
            r matches Err(e) && e@ == index_too_large(index as nat)
        },
{
    if index <= i32::MAX as usize {
        Ok(index as i32)
    } else {
        let mut m = "select_option: index ".to_string();
        m.append(decimal_u64(index as u64).as_str());
        m.append(" too large to fit AT-SPI's i32 child index");
        Err(Error::atspi(m.as_str()))
    }
}

/// What picking an option comes to, given the container's children.
pub open spec fn option_index(
    children: Result<Seq<InfoView>, ErrorView>,
    label: Seq<char>,
    xpath: Seq<char>,
) -> Result<int, ErrorView> {
    match children {
        Err(e) => Err(e),
        Ok(c) => match option_named(c, label, xpath) {
            Err(e) => Err(e),
            Ok(i) => if i <= i32::MAX {
                Ok(i)
            } else {
                Err(index_too_large(i as nat))
            },
        },
    }
}

/// Whether `r` is what looking for an option can come to.
pub open spec fn option_answer(
    xml: Seq<char>,
    xpath: Seq<char>,
    by: SelectBy<'_>,
    r: Result<i32, Error>,
) -> bool {
    match by {
        SelectBy::Index(i) => if i <= i32::MAX {
            r matches Ok(k) && k == i
        } else {
            r matches Err(e) && e@ == index_too_large(i as nat)
        },
        SelectBy::Label(label) => exists|children: Result<Seq<InfoView>, ErrorView>|
            {
                &&& #[trigger] described_answer(xml, children_of(xpath), children)
                &&& (match r {
                    Ok(k) => Ok(k as int),
                    Err(e) => Err(e@),
                }) == option_index(children, label@, xpath)
            },
    }
}

impl Locator {
    /// The child index of the option to select in a container, found in a snapshot by
    /// its label or given by its position.
    pub fn option_to_select(&self, by: SelectBy<'_>, xml: &str) -> (r: Result<i32, Error>)
        requires
            by is Label ==> query::runnable(xml@, children_of(self@.xpath)),
        ensures
            option_answer(xml@, self@.xpath, by, r),
    {
        match by {
            SelectBy::Index(i) => child_index(i),
            SelectBy::Label(label) => {
                let children_xpath = enclosed(self.xpath.as_str(), ")/*");
                let children = evaluate_xpath_detailed(xml, children_xpath.as_str());
                let ghost found = infos_outcome(children);
                assert(described_answer(xml@, children_of(self@.xpath), found));
                match children {
                    Err(e) => Err(e),
                    Ok(c) => match child_index_for_label(
                        c.as_slice(),
                        label,
                        self.xpath.as_str(),
                    ) {
                        Ok(i) => child_index(i),
                        Err(e) => Err(e),
                    },
                }
            },
        }
    }
}

// ── Scrollable ancestors ────────────────────────────────────────────────────

/// The bounds of the chain's element before position `i`, counted outwards from the
/// target.
pub open spec fn bounds_before(
    target: Option<Rect>,
    chain: Seq<InfoView>,
    i: int,
) -> Option<Rect> {
    if i == 0 {
        target
    } else {
        chain[i - 1].bounds
    }
}

/// Whether the chain's element at position `i` clips the one before it: that one is
/// larger in one direction or the other.
pub open spec fn clips(target: Option<Rect>, chain: Seq<InfoView>, i: int) -> bool {
    match (bounds_before(target, chain, i), chain[i].bounds) {
        (Some(inner), Some(outer)) => inner.width > outer.width || inner.height > outer.height,
        _ => false,
    }
}

/// Whether `found` is the innermost ancestor that clips what it holds.
pub open spec fn innermost_clipping(
    target: Option<Rect>,
    chain: Seq<InfoView>,
    found: Option<InfoView>,
) -> bool {
    match found {
        Some(a) => exists|i: int|
            {
                &&& 0 <= i < chain.len()
                &&& a == chain[i]
                &&& #[trigger] clips(target, chain, i)
                &&& forall|k: int| 0 <= k < i ==> !#[trigger] clips(target, chain, k)
            },
        None => forall|k: int| 0 <= k < chain.len() ==> !#[trigger] clips(target, chain, k),
    }
}

/// Picks the innermost of the ancestors, given outermost first, that clips what it
/// holds: the viewport that the target is scrolled in.
pub fn clipping_ancestor(target: Option<Rect>, ancestors: Vec<ElementInfo>) -> (r: Option<
    ElementInfo,
>)
    ensures
        innermost_clipping(
            target,
            query::infos(ancestors@).reverse(),
            match r {
                Some(a) => Some(a@),
                None => None,
            },
        ),
{
    let ghost all = ancestors@;
    let ghost n = all.len() as int;
    let ghost chain = query::infos(all).reverse();
    let ghost mut i: int = 0;
    let mut left = ancestors;
    let mut inner: Option<Rect> = target;
    assert(all.take(n) =~= all);
    while left.len() > 0
        invariant
            all == ancestors@,
            chain == query::infos(all).reverse(),
            n == all.len(),
            0 <= i <= n,
            i + left@.len() == n,
            left@ == all.take(n - i),
            inner == bounds_before(target, chain, i),
            forall|k: int| 0 <= k < i ==> !#[trigger] clips(target, chain, k),
        decreases left.len(),
    {
        assert(chain[i] == all[n - 1 - i]@);
        match left.pop() {
            Some(a) => {
                assert(a == all[n - 1 - i]);
                assert(left@ =~= all.take(n - (i + 1)));
                if let (Some(p), Some(t)) = (inner, a.bounds) {
                    if p.width > t.width || p.height > t.height {
                        assert(clips(target, chain, i));
                        return Some(a);
                    }
                }
                assert(!clips(target, chain, i));
                inner = a.bounds;
                proof {
                    i = i + 1;
                }
            },
            None => {
                return None;
            },
        }
    }
    None
}

/// Whether `r` is what the search for a scrollable ancestor can come to, given the
/// ancestors found and the target's matches.
pub open spec fn scrollable_search(
    xpath: Seq<char>,
    ancestors: Result<Seq<InfoView>, ErrorView>,
    hits: Result<Seq<InfoView>, ErrorView>,
    r: Result<Option<InfoView>, ErrorView>,
) -> bool {
    match (ancestors, hits) {
        (Err(e), _) => r == Err::<Option<InfoView>, ErrorView>(e),
        (_, Err(e)) => r == Err::<Option<InfoView>, ErrorView>(e),
        (Ok(chain), Ok(h)) => if h.len() == 0 {
            r == Err::<Option<InfoView>, ErrorView>(ErrorView::ElementNotFound { xpath })
        } else {
            r matches Ok(found) && innermost_clipping(h[0].bounds, chain.reverse(), found)
        },
    }
}

/// Whether `r` is what the search for a scrollable ancestor in a snapshot can come to.
pub open spec fn scrollable_answer(
    xml: Seq<char>,
    xpath: Seq<char>,
    r: Result<Option<ElementInfo>, Error>,
) -> bool {
    exists|ancestors: Result<Seq<InfoView>, ErrorView>, hits: Result<Seq<InfoView>, ErrorView>|
        {
            &&& #[trigger] described_answer(xml, ancestors_of(xpath), ancestors)
            &&& #[trigger] described_answer(xml, xpath, hits)
            &&& scrollable_search(
                xpath,
                ancestors,
                hits,
                match r {
                    Ok(Some(a)) => Ok(Some(a@)),
                    Ok(None) => Ok(None),
                    Err(e) => Err(e@),
                },
            )
        }
}

impl Locator {
    /// The closest scrollable ancestor of the element that this locator matches in a
    /// snapshot.
    pub fn find_scrollable_ancestor(&self, xml: &str) -> (r: Result<Option<ElementInfo>, Error>)
        requires
            query::runnable(xml@, ancestors_of(self@.xpath)),
            query::runnable(xml@, self@.xpath),
        ensures
            scrollable_answer(xml@, self@.xpath, r),
    {
        let ancestors_xpath = enclosed(self.xpath.as_str(), ")/ancestor::*");
        let ancestors = evaluate_xpath_detailed(xml, ancestors_xpath.as_str());
        let hits = self.inspect_all(xml);
        let ghost outer = infos_outcome(ancestors);
        let ghost inner = infos_outcome(hits);
        assert(described_answer(xml@, ancestors_of(self@.xpath), outer));
        assert(described_answer(xml@, self@.xpath, inner));
        let ancestors = match ancestors {
            Ok(a) => a,
            Err(e) => {
                return Err(e);
            },
        };
        let hits = match hits {
            Ok(h) => h,
            Err(e) => {
                return Err(e);
            },
        };
        if hits.len() == 0 {
            return Err(Error::ElementNotFound { xpath: self.xpath.clone() });
        }
        assert(query::infos(hits@)[0] == hits@[0]@);
        Ok(clipping_ancestor(hits[0].bounds, ancestors))
    }
}

// ── Selectors that may have no answer ───────────────────────────────────────

impl Locator {
    /// [`Locator::count`] of any selector; `None` where the engine has no answer to it.
    pub fn try_count(&self, xml: &str) -> (r: Option<Result<usize, Error>>)
        ensures
            r is Some == query::runnable(xml@, self@.xpath),
            r matches Some(a) ==> counted_answer(xml@, self@.xpath, a),
    {
        if can_run(xml, self.xpath.as_str()) {
            Some(self.count(xml))
        } else {
            None
        }
    }

    /// [`Locator::inspect_all`] of any selector; `None` where the engine has no answer
    /// to it.
    pub fn try_inspect_all(&self, xml: &str) -> (r: Option<Result<Vec<ElementInfo>, Error>>)
        ensures
            r is Some == query::runnable(xml@, self@.xpath),
            r matches Some(a) ==> described_answer(xml@, self@.xpath, infos_outcome(a)),
    {
        if can_run(xml, self.xpath.as_str()) {
            Some(self.inspect_all(xml))
        } else {
            None
        }
    }

    /// [`Locator::resolve_once_info`] of any selector; `None` where the engine has no
    /// answer to it.
    pub fn try_resolve_once_info(&self, xml: &str) -> (r: Option<Result<ElementInfo, Error>>)
        ensures
            r is Some == query::runnable(xml@, self@.xpath),
            r matches Some(a) ==> sole_answer(xml@, self@.xpath, info_outcome(a)),
    {
        if can_run(xml, self.xpath.as_str()) {
            Some(self.resolve_once_info(xml))
        } else {
            None
        }
    }

    /// [`Locator::option_to_select`] of any selector; `None` where the engine would be
    /// asked and has no answer to it.
    pub fn try_option_to_select(&self, by: SelectBy<'_>, xml: &str) -> (r: Option<
        Result<i32, Error>,
    >)
        ensures
            r is Some == (by is Index || query::runnable(xml@, children_of(self@.xpath))),
            r matches Some(a) ==> option_answer(xml@, self@.xpath, by, a),
    {
        let asked = match by {
            SelectBy::Index(_) => false,
            SelectBy::Label(_) => true,
        };
        let children_xpath = enclosed(self.xpath.as_str(), ")/*");
        if asked && !can_run(xml, children_xpath.as_str()) {
            return None;
        }
        Some(self.option_to_select(by, xml))
    }

    /// [`Locator::find_scrollable_ancestor`] of any selector; `None` where the engine
    /// has no answer to it.
    pub fn try_find_scrollable_ancestor(&self, xml: &str) -> (r: Option<
        Result<Option<ElementInfo>, Error>,
    >)
        ensures
            r is Some == (query::runnable(xml@, ancestors_of(self@.xpath)) && query::runnable(
                xml@,
                self@.xpath,
            )),
            r matches Some(a) ==> scrollable_answer(xml@, self@.xpath, a),
    {
        let ancestors_xpath = enclosed(self.xpath.as_str(), ")/ancestor::*");
        if can_run(xml, ancestors_xpath.as_str()) && can_run(xml, self.xpath.as_str()) {
            Some(self.find_scrollable_ancestor(xml))
        } else {
            None
        }
    }
}

// ── What holds of every selector and every search ───────────────────────────

/// A selector that begins with a slash stands for itself, and any other one is looked for
/// below the matches of the outer one; blanks in front of it and behind it do not count.
pub proof fn law_scope_goes_by_the_slash(outer: Seq<char>, sub: Seq<char>)
    ensures
        sub.len() > 0 && sub[0] == '/' && !text::white_space(sub.last()) ==> scoped(outer, sub)
            == sub,
        sub.len() > 0 && sub[0] != '/' && !text::white_space(sub[0]) && !text::white_space(
            sub.last(),
        ) ==> scoped(outer, sub) == "("@ + outer + ")//"@ + sub,
        scoped(outer, seq![' '] + sub) == scoped(outer, sub),
        scoped(outer, Seq::empty()) == "("@ + outer + ")//"@,
        scoped(outer, sub.push(' ')) == scoped(outer, sub),
{
    assert((seq![' '] + sub).skip(1) =~= sub);
    assert(scoped(outer, Seq::empty()) =~= "("@ + outer + ")//"@);
    lemma_trailing_blank(sub);
}

proof fn lemma_trailing_blank(s: Seq<char>)
    ensures
        text::trimmed(s.push(' ')) == text::trimmed(s),
    decreases s.len(),
{
    let t = s.push(' ');
    assert(t.drop_last() =~= s);
    if s.len() == 0 {
        assert(t.skip(1) =~= s);
    } else if text::white_space(s[0]) {
        lemma_trailing_blank(s.skip(1));
        assert(t.skip(1) =~= s.skip(1).push(' '));
    }
}

/// Derived selectors: positions count from 1 in a selector and from 0 here, different
/// positions have different selectors, and the others step from the matches of the outer
/// selector to the last of them, to their parents, their children and their ancestors.
pub proof fn law_derived_selectors(outer: Seq<char>, m: nat, n: nat)
    ensures
        nth_of(outer, n) == "("@ + outer + ")["@ + text::decimal_int((n + 1) as int) + "]"@,
        nth_of(outer, m) == nth_of(outer, n) ==> m == n,
        last_of(outer) == "("@ + outer + ")[last()]"@,
        parent_of(outer) == "("@ + outer + ")/.."@,
        children_of(outer) == "("@ + outer + ")/*"@,
        ancestors_of(outer) == "("@ + outer + ")/ancestor::*"@,
{
    if nth_of(outer, m) == nth_of(outer, n) {
        let front = "("@ + outer + ")["@;
        let (a, b) = (text::decimal(m + 1), text::decimal(n + 1));
        reveal_strlit("]");
        assert(nth_of(outer, m) == front + a + "]"@);
        assert(nth_of(outer, n) == front + b + "]"@);
        assert(a.len() == b.len());
        assert(a =~= b) by {
            assert forall|i: int| 0 <= i < a.len() implies a[i] == b[i] by {
                assert((front + a + "]"@)[front.len() + i] == a[i]);
                assert((front + b + "]"@)[front.len() + i] == b[i]);
            }
        }
        assert(text::decimal_int((m + 1) as int) == text::decimal_int((n + 1) as int));
        text::law_numerals_differ((m + 1) as int, (n + 1) as int);
    }
}

/// A caller that needs one element gets it where there is one match; without a match it is
/// not found, and several are ambiguous, their number being told.
pub proof fn law_one_match_is_needed(xpath: Seq<char>, hits: Seq<InfoView>)
    ensures
        hits.len() == 1 ==> only_one(xpath, hits) == Ok::<InfoView, ErrorView>(hits[0]),
        hits.len() == 0 ==> only_one(xpath, hits) == Err::<InfoView, ErrorView>(
            ErrorView::ElementNotFound { xpath },
        ),
        hits.len() >= 2 ==> only_one(xpath, hits) == Err::<InfoView, ErrorView>(
            ErrorView::AmbiguousSelector { xpath, count: hits.len() },
        ),
        exactly_one(xpath, hits.len()) is Ok <==> hits.len() == 1,
        exactly_one(xpath, 0) == Err::<(), ErrorView>(ErrorView::ElementNotFound { xpath }),
        hits.len() >= 2 ==> exactly_one(xpath, hits.len()) == Err::<(), ErrorView>(
            ErrorView::AmbiguousSelector { xpath, count: hits.len() },
        ),
{
}

/// An element can be interacted with where one of the two states for it is set, and nowhere
/// else.
pub proof fn law_interaction_takes_one_state(states: Seq<Seq<char>>)
    ensures
        interactable(states) <==> exists|i: int|
            0 <= i < states.len() && (#[trigger] states[i] == "enabled"@ || states[i]
                == "sensitive"@),
{
    if interactable(states) {
        if states.contains("enabled"@) {
            let i = choose|i: int| 0 <= i < states.len() && states[i] == "enabled"@;
            assert(states[i] == "enabled"@);
        } else {
            let i = choose|i: int| 0 <= i < states.len() && states[i] == "sensitive"@;
            assert(states[i] == "sensitive"@);
        }
    }
}

/// An element without bounds is refused with its selector in the message.
pub proof fn law_missing_bounds_are_told(xpath: Seq<char>)
    ensures
        no_bounds(xpath) == (ErrorView::Atspi {
            message: "no bounds available for "@ + xpath
                + " — element doesn't implement Component or isn't laid out"@,
            source: None,
        }),
        no_pointer_target(xpath) == (ErrorView::Atspi {
            message: "no bounds for "@ + xpath + " — pointer actions need Component extents"@,
            source: None,
        }),
{
}

/// The children with a name are counted one by one.
pub proof fn law_names_are_counted(children: Seq<InfoView>, c: InfoView, label: Seq<char>)
    ensures
        count_named(Seq::empty(), label) == 0,
        c.name == Some(label) ==> count_named(children.push(c), label) == count_named(
            children,
            label,
        ) + 1,
        c.name != Some(label) ==> count_named(children.push(c), label) == count_named(
            children,
            label,
        ),
{
    assert(children.push(c).drop_last() =~= children);
}

proof fn lemma_sole_name(children: Seq<InfoView>, label: Seq<char>, i: int)
    requires
        0 <= i < children.len(),
        children[i].name == Some(label),
        forall|k: int|
            0 <= k < children.len() && k != i ==> (#[trigger] children[k]).name != Some(label),
    ensures
        count_named(children, label) == 1,
        first_named(children, label) == i,
    decreases children.len(),
{
    let front = children.drop_last();
    assert forall|k: int| 0 <= k < front.len() && k != i implies (#[trigger] front[k]).name != Some(
        label,
    ) by {
        assert(front[k] == children[k]);
    }
    if i < front.len() {
        assert(front[i] == children[i]);
        lemma_sole_name(front, label, i);
        assert(children[children.len() - 1].name != Some(label));
    } else {
        lemma_no_name(front, label);
    }
}

proof fn lemma_no_name(children: Seq<InfoView>, label: Seq<char>)
    requires
        forall|k: int| 0 <= k < children.len() ==> (#[trigger] children[k]).name != Some(label),
    ensures
        count_named(children, label) == 0,
    decreases children.len(),
{
    if children.len() > 0 {
        let front = children.drop_last();
        assert forall|k: int| 0 <= k < front.len() implies (#[trigger] front[k]).name != Some(
            label,
        ) by {
            assert(front[k] == children[k]);
        }
        assert(children[children.len() - 1].name != Some(label));
        lemma_no_name(front, label);
    }
}

proof fn lemma_two_names(children: Seq<InfoView>, label: Seq<char>, i: int, j: int)
    requires
        0 <= i < j < children.len(),
        children[i].name == Some(label),
        children[j].name == Some(label),
    ensures
        count_named(children, label) >= 2,
    decreases children.len(),
{
    let front = children.drop_last();
    assert(front[i] == children[i]);
    if j < front.len() {
        assert(front[j] == children[j]);
        lemma_two_names(front, label, i, j);
    } else if count_named(front, label) == 0 {
        lemma_none_named(front, label);
        assert(!named(front[i], label));
    }
}

/// The option with a label is the child of that accessible name, where there is one and no
/// other has it. Without such a child the error tells the label and the container; where two
/// children have the name the error is about the container and the label, and counts them.
pub proof fn law_option_goes_by_its_name(
    children: Seq<InfoView>,
    label: Seq<char>,
    xpath: Seq<char>,
    i: int,
    j: int,
)
    requires
        0 <= i < children.len(),
        0 <= j < children.len(),
        i != j,
    ensures
        children[i].name == Some(label) && (forall|k: int|
            0 <= k < children.len() && k != i ==> (#[trigger] children[k]).name != Some(label))
            ==> option_named(children, label, xpath) == Ok::<int, ErrorView>(i),
        children[i].name == Some(label) && children[j].name == Some(label) ==> option_named(
            children,
            label,
            xpath,
        ) == Err::<int, ErrorView>(
            ErrorView::AmbiguousSelector {
                xpath: xpath + "#"@ + label,
                count: count_named(children, label),
            },
        ) && count_named(children, label) >= 2,
        (forall|k: int| 0 <= k < children.len() ==> (#[trigger] children[k]).name != Some(label))
            ==> option_named(children, label, xpath) == Err::<int, ErrorView>(
            ErrorView::Atspi {
                message: "select_option: no child with accessible name "@ + text::quoted(label)
                    + " under "@ + xpath,
                source: None,
            },
        ),
{
    if children[i].name == Some(label) && children[j].name == Some(label) {
        if i < j {
            lemma_two_names(children, label, i, j);
        } else {
            lemma_two_names(children, label, j, i);
        }
    }
    if children[i].name == Some(label) && (forall|k: int|
        0 <= k < children.len() && k != i ==> (#[trigger] children[k]).name != Some(label)) {
        lemma_sole_name(children, label, i);
    }
    if forall|k: int| 0 <= k < children.len() ==> (#[trigger] children[k]).name != Some(label) {
        lemma_no_name(children, label);
    }
}

/// An option that was found is given by its position, up to the largest that a child index
/// holds; one behind it is refused with its position, and a search that failed gives its
/// error.
pub proof fn law_option_is_given_by_its_position(
    children: Seq<InfoView>,
    label: Seq<char>,
    xpath: Seq<char>,
    e: ErrorView,
)
    ensures
        option_index(Err(e), label, xpath) == Err::<int, ErrorView>(e),
        option_named(children, label, xpath) matches Err(f) ==> option_index(
            Ok(children),
            label,
            xpath,
        ) == Err::<int, ErrorView>(f),
        option_named(children, label, xpath) matches Ok(i) ==> (i <= 0x7fff_ffff ==> option_index(
            Ok(children),
            label,
            xpath,
        ) == Ok::<int, ErrorView>(i)),
        option_named(children, label, xpath) matches Ok(i) ==> (i > 0x7fff_ffff ==> option_index(
            Ok(children),
            label,
            xpath,
        ) == Err::<int, ErrorView>(
            ErrorView::Atspi {
                message: "select_option: index "@ + text::decimal_int(i)
                    + " too large to fit AT-SPI's i32 child index"@,
                source: None,
            },
        )),
{
    if let Ok(i) = option_named(children, label, xpath) {
        law_option_is_unique(children, label, xpath, i);
    }
}

/// The element that lies next to the ancestor at position `i` on the way to the target, where
/// ancestors are listed from the outermost on.
pub open spec fn bounds_inside(target: Option<Rect>, ancestors: Seq<InfoView>, i: int) -> Option<
    Rect,
> {
    if i + 1 < ancestors.len() {
        ancestors[i + 1].bounds
    } else {
        target
    }
}

/// Whether the ancestor at position `i`, counted from the outermost, is smaller in one
/// direction than what it holds.
pub open spec fn smaller_than_content(
    target: Option<Rect>,
    ancestors: Seq<InfoView>,
    i: int,
) -> bool {
    &&& ancestors[i].bounds matches Some(outer)
    &&& bounds_inside(target, ancestors, i) matches Some(inner)
    &&& (outer.width < inner.width || outer.height < inner.height)
}

/// The scrollable ancestor of an element is the innermost one that is smaller in one direction
/// than the element next to it on the way to the target: it is an ancestor, it is smaller than
/// what it holds, and no ancestor further in is. None is found only where no ancestor is
/// smaller than what it holds.
pub proof fn law_innermost_clipping_ancestor(
    xpath: Seq<char>,
    ancestors: Seq<InfoView>,
    hits: Seq<InfoView>,
    r: Result<Option<InfoView>, ErrorView>,
)
    requires
        scrollable_search(xpath, Ok(ancestors), Ok(hits), r),
    ensures
        hits.len() == 0 <==> r is Err,
        hits.len() == 0 ==> r == Err::<Option<InfoView>, ErrorView>(
            ErrorView::ElementNotFound { xpath },
        ),
        r matches Ok(Some(a)) ==> exists|i: int|
            {
                &&& 0 <= i < ancestors.len()
                &&& a == ancestors[i]
                &&& #[trigger] smaller_than_content(hits[0].bounds, ancestors, i)
                &&& forall|k: int|
                    i < k < ancestors.len() ==> !#[trigger] smaller_than_content(
                        hits[0].bounds,
                        ancestors,
                        k,
                    )
            },
        r matches Ok(None) ==> forall|k: int|
            0 <= k < ancestors.len() ==> !#[trigger] smaller_than_content(
                hits[0].bounds,
                ancestors,
                k,
            ),
{
    if hits.len() > 0 {
        let target = hits[0].bounds;
        let chain = ancestors.reverse();
        assert forall|k: int| 0 <= k < ancestors.len() implies #[trigger] smaller_than_content(
            target,
            ancestors,
            k,
        ) == clips(target, chain, ancestors.len() - 1 - k) by {
            assert(chain[ancestors.len() - 1 - k] == ancestors[k]);
            if k + 1 < ancestors.len() {
                assert(chain[ancestors.len() - 2 - k] == ancestors[k + 1]);
            }
        }
        match r {
            Ok(Some(a)) => {
                let i = choose|i: int|
                    {
                        &&& 0 <= i < chain.len()
                        &&& a == chain[i]
                        &&& #[trigger] clips(target, chain, i)
                        &&& forall|k: int| 0 <= k < i ==> !#[trigger] clips(target, chain, k)
                    };
                let at = ancestors.len() - 1 - i;
                assert(smaller_than_content(target, ancestors, at));
                assert(a == ancestors[at]);
            },
            _ => {},
        }
    }
}

/// A search that could not list the ancestors gives that error, and one that could not look
/// for the target gives its error.
pub proof fn law_failed_search_gives_its_error(
    xpath: Seq<char>,
    ancestors: Result<Seq<InfoView>, ErrorView>,
    hits: Result<Seq<InfoView>, ErrorView>,
    r: Result<Option<InfoView>, ErrorView>,
)
    requires
        scrollable_search(xpath, ancestors, hits, r),
    ensures
        ancestors matches Err(e) ==> r == Err::<Option<InfoView>, ErrorView>(e),
        ancestors is Ok ==> (hits matches Err(e) ==> r == Err::<Option<InfoView>, ErrorView>(e)),
{
}

/// Looking for the matches of a selector gives the matched elements: all of them with their
/// description or their identity, their number, or the only one.
pub proof fn law_search_gives_the_matches(
    xml: Seq<char>,
    xpath: Seq<char>,
    nodes: Seq<Option<query::ElementNode>>,
    infos: Result<Seq<InfoView>, ErrorView>,
    ids: Result<Seq<(Seq<char>, Seq<char>)>, ErrorView>,
    count: Result<usize, Error>,
    sole: Result<InfoView, ErrorView>,
)
    requires
        query::evaluates(xml, xpath),
        query::reproducible(xml, xpath),
        query::evaluation(xml, xpath) == Some(Some(nodes)),
    ensures
        described_answer(xml, xpath, infos) ==> infos == Ok::<Seq<InfoView>, ErrorView>(
            query::described_all(nodes),
        ),
        identified_answer(xml, xpath, ids) ==> ids == Ok::<
            Seq<(Seq<char>, Seq<char>)>,
            ErrorView,
        >(query::identities(nodes)),
        counted_answer(xml, xpath, count) ==> (count matches Ok(n) && n == query::identities(
            nodes,
        ).len()),
        sole_answer(xml, xpath, sole) ==> sole == only_one(xpath, query::described_all(nodes)),
{
    if described_answer(xml, xpath, infos) {
        query::law_answer_is_what_the_engine_gave(
            xml,
            xpath,
            infos,
            |n: Seq<Option<query::ElementNode>>| query::described_all(n),
        );
    }
    if identified_answer(xml, xpath, ids) {
        query::law_answer_is_what_the_engine_gave(
            xml,
            xpath,
            ids,
            |n: Seq<Option<query::ElementNode>>| query::identities(n),
        );
    }
    if counted_answer(xml, xpath, count) {
        let found = choose|found: Result<Seq<(Seq<char>, Seq<char>)>, ErrorView>|
            {
                &&& #[trigger] identified_answer(xml, xpath, found)
                &&& match found {
                    Ok(ids) => count matches Ok(n) && n == ids.len(),
                    Err(e) => count matches Err(f) && f@ == e,
                }
            };
        query::law_answer_is_what_the_engine_gave(
            xml,
            xpath,
            found,
            |n: Seq<Option<query::ElementNode>>| query::identities(n),
        );
    }
    if sole_answer(xml, xpath, sole) {
        let hits = choose|hits: Result<Seq<InfoView>, ErrorView>|
            {
                &&& #[trigger] described_answer(xml, xpath, hits)
                &&& sole == (match hits {
                    Ok(h) => only_one(xpath, h),
                    Err(e) => Err(e),
                })
            };
        query::law_answer_is_what_the_engine_gave(
            xml,
            xpath,
            hits,
            |n: Seq<Option<query::ElementNode>>| query::described_all(n),
        );
    }
}

/// A position is given as it is, up to the largest that a child index holds, and refused
/// beyond. An option with a label is looked for among the children of the container's match.
pub proof fn law_option_is_looked_for_among_the_children(
    xml: Seq<char>,
    xpath: Seq<char>,
    by: SelectBy<'_>,
    r: Result<i32, Error>,
    nodes: Seq<Option<query::ElementNode>>,
)
    requires
        option_answer(xml, xpath, by, r),
    ensures
        by matches SelectBy::Index(i) ==> (r is Ok <==> i <= 0x7fff_ffff),
        by matches SelectBy::Index(i) ==> (r matches Ok(k) ==> k == i),
        ({
            let children = "("@ + xpath + ")/*"@;
            by is Label && query::evaluates(xml, children) && query::reproducible(xml, children)
                && query::evaluation(xml, children) == Some(Some(nodes)) ==> (match r {
                Ok(k) => Ok::<int, ErrorView>(k as int),
                Err(e) => Err(e@),
            }) == option_index(Ok(query::described_all(nodes)), by->Label_0@, xpath)
        }),
{
    let children = "("@ + xpath + ")/*"@;
    if by is Label && query::evaluates(xml, children) && query::reproducible(xml, children)
        && query::evaluation(xml, children) == Some(Some(nodes)) {
        let found = choose|found: Result<Seq<InfoView>, ErrorView>|
            {
                &&& #[trigger] described_answer(xml, children_of(xpath), found)
                &&& (match r {
                    Ok(k) => Ok(k as int),
                    Err(e) => Err(e@),
                }) == option_index(found, by->Label_0@, xpath)
            };
        query::law_answer_is_what_the_engine_gave(
            xml,
            children,
            found,
            |n: Seq<Option<query::ElementNode>>| query::described_all(n),
        );
    }
}

/// The scrollable ancestor is looked for among the ancestors of the selector's match, from the
/// bounds of the first match on.
pub proof fn law_viewport_is_looked_for_among_the_ancestors(
    xml: Seq<char>,
    xpath: Seq<char>,
    r: Result<Option<ElementInfo>, Error>,
    nodes: Seq<Option<query::ElementNode>>,
    ancestors: Seq<Option<query::ElementNode>>,
)
    requires
        scrollable_answer(xml, xpath, r),
        query::evaluates(xml, xpath),
        query::reproducible(xml, xpath),
        query::evaluation(xml, xpath) == Some(Some(nodes)),
        ({
            let outward = "("@ + xpath + ")/ancestor::*"@;
            query::evaluates(xml, outward) && query::reproducible(xml, outward)
                && query::evaluation(xml, outward) == Some(Some(ancestors))
        }),
    ensures
        scrollable_search(
            xpath,
            Ok(query::described_all(ancestors)),
            Ok(query::described_all(nodes)),
            match r {
                Ok(Some(a)) => Ok(Some(a@)),
                Ok(None) => Ok(None),
                Err(e) => Err(e@),
            },
        ),
{
    let outward = "("@ + xpath + ")/ancestor::*"@;
    let answer = match r {
        Ok(Some(a)) => Ok(Some(a@)),
        Ok(None) => Ok(None),
        Err(e) => Err(e@),
    };
    let (chain, hits) = choose|
        chain: Result<Seq<InfoView>, ErrorView>,
        hits: Result<Seq<InfoView>, ErrorView>,
    |
        {
            &&& #[trigger] described_answer(xml, ancestors_of(xpath), chain)
            &&& #[trigger] described_answer(xml, xpath, hits)
            &&& scrollable_search(xpath, chain, hits, answer)
        };
    let described = |n: Seq<Option<query::ElementNode>>| query::described_all(n);
    query::law_answer_is_what_the_engine_gave(xml, outward, chain, described);
    query::law_answer_is_what_the_engine_gave(xml, xpath, hits, described);
}

/// An element shows where that state is set. Matches are hidden unless the first one shows; an
/// element is ready for an action where it shows and can be interacted with, and for the focus
/// where it shows and can be focused. Without the state that it shows it is ready for nothing.
pub proof fn law_readiness_goes_by_states(states: Seq<Seq<char>>, info: InfoView, i: int, j: int)
    requires
        0 <= i < states.len(),
        0 <= j < states.len(),
    ensures
        states[i] == "showing"@ && states[j] == "enabled"@ ==> actionable(states),
        states[i] == "showing"@ && states[j] == "sensitive"@ ==> actionable(states),
        states[i] == "showing"@ && states[j] == "focusable"@ ==> ready_for_focus(states),
        !states.contains("showing"@) ==> !actionable(states) && !ready_for_focus(states),
        !states.contains("focusable"@) ==> !ready_for_focus(states),
        !states.contains("enabled"@) && !states.contains("sensitive"@) ==> !actionable(states),
        hidden(Seq::empty()),
        info.states == states && states[i] == "showing"@ ==> !hidden(seq![info]),
        !info.states.contains("showing"@) ==> hidden(seq![info]),
{
    if states[i] == "showing"@ {
        assert(states.contains("showing"@));
    }
    if states[j] == "enabled"@ {
        assert(states.contains("enabled"@));
    }
    if states[j] == "sensitive"@ {
        assert(states.contains("sensitive"@));
    }
    if states[j] == "focusable"@ {
        assert(states.contains("focusable"@));
    }
}

/// Only the first match decides whether the matches are hidden.
pub proof fn law_first_match_decides_visibility(hits: Seq<InfoView>, more: InfoView)
    requires
        hits.len() > 0,
    ensures
        hidden(hits.push(more)) == hidden(hits),
        hidden(hits) <==> !hits[0].states.contains("showing"@),
{
}

/// The role told of an element is the toolkit's own, and its tag only where there is none. Its
/// bounds are the element's, and the error comes only where it has none. A locator's own time
/// limit counts more than the session's.
pub proof fn law_own_values_come_first(
    info: InfoView,
    missing: ErrorView,
    own: Option<nat>,
    session: nat,
)
    ensures
        info.role_raw is Some ==> told_role(info) == info.role_raw->0,
        info.role_raw is None ==> told_role(info) == info.role,
        info.bounds is Some ==> bounds_or(info, missing) == Ok::<Rect, ErrorView>(info.bounds->0),
        info.bounds is None ==> bounds_or(info, missing) == Err::<Rect, ErrorView>(missing),
        own is Some ==> limit_of(own, session) == own->0,
        limit_of(None, session) == session,
{
}

} // verus!
