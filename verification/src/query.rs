//! XPath queries over snapshot documents.
use crate::atspi::{self, is_builtin, is_state_attr};
use crate::error::{self, Error, ErrorView};
use crate::geometry::{self, Rect};
use crate::snapshot;
use crate::text::{self, chars_of, clone_optional, clone_pairs, clone_texts, same_text, split_once_at};
use sxd_document::Package;
use sxd_xpath::XPath;
use vstd::prelude::*;
use vstd::string::*;

verus! {

// ── Query replies ───────────────────────────────────────────────────────────

/// An attribute of a matched element.
#[derive(Debug, Clone)]
pub struct QueryAttribute {
    /// Namespace of the name, where it has one.
    pub namespace: Option<String>,
    /// Local part of the name.
    pub name: String,
    pub value: String,
}

/// A matched element.
#[derive(Debug)]
pub struct QueryElement {
    /// Local part of the element's name.
    pub name: String,
    pub attributes: Vec<QueryAttribute>,
}

/// The mathematical value of a [`QueryAttribute`].
#[verifier::ext_equal]
pub struct AttributeNode {
    pub namespace: Option<Seq<char>>,
    pub name: Seq<char>,
    pub value: Seq<char>,
}

/// The mathematical value of a [`QueryElement`].
#[verifier::ext_equal]
pub struct ElementNode {
    pub name: Seq<char>,
    pub attributes: Seq<AttributeNode>,
}

impl View for QueryAttribute {
    type V = AttributeNode;

    open spec fn view(&self) -> AttributeNode {
        AttributeNode {
            namespace: error::optional(self.namespace),
            name: self.name@,
            value: self.value@,
        }
    }
}

impl View for QueryElement {
    type V = ElementNode;

    open spec fn view(&self) -> ElementNode {
        ElementNode {
            name: self.name@,
            attributes: self.attributes@.map_values(|a: QueryAttribute| a@),
        }
    }
}

/// The mathematical values of matched nodes; `None` is a node that is no element.
pub open spec fn nodes_of(v: Seq<Option<QueryElement>>) -> Seq<Option<ElementNode>> {
    v.map_values(
        |n: Option<QueryElement>|
            match n {
                Some(e) => Some(e@),
                None => None::<ElementNode>,
            },
    )
}

// ── Selectors that the engine can run ───────────────────────────────────────

/// The quote character of the string literal that position `i` of a selector lies
/// in, if it lies in one.
pub open spec fn literal_at(s: Seq<char>, i: int) -> Option<char>
    decreases i,
{
    if i <= 0 {
        None
    } else {
        match literal_at(s, i - 1) {
            None => if s[i - 1] == '"' || s[i - 1] == '\'' {
                Some(s[i - 1])
            } else {
                None
            },
            Some(q) => if s[i - 1] == q {
                None
            } else {
                Some(q)
            },
        }
    }
}

/// Whether `c` can stand in a name, as far as the grammar of selectors tells names
/// from what surrounds them.
pub open spec fn name_char(c: char) -> bool {
    !(c == ' ' || c == '\t' || c == '\n' || c == '\r' || c == '/' || c == '(' || c == ')' || c == '['
        || c == ']' || c == '@' || c == '+' || c == '|' || c == '=' || c == '<' || c == '>' || c == ','
        || c == '"' || c == '\'' || c == '$' || c == '*' || c == '!' || c == ':')
}

fn is_name_char(c: char) -> (r: bool)
    ensures
        r == name_char(c),
{
    !(c == ' ' || c == '\t' || c == '\n' || c == '\r' || c == '/' || c == '(' || c == ')' || c == '['
        || c == ']' || c == '@' || c == '+' || c == '|' || c == '=' || c == '<' || c == '>' || c == ','
        || c == '"' || c == '\'' || c == '$' || c == '*' || c == '!' || c == ':')
}

/// Whether the name that position `i` begins is that of a function.
pub open spec fn calls(s: Seq<char>, i: int) -> bool
    decreases s.len() - i,
{
    if i < 0 || i >= s.len() {
        false
    } else if s[i] == '(' {
        true
    } else {
        name_char(s[i]) && calls(s, i + 1)
    }
}

/// Whether the name that ends before position `i` is that of a variable.
pub open spec fn names_variable(s: Seq<char>, i: int) -> bool
    decreases i,
{
    if i <= 0 || i > s.len() {
        false
    } else if s[i - 1] == '$' {
        true
    } else {
        name_char(s[i - 1]) && names_variable(s, i - 1)
    }
}

fn is_call(cs: &Vec<char>, from: usize) -> (r: bool)
    requires
        from <= cs.len(),
    ensures
        r == calls(cs@, from as int),
{
    let mut i: usize = from;
    while i < cs.len() && cs[i] != '(' && is_name_char(cs[i])
        invariant
            from <= i <= cs.len(),
            calls(cs@, from as int) == calls(cs@, i as int),
        decreases cs.len() - i,
    {
        i = i + 1;
    }
    i < cs.len() && cs[i] == '('
}

fn is_variable(cs: &Vec<char>, to: usize) -> (r: bool)
    requires
        to <= cs.len(),
    ensures
        r == names_variable(cs@, to as int),
{
    let mut i: usize = to;
    while i > 0 && cs[i - 1] != '$' && is_name_char(cs[i - 1])
        invariant
            i <= to <= cs.len(),
            names_variable(cs@, to as int) == names_variable(cs@, i as int),
        decreases i,
    {
        i = i - 1;
    }
    i > 0 && cs[i - 1] == '$'
}

/// Whether position `i` of a selector holds the colon of a test for a prefixed
/// name: one that stands alone, outside of string literals, and belongs to the
/// name of neither a function nor a variable.
pub open spec fn prefix_at(s: Seq<char>, i: int) -> bool {
    &&& 0 <= i < s.len() && s[i] == ':'
    &&& literal_at(s, i) is None
    &&& i > 0 ==> s[i - 1] != ':'
    &&& i + 1 < s.len() ==> s[i + 1] != ':'
    &&& !calls(s, i + 1)
    &&& !names_variable(s, i)
}

/// Whether a selector tests for a name with a namespace prefix. No prefix is ever
/// declared for a query, and the engine has no answer to such a test.
pub open spec fn uses_prefix(s: Seq<char>) -> bool {
    exists|i: int| prefix_at(s, i)
}

/// Whether a selector tests for a name with a namespace prefix.
pub fn selector_uses_prefix(xpath: &str) -> (r: bool)
    ensures
        r == uses_prefix(xpath@),
{
    let cs = chars_of(xpath);
    let mut quote: Option<char> = None;
    let mut i: usize = 0;
    while i < cs.len()
        invariant
            cs@ == xpath@,
            i <= cs.len(),
            quote == literal_at(cs@, i as int),
            forall|k: int| 0 <= k < i ==> !prefix_at(cs@, k),
        decreases cs.len() - i,
    {
        let c = cs[i];
        match quote {
            None => {
                if c == ':' && (i == 0 || cs[i - 1] != ':') && (i + 1 == cs.len() || cs[i + 1]
                    != ':') && !is_call(&cs, i + 1) && !is_variable(&cs, i) {
                    assert(prefix_at(cs@, i as int));
                    return true;
                }
                if c == '"' || c == '\'' {
                    quote = Some(c);
                }
            },
            Some(q) => {
                if c == q {
                    quote = None;
                }
            },
        }
        i = i + 1;
    }
    assert forall|k: int| !prefix_at(xpath@, k) by {
        if 0 <= k < cs@.len() {
            assert(!prefix_at(cs@, k));
        }
    }
    false
}

/// Whether a selector holds a word that begins outside of its string literals.
pub open spec fn outside_literals(s: Seq<char>, word: Seq<char>) -> bool {
    exists|i: int|
        0 <= i && i + word.len() <= s.len() && literal_at(s, i) is None && #[trigger] s.subrange(
            i,
            i + word.len(),
        ) == word
}

/// Whether `c` separates the attributes of a document.
pub open spec fn blank(c: char) -> bool {
    c == ' ' || c == '\t' || c == '\n' || c == '\r'
}

/// Whether a document can declare a namespace prefix: `xmlns:` stands directly behind
/// white space.
pub open spec fn declares_prefix(xml: Seq<char>) -> bool {
    exists|i: int|
        0 <= i && i + 7 <= xml.len() && blank(xml[i]) && #[trigger] xml.subrange(i + 1, i + 7)
            == "xmlns:"@
}

/// Whether the outcome of a query follows from document and selector alone. The engine
/// walks hash tables in three places only: to sum up numbers, to put namespace nodes in
/// order, and to pick the prefix of a name where the document declares prefixes.
pub open spec fn reproducible(xml: Seq<char>, xpath: Seq<char>) -> bool {
    &&& !outside_literals(xpath, "sum("@)
    &&& !outside_literals(xpath, "namespace::"@)
    &&& declares_prefix(xml) ==> !outside_literals(xpath, "name("@)
}

// ── The XPath engine ────────────────────────────────────────────────────────

/// A parsed document of the `sxd_document` crate.
#[verifier::external_type_specification]
#[verifier::external_body]
pub struct ExPackage(sxd_document::Package);

/// A compiled selector of the `sxd_xpath` crate.
#[verifier::external_type_specification]
#[verifier::external_body]
pub struct ExXPath(sxd_xpath::XPath);

/// The text a document was parsed from.
pub uninterp spec fn document_text(document: Package) -> Seq<char>;

/// The text a selector was compiled from.
pub uninterp spec fn selector_text(selector: XPath) -> Seq<char>;

/// The message with which `sxd_document::parser::parse` rejects a text, `None`
/// for a text that it accepts.
pub uninterp spec fn document_error(xml: Seq<char>) -> Option<Seq<char>>;

/// What `sxd_xpath::Factory::build` makes of a text: the message with which it
/// rejects it, or whether there is a selector in it at all.
pub uninterp spec fn selector_build(xpath: Seq<char>) -> Result<bool, Seq<char>>;

/// What `sxd_xpath::XPath::evaluate` makes of a selector at the root of a
/// document: `None` for an error, `Some(None)` for a value that is no node-set,
/// else the nodes in document order.
pub uninterp spec fn evaluation(xml: Seq<char>, xpath: Seq<char>) -> Option<
    Option<Seq<Option<ElementNode>>>,
>;

/// Calls `sxd_document::parser::parse`. Whether a text is accepted, and the
/// message if not, follow from the text; the document is one made from that text.
#[verifier::external_body]
fn parse_document(xml: &str) -> (r: Result<Package, String>)
    ensures
        match r {
            Ok(p) => document_error(xml@) is None && document_text(p) == xml@,
            Err(e) => document_error(xml@) == Some(e@),
        },
{
    sxd_document::parser::parse(xml).map_err(|e| e.to_string())
}

/// Calls `sxd_xpath::Factory::build`. What comes of a text follows from it; the
/// selector is one made from that text.
#[verifier::external_body]
fn build_selector(xpath: &str) -> (r: Result<Option<XPath>, String>)
    ensures
        match r {
            Ok(Some(x)) => selector_build(xpath@) == Ok::<bool, Seq<char>>(true) && selector_text(x)
                == xpath@,
            Ok(None) => selector_build(xpath@) == Ok::<bool, Seq<char>>(false),
            Err(e) => selector_build(xpath@) == Err::<bool, Seq<char>>(e@),
        },
{
    sxd_xpath::Factory::new().build(xpath).map_err(|e| e.to_string())
}

/// The mathematical value of what an evaluation gave.
pub open spec fn reply_of(r: Result<Option<Vec<Option<QueryElement>>>, String>) -> Option<
    Option<Seq<Option<ElementNode>>>,
> {
    match r {
        Ok(Some(v)) => Some(Some(nodes_of(v@))),
        Ok(None) => Some(None),
        Err(_) => None,
    }
}

/// Calls `sxd_xpath::XPath::evaluate` at the root of the document with the core
/// functions and no variable or namespace, and reads off the nodes in document
/// order. What comes of it follows from the two texts where they are `reproducible`;
/// elsewhere it can depend on the order in which a hash table is walked, and nothing is
/// stated. Nor is the message of an error: of several nodes that each fail, the one that
/// is walked first decides it. The engine panics on a test for a prefixed name.
#[verifier::external_body]
fn evaluate_selector(document: &Package, selector: &XPath) -> (r: Result<
    Option<Vec<Option<QueryElement>>>,
    String,
>)
    requires
        !uses_prefix(selector_text(*selector)),
    ensures
        reproducible(document_text(*document), selector_text(*selector)) ==> reply_of(r)
            == evaluation(document_text(*document), selector_text(*selector)),
{
    let ctx = sxd_xpath::Context::new();
    match selector.evaluate(&ctx, document.as_document().root()).map_err(|e| e.to_string())? {
        sxd_xpath::Value::Nodeset(nodes) => Ok(Some(nodes.document_order().into_iter().map(|node|
            node.element().map(|e| QueryElement {
                name: e.name().local_part().to_string(),
                attributes: e.attributes().into_iter().map(|a| QueryAttribute {
                    namespace: a.name().namespace_uri().map(|u| u.to_string()),
                    name: a.name().local_part().to_string(),
                    value: a.value().to_string(),
                }).collect(),
            })).collect())),
        _ => Ok(None),
    }
}

/// An invalid selector and the reason.
pub open spec fn invalid(xpath: Seq<char>, reason: Seq<char>) -> ErrorView {
    ErrorView::InvalidSelector { xpath, reason }
}

/// What a query comes to, given what the engine says of the document, of the selector
/// and of the evaluation (with `reason` the message of an evaluation error): a malformed
/// document, a malformed or empty selector, an evaluation error and a value that is no
/// node-set are errors, in this order.
pub open spec fn query_result(
    xpath: Seq<char>,
    rejected: Option<Seq<char>>,
    built: Result<bool, Seq<char>>,
    evaluated: Option<Option<Seq<Option<ElementNode>>>>,
    reason: Seq<char>,
) -> Result<Seq<Option<ElementNode>>, ErrorView> {
    match rejected {
        Some(e) => Err(error::atspi_caused("failed to parse snapshot XML"@, e)),
        None => match built {
            Err(e) => Err(invalid(xpath, e)),
            Ok(false) => Err(invalid(xpath, "empty xpath"@)),
            Ok(true) => match evaluated {
                None => Err(invalid(xpath, reason)),
                Some(None) => Err(invalid(xpath, "xpath did not return a node-set"@)),
                Some(Some(nodes)) => Ok(nodes),
            },
        },
    }
}

/// Whether `r` is what a query can come to, its nodes taken by `f`.
pub open spec fn query_answer<T>(
    xml: Seq<char>,
    xpath: Seq<char>,
    r: Result<T, ErrorView>,
    f: spec_fn(Seq<Option<ElementNode>>) -> T,
) -> bool {
    exists|evaluated: Option<Option<Seq<Option<ElementNode>>>>, reason: Seq<char>|
        {
            &&& reproducible(xml, xpath) ==> evaluated == evaluation(xml, xpath)
            &&& r == (match #[trigger] query_result(
                xpath,
                document_error(xml),
                selector_build(xpath),
                evaluated,
                reason,
            ) {
                Ok(nodes) => Ok(f(nodes)),
                Err(e) => Err::<T, ErrorView>(e),
            })
        }
}

/// Whether a query gets as far as an evaluation: document and selector are accepted.
pub open spec fn evaluates(xml: Seq<char>, xpath: Seq<char>) -> bool {
    document_error(xml) is None && selector_build(xpath) == Ok::<bool, Seq<char>>(true)
}

/// Whether the engine has an answer: it is asked to evaluate nothing, or a selector
/// without a test for a prefixed name.
pub open spec fn runnable(xml: Seq<char>, xpath: Seq<char>) -> bool {
    evaluates(xml, xpath) ==> !uses_prefix(xpath)
}

/// Whether the engine has an answer.
pub fn can_run(xml: &str, xpath: &str) -> (r: bool)
    ensures
        r == runnable(xml@, xpath@),
{
    if !selector_uses_prefix(xpath) {
        return true;
    }
    match parse_document(xml) {
        Ok(_) => match build_selector(xpath) {
            Ok(Some(_)) => false,
            _ => true,
        },
        Err(_) => true,
    }
}

fn invalid_selector(xpath: &str, reason: &str) -> (r: Error)
    ensures
        r@ == invalid(xpath@, reason@),
{
    Error::InvalidSelector { xpath: xpath.to_string(), reason: reason.to_string() }
}

/// The mathematical value of a result that gives nodes.
pub open spec fn nodes_outcome(r: Result<Vec<Option<QueryElement>>, Error>) -> Result<
    Seq<Option<ElementNode>>,
    ErrorView,
> {
    match r {
        Ok(v) => Ok(nodes_of(v@)),
        Err(e) => Err(e@),
    }
}

/// The message of an evaluation error.
pub open spec fn message_of(r: Result<Option<Vec<Option<QueryElement>>>, String>) -> Seq<char> {
    match r {
        Ok(_) => Seq::empty(),
        Err(e) => e@,
    }
}

/// What a query comes to, given the message with which the document was rejected, if it
/// was, whether there is a selector or the message with which it was rejected, and what
/// evaluating it gave.
pub fn query_outcome(
    xpath: &str,
    rejected: Option<String>,
    built: Result<bool, String>,
    evaluated: Result<Option<Vec<Option<QueryElement>>>, String>,
) -> (r: Result<Vec<Option<QueryElement>>, Error>)
    ensures
        nodes_outcome(r) == query_result(
            xpath@,
            error::optional(rejected),
            match built {
                Ok(b) => Ok(b),
                Err(e) => Err(e@),
            },
            reply_of(evaluated),
            message_of(evaluated),
        ),
{
    if let Some(e) = rejected {
        return Err(Error::atspi_with("failed to parse snapshot XML", e.as_str()));
    }
    match built {
        Err(e) => Err(invalid_selector(xpath, e.as_str())),
        Ok(false) => Err(invalid_selector(xpath, "empty xpath")),
        Ok(true) => match evaluated {
            Ok(Some(v)) => Ok(v),
            Ok(None) => Err(invalid_selector(xpath, "xpath did not return a node-set")),
            Err(e) => Err(invalid_selector(xpath, e.as_str())),
        },
    }
}

/// Runs a selector over a document and gives the matched nodes.
pub fn run_query(xml: &str, xpath: &str) -> (r: Result<Vec<Option<QueryElement>>, Error>)
    requires
        runnable(xml@, xpath@),
    ensures
        query_answer(
            xml@,
            xpath@,
            nodes_outcome(r),
            |nodes: Seq<Option<ElementNode>>| nodes,
        ),
{
    let ghost rejected = document_error(xml@);
    let ghost built = selector_build(xpath@);
    let ghost unasked = evaluation(xml@, xpath@);
    let ghost silent = Seq::<char>::empty();
    let document = match parse_document(xml) {
        Ok(p) => p,
        Err(e) => {
            assert(query_result(xpath@, rejected, built, unasked, silent) is Err);
            return query_outcome(xpath, Some(e), Ok(false), Ok(None));
        },
    };
    let selector = match build_selector(xpath) {
        Ok(Some(x)) => x,
        Ok(None) => {
            assert(query_result(xpath@, rejected, built, unasked, silent) is Err);
            return query_outcome(xpath, None, Ok(false), Ok(None));
        },
        Err(e) => {
            assert(query_result(xpath@, rejected, built, unasked, silent) is Err);
            return query_outcome(xpath, None, Err(e), Ok(None));
        },
    };
    let reply = evaluate_selector(&document, &selector);
    let ghost evaluated = reply_of(reply);
    let ghost reason = message_of(reply);
    let r = query_outcome(xpath, None, Ok(true), reply);
    assert(nodes_outcome(r) == query_result(xpath@, rejected, built, evaluated, reason));
    r
}

// ── Matched elements ────────────────────────────────────────────────────────

/// Toolkit attributes of an element, found by name.
#[derive(Debug)]
pub struct Attributes {
    pairs: Vec<(String, String)>,
}

spec fn last_value(pairs: Seq<(String, String)>, key: Seq<char>) -> Option<Seq<char>>
    decreases pairs.len(),
{
    if pairs.len() == 0 {
        None
    } else if pairs.last().0@ == key {
        Some(pairs.last().1@)
    } else {
        last_value(pairs.drop_last(), key)
    }
}

impl View for Attributes {
    type V = Map<Seq<char>, Seq<char>>;

    closed spec fn view(&self) -> Map<Seq<char>, Seq<char>> {
        Map::new(
            |k: Seq<char>| last_value(self.pairs@, k) is Some,
            |k: Seq<char>| last_value(self.pairs@, k)->0,
        )
    }
}

impl Clone for Attributes {
    fn clone(&self) -> (r: Self)
        ensures
            r@ == self@,
    {
        Attributes { pairs: clone_pairs(&self.pairs) }
    }
}

impl Attributes {
    /// No attribute.
    pub fn new() -> (r: Self)
        ensures
            r@ == Map::<Seq<char>, Seq<char>>::empty(),
    {
        let r = Attributes { pairs: Vec::new() };
        assert(r@ =~= Map::<Seq<char>, Seq<char>>::empty());
        r
    }

    /// Sets `key` to `value`.
    pub fn insert(&mut self, key: String, value: String)
        ensures
            final(self)@ == old(self)@.insert(key@, value@),
    {
        let ghost before = self.pairs@;
        self.pairs.push((key, value));
        assert(self.pairs@.drop_last() =~= before);
        assert(self@ =~= old(self)@.insert(key@, value@));
    }

    /// The value of `key`.
    pub fn get(&self, key: &str) -> (r: Option<&String>)
        ensures
            match r {
                Some(v) => self@.dom().contains(key@) && self@[key@] == v@,
                None => !self@.dom().contains(key@),
            },
    {
        let mut n: usize = self.pairs.len();
        assert(self.pairs@.take(n as int) =~= self.pairs@);
        while n > 0
            invariant
                n <= self.pairs.len(),
                last_value(self.pairs@, key@) == last_value(self.pairs@.take(n as int), key@),
            decreases n,
        {
            assert(self.pairs@.take(n as int).drop_last() =~= self.pairs@.take(n - 1));
            assert(self.pairs@.take(n as int).last() == self.pairs@[n - 1]);
            if same_text(self.pairs[n - 1].0.as_str(), key) {
                return Some(&self.pairs[n - 1].1);
            }
            n = n - 1;
        }
        None
    }

    /// Whether `key` has a value.
    pub fn contains_key(&self, key: &str) -> (r: bool)
        ensures
            r == self@.dom().contains(key@),
    {
        self.get(key).is_some()
    }
}

/// Snapshot metadata of an element matched by a query: the element as it was when
/// the snapshot was taken.
#[derive(Debug)]
pub struct ElementInfo {
    /// `(bus, path)` identity.
    pub ref_: (String, String),
    /// Tag in the snapshot, such as `"PushButton"`.
    pub role: String,
    /// Role as the toolkit reports it.
    pub role_raw: Option<String>,
    pub name: Option<String>,
    pub description: Option<String>,
    /// Toolkit attributes, without those the snapshot emits itself.
    pub attributes: Attributes,
    /// Names of the set states.
    pub states: Vec<String>,
    pub bounds: Option<Rect>,
}

/// The mathematical value of an [`ElementInfo`].
#[verifier::ext_equal]
pub struct InfoView {
    pub ref_: (Seq<char>, Seq<char>),
    pub role: Seq<char>,
    pub role_raw: Option<Seq<char>>,
    pub name: Option<Seq<char>>,
    pub description: Option<Seq<char>>,
    pub attributes: Map<Seq<char>, Seq<char>>,
    pub states: Seq<Seq<char>>,
    pub bounds: Option<Rect>,
}

impl View for ElementInfo {
    type V = InfoView;

    open spec fn view(&self) -> InfoView {
        InfoView {
            ref_: snapshot::key_of(self.ref_),
            role: self.role@,
            role_raw: error::optional(self.role_raw),
            name: error::optional(self.name),
            description: error::optional(self.description),
            attributes: self.attributes@,
            states: atspi::texts(self.states@),
            bounds: self.bounds,
        }
    }
}

impl Clone for ElementInfo {
    fn clone(&self) -> (r: Self)
        ensures
            r@ == self@,
    {
        ElementInfo {
            ref_: (self.ref_.0.clone(), self.ref_.1.clone()),
            role: self.role.clone(),
            role_raw: clone_optional(&self.role_raw),
            name: clone_optional(&self.name),
            description: clone_optional(&self.description),
            attributes: self.attributes.clone(),
            states: clone_texts(&self.states),
            bounds: self.bounds,
        }
    }
}

/// The mathematical values of matched elements.
pub open spec fn infos(v: Seq<ElementInfo>) -> Seq<InfoView> {
    v.map_values(|i: ElementInfo| i@)
}

/// The value of the attribute `key`, which has no namespace.
pub open spec fn value_of(attributes: Seq<AttributeNode>, key: Seq<char>) -> Option<Seq<char>>
    decreases attributes.len(),
{
    if attributes.len() == 0 {
        None
    } else if attributes[0].namespace is None && attributes[0].name == key {
        Some(attributes[0].value)
    } else {
        value_of(attributes.skip(1), key)
    }
}

/// The names of the states that the attributes say are set.
pub open spec fn states_in(attributes: Seq<AttributeNode>) -> Seq<Seq<char>>
    decreases attributes.len(),
{
    if attributes.len() == 0 {
        Seq::empty()
    } else {
        let front = states_in(attributes.drop_last());
        let a = attributes.last();
        if !atspi::builtin(a.name) && atspi::state_attr(a.name) && a.value == "true"@ {
            front.push(a.name)
        } else {
            front
        }
    }
}

/// The attributes that stand for neither a state nor anything else the snapshot
/// emits itself.
pub open spec fn toolkit_in(attributes: Seq<AttributeNode>) -> Map<Seq<char>, Seq<char>>
    decreases attributes.len(),
{
    if attributes.len() == 0 {
        Map::empty()
    } else {
        let front = toolkit_in(attributes.drop_last());
        let a = attributes.last();
        if !atspi::builtin(a.name) && !atspi::state_attr(a.name) {
            front.insert(a.name, a.value)
        } else {
            front
        }
    }
}

/// The identity that an element's `_ref` attribute carries.
pub open spec fn identity(e: ElementNode) -> Option<(Seq<char>, Seq<char>)> {
    match value_of(e.attributes, "_ref"@) {
        Some(v) => text::split_once(v, '|'),
        None => None,
    }
}

/// The metadata of an element that carries an identity.
pub open spec fn described(e: ElementNode, id: (Seq<char>, Seq<char>)) -> InfoView {
    InfoView {
        ref_: id,
        role: e.name,
        role_raw: value_of(e.attributes, "role"@),
        name: value_of(e.attributes, "name"@),
        description: value_of(e.attributes, "description"@),
        attributes: toolkit_in(e.attributes),
        states: states_in(e.attributes),
        bounds: match value_of(e.attributes, "bbox"@) {
            Some(v) => geometry::parsed_bbox(v),
            None => None,
        },
    }
}

/// The metadata of those nodes that are elements with an identity.
pub open spec fn described_all(nodes: Seq<Option<ElementNode>>) -> Seq<InfoView>
    decreases nodes.len(),
{
    if nodes.len() == 0 {
        Seq::empty()
    } else {
        let front = described_all(nodes.drop_last());
        match nodes.last() {
            Some(e) => match identity(e) {
                Some(id) => front.push(described(e, id)),
                None => front,
            },
            None => front,
        }
    }
}

/// The identities of those nodes that are elements with one.
pub open spec fn identities(nodes: Seq<Option<ElementNode>>) -> Seq<(Seq<char>, Seq<char>)>
    decreases nodes.len(),
{
    if nodes.len() == 0 {
        Seq::empty()
    } else {
        let front = identities(nodes.drop_last());
        match nodes.last() {
            Some(e) => match identity(e) {
                Some(id) => front.push(id),
                None => front,
            },
            None => front,
        }
    }
}

fn attribute_value<'a>(e: &'a QueryElement, key: &str) -> (r: Option<&'a String>)
    ensures
        match r {
            Some(v) => value_of(e@.attributes, key@) == Some(v@),
            None => value_of(e@.attributes, key@) is None,
        },
{
    let ghost all = e@.attributes;
    let mut i: usize = 0;
    assert(all.skip(0) =~= all);
    while i < e.attributes.len()
        invariant
            all == e@.attributes,
            i <= e.attributes.len(),
            value_of(all, key@) == value_of(all.skip(i as int), key@),
        decreases e.attributes.len() - i,
    {
        let a = &e.attributes[i];
        assert(all.skip(i as int)[0] == a@);
        assert(all.skip(i as int).skip(1) =~= all.skip(i + 1));
        if a.namespace.is_none() && same_text(a.name.as_str(), key) {
            return Some(&a.value);
        }
        i = i + 1;
    }
    None
}

fn identity_of(e: &QueryElement) -> (r: Option<(String, String)>)
    ensures
        match r {
            Some(k) => identity(e@) == Some(snapshot::key_of(k)),
            None => identity(e@) is None,
        },
{
    match attribute_value(e, "_ref") {
        Some(v) => split_once_at(&chars_of(v.as_str()), '|'),
        None => None,
    }
}

fn optional_value(e: &QueryElement, key: &str) -> (r: Option<String>)
    ensures
        error::optional(r) == value_of(e@.attributes, key@),
{
    match attribute_value(e, key) {
        Some(v) => Some(v.clone()),
        None => None,
    }
}

fn describe_element(e: &QueryElement, id: (String, String)) -> (r: ElementInfo)
    ensures
        r@ == described(e@, snapshot::key_of(id)),
{
    let bounds = match attribute_value(e, "bbox") {
        Some(v) => Rect::parse_bbox(v.as_str()),
        None => None,
    };
    let ghost all = e@.attributes;
    let mut attributes = Attributes::new();
    let mut states: Vec<String> = Vec::new();
    let mut i: usize = 0;
    assert(atspi::texts(states@) =~= states_in(all.take(0)));
    while i < e.attributes.len()
        invariant
            all == e@.attributes,
            i <= e.attributes.len(),
            attributes@ == toolkit_in(all.take(i as int)),
            atspi::texts(states@) == states_in(all.take(i as int)),
        decreases e.attributes.len() - i,
    {
        let a = &e.attributes[i];
        proof {
            assert(all.take(i + 1).drop_last() =~= all.take(i as int));
            assert(all.take(i + 1).last() == a@);
        }
        let key = a.name.as_str();
        if !is_builtin(key) {
            if is_state_attr(key) {
                if same_text(a.value.as_str(), "true") {
                    let ghost before = states@;
                    states.push(a.name.clone());
                    assert(atspi::texts(states@) =~= atspi::texts(before).push(a.name@));
                }
            } else {
                attributes.insert(a.name.clone(), a.value.clone());
            }
        }
        i = i + 1;
    }
    assert(all.take(i as int) =~= all);
    ElementInfo {
        ref_: id,
        role: e.name.clone(),
        role_raw: optional_value(e, "role"),
        name: optional_value(e, "name"),
        description: optional_value(e, "description"),
        attributes,
        states,
        bounds,
    }
}

/// The identities of matched nodes, in order. A node that is no element or carries
/// no identity is passed over.
pub fn references(nodes: &Vec<Option<QueryElement>>) -> (r: Vec<(String, String)>)
    ensures
        snapshot::keys_of(r@) == identities(nodes_of(nodes@)),
{
    let ghost all = nodes_of(nodes@);
    let mut out: Vec<(String, String)> = Vec::new();
    let mut i: usize = 0;
    assert(snapshot::keys_of(out@) =~= identities(all.take(0)));
    while i < nodes.len()
        invariant
            all == nodes_of(nodes@),
            i <= nodes.len(),
            snapshot::keys_of(out@) == identities(all.take(i as int)),
        decreases nodes.len() - i,
    {
        proof {
            assert(all.take(i + 1).drop_last() =~= all.take(i as int));
            assert(all.take(i + 1).last() == all[i as int]);
        }
        if let Some(e) = &nodes[i] {
            if let Some(id) = identity_of(e) {
                let ghost before = out@;
                let ghost k = snapshot::key_of(id);
                out.push(id);
                assert(snapshot::keys_of(out@) =~= snapshot::keys_of(before).push(k));
            }
        }
        i = i + 1;
    }
    assert(all.take(i as int) =~= all);
    out
}

/// The metadata of matched nodes, in order. A node that is no element or carries no
/// identity is passed over.
pub fn describe(nodes: &Vec<Option<QueryElement>>) -> (r: Vec<ElementInfo>)
    ensures
        infos(r@) == described_all(nodes_of(nodes@)),
{
    let ghost all = nodes_of(nodes@);
    let mut out: Vec<ElementInfo> = Vec::new();
    let mut i: usize = 0;
    assert(infos(out@) =~= described_all(all.take(0)));
    while i < nodes.len()
        invariant
            all == nodes_of(nodes@),
            i <= nodes.len(),
            infos(out@) == described_all(all.take(i as int)),
        decreases nodes.len() - i,
    {
        proof {
            assert(all.take(i + 1).drop_last() =~= all.take(i as int));
            assert(all.take(i + 1).last() == all[i as int]);
        }
        if let Some(e) = &nodes[i] {
            if let Some(id) = identity_of(e) {
                let ghost before = out@;
                let info = describe_element(e, id);
                let ghost v = info@;
                out.push(info);
                assert(infos(out@) =~= infos(before).push(v));
            }
        }
        i = i + 1;
    }
    assert(all.take(i as int) =~= all);
    out
}

/// Evaluates a selector over a snapshot document and gives the identities of the
/// matched elements, in document order.
pub fn evaluate_xpath(xml: &str, xpath: &str) -> (r: Result<Vec<(String, String)>, Error>)
    requires
        runnable(xml@, xpath@),
    ensures
        query_answer(
            xml@,
            xpath@,
            match r {
                Ok(v) => Ok(snapshot::keys_of(v@)),
                Err(e) => Err(e@),
            },
            |nodes: Seq<Option<ElementNode>>| identities(nodes),
        ),
{
    match run_query(xml, xpath) {
        Ok(nodes) => Ok(references(&nodes)),
        Err(e) => Err(e),
    }
}

/// Evaluates a selector over a snapshot document and gives the metadata of the
/// matched elements, in document order.
pub fn evaluate_xpath_detailed(xml: &str, xpath: &str) -> (r: Result<Vec<ElementInfo>, Error>)
    requires
        runnable(xml@, xpath@),
    ensures
        query_answer(
            xml@,
            xpath@,
            match r {
                Ok(v) => Ok(infos(v@)),
                Err(e) => Err(e@),
            },
            |nodes: Seq<Option<ElementNode>>| described_all(nodes),
        ),
{
    match run_query(xml, xpath) {
        Ok(nodes) => Ok(describe(&nodes)),
        Err(e) => Err(e),
    }
}

// ── Laws ────────────────────────────────────────────────────────────────────

/// The two evaluations agree: the identities are those of the metadata.
pub proof fn law_identities_of_descriptions(nodes: Seq<Option<ElementNode>>)
    ensures
        identities(nodes) == described_all(nodes).map_values(|i: InfoView| i.ref_),
    decreases nodes.len(),
{
    let f = |i: InfoView| i.ref_;
    if nodes.len() == 0 {
        assert(described_all(nodes).map_values(f) =~= Seq::empty());
    } else {
        law_identities_of_descriptions(nodes.drop_last());
        let front = described_all(nodes.drop_last());
        match nodes.last() {
            Some(e) => match identity(e) {
                Some(id) => {
                    assert(front.push(described(e, id)).map_values(f) =~= front.map_values(f).push(
                        id,
                    ));
                },
                None => {},
            },
            None => {},
        }
    }
}

/// The two evaluations of a selector agree: they succeed on the same inputs, with the
/// identities those of the metadata, and fail with errors of the same kind. Where nothing
/// is evaluated they fail with the very same error, whatever the selector holds.
pub proof fn law_evaluations_agree(
    xml: Seq<char>,
    xpath: Seq<char>,
    found: Result<Seq<(Seq<char>, Seq<char>)>, ErrorView>,
    detailed: Result<Seq<InfoView>, ErrorView>,
)
    requires
        evaluates(xml, xpath) ==> reproducible(xml, xpath),
        query_answer(xml, xpath, found, |nodes: Seq<Option<ElementNode>>| identities(nodes)),
        query_answer(xml, xpath, detailed, |nodes: Seq<Option<ElementNode>>| described_all(nodes)),
    ensures
        match (found, detailed) {
            (Ok(ids), Ok(infos)) => ids == infos.map_values(|i: InfoView| i.ref_),
            (Err(e), Err(f)) => {
                &&& !evaluates(xml, xpath) ==> e == f
                &&& evaluates(xml, xpath) ==> {
                    &&& e matches ErrorView::InvalidSelector { xpath: a, .. } && a == xpath
                    &&& f matches ErrorView::InvalidSelector { xpath: b, .. } && b == xpath
                }
            },
            _ => false,
        },
{
    match evaluation(xml, xpath) {
        Some(Some(nodes)) => law_identities_of_descriptions(nodes),
        _ => {},
    }
}

/// The identity written into a snapshot is read back from it: a bus name holds no
/// `|`, so the first one ends it, whatever the path holds.
pub proof fn law_identity_reads_back(bus: Seq<char>, path: Seq<char>)
    requires
        !bus.contains('|'),
    ensures
        text::split_once(bus + "|"@ + path, '|') == Some((bus, path)),
{
    reveal_strlit("|");
    let s = bus + "|"@ + path;
    assert forall|i: int| 0 <= i < bus.len() implies s[i] != '|' by {
        assert(bus.contains(bus[i]));
    }
    text::lemma_first_index_is(s, '|', bus.len() as int);
    assert(s.take(bus.len() as int) =~= bus);
    assert(s.skip(bus.len() as int + 1) =~= path);
}

/// The value of an attribute is that of the first one of its name that has no namespace.
pub proof fn law_first_attribute_counts(attributes: Seq<AttributeNode>, key: Seq<char>)
    ensures
        match value_of(attributes, key) {
            Some(v) => exists|i: int|
                {
                    &&& 0 <= i < attributes.len()
                    &&& (#[trigger] attributes[i]).name == key
                    &&& attributes[i].namespace is None
                    &&& attributes[i].value == v
                    &&& forall|j: int|
                        0 <= j < i ==> !((#[trigger] attributes[j]).name == key
                            && attributes[j].namespace is None)
                },
            None => forall|j: int|
                0 <= j < attributes.len() ==> !((#[trigger] attributes[j]).name == key
                    && attributes[j].namespace is None),
        },
    decreases attributes.len(),
{
    if attributes.len() > 0 {
        let a = attributes[0];
        if a.namespace is None && a.name == key {
            assert(attributes[0].value == value_of(attributes, key)->0);
        } else {
            let rest = attributes.skip(1);
            law_first_attribute_counts(rest, key);
            match value_of(rest, key) {
                Some(v) => {
                    let i = choose|i: int|
                        {
                            &&& 0 <= i < rest.len()
                            &&& (#[trigger] rest[i]).name == key
                            &&& rest[i].namespace is None
                            &&& rest[i].value == v
                            &&& forall|j: int|
                                0 <= j < i ==> !((#[trigger] rest[j]).name == key
                                    && rest[j].namespace is None)
                        };
                    assert(attributes[i + 1] == rest[i]);
                    assert forall|j: int| 0 <= j < i + 1 implies !((#[trigger] attributes[j]).name
                        == key && attributes[j].namespace is None) by {
                        if j > 0 {
                            assert(attributes[j] == rest[j - 1]);
                        }
                    }
                },
                None => {
                    assert forall|j: int| 0 <= j < attributes.len() implies !((
                    #[trigger] attributes[j]).name == key && attributes[j].namespace is None) by {
                        if j > 0 {
                            assert(attributes[j] == rest[j - 1]);
                        }
                    }
                },
            }
        }
    }
}

/// A state is set where an attribute of its name says `true`, and nowhere else.
pub proof fn law_states_are_read(attributes: Seq<AttributeNode>, s: atspi::State)
    ensures
        states_in(attributes).contains(s.attr()) <==> exists|i: int|
            0 <= i < attributes.len() && (#[trigger] attributes[i]).name == s.attr()
                && attributes[i].value == "true"@,
    decreases attributes.len(),
{
    if attributes.len() > 0 {
        let front = attributes.drop_last();
        law_states_are_read(front, s);
        atspi::law_every_state_is_emitted_once(s, s);
        atspi::law_builtin_names(s.attr());
        let (f, r) = (states_in(front), states_in(attributes));
        let last = attributes[attributes.len() - 1];
        if r.contains(s.attr()) {
            let k = choose|k: int| 0 <= k < r.len() && r[k] == s.attr();
            if k < f.len() {
                assert(f[k] == s.attr());
                let i = choose|i: int|
                    0 <= i < front.len() && (#[trigger] front[i]).name == s.attr()
                        && front[i].value == "true"@;
                assert(attributes[i] == front[i]);
            } else {
                assert(attributes[attributes.len() - 1].name == s.attr());
            }
        }
        if exists|i: int|
            0 <= i < attributes.len() && (#[trigger] attributes[i]).name == s.attr()
                && attributes[i].value == "true"@ {
            let i = choose|i: int|
                0 <= i < attributes.len() && (#[trigger] attributes[i]).name == s.attr()
                    && attributes[i].value == "true"@;
            if i < front.len() {
                assert(front[i] == attributes[i]);
                let k = choose|k: int| 0 <= k < f.len() && f[k] == s.attr();
                assert(r[k] == s.attr());
            } else {
                assert(r[f.len() as int] == s.attr());
            }
        }
    }
}

/// The toolkit attributes of an element are those that are neither a state nor the snapshot's
/// own, with the last value of each.
pub proof fn law_toolkit_attributes_are_read(attributes: Seq<AttributeNode>, a: AttributeNode)
    ensures
        toolkit_in(Seq::empty()) =~= Map::<Seq<char>, Seq<char>>::empty(),
        atspi::builtin(a.name) || atspi::state_attr(a.name) ==> toolkit_in(attributes.push(a))
            == toolkit_in(attributes) && !toolkit_in(attributes).contains_key(a.name),
        !atspi::builtin(a.name) && !atspi::state_attr(a.name) ==> toolkit_in(attributes.push(a))
            == toolkit_in(attributes).insert(a.name, a.value),
    decreases attributes.len(),
{
    assert(attributes.push(a).drop_last() =~= attributes);
    if attributes.len() > 0 {
        law_toolkit_attributes_are_read(attributes.drop_last(), a);
    }
}

/// Matched nodes are described one by one and in their order; a node that is no element or
/// has no identity is passed over.
pub proof fn law_nodes_are_described_in_order(
    nodes: Seq<Option<ElementNode>>,
    node: Option<ElementNode>,
)
    ensures
        described_all(Seq::empty()).len() == 0,
        node is None || identity(node->0) is None ==> described_all(nodes.push(node))
            == described_all(nodes) && identities(nodes.push(node)) == identities(nodes),
        node is Some && identity(node->0) is Some ==> {
            let id = identity(node->0)->0;
            &&& described_all(nodes.push(node)) == described_all(nodes).push(
                described(node->0, id),
            )
            &&& identities(nodes.push(node)) == identities(nodes).push(id)
        },
{
    assert(nodes.push(node).drop_last() =~= nodes);
}

/// A description tells of an element what its attributes say, each under its own name.
pub proof fn law_description_tells_the_attributes(
    e: ElementNode,
    id: (Seq<char>, Seq<char>),
    s: atspi::State,
    r: Rect,
)
    ensures
        ({
            let d = described(e, id);
            &&& d.ref_ == id
            &&& d.role == e.name
            &&& d.name == value_of(e.attributes, "name"@)
            &&& d.description == value_of(e.attributes, "description"@)
            &&& d.role_raw == value_of(e.attributes, "role"@)
            &&& value_of(e.attributes, "bbox"@) == Some(geometry::bbox_text(r)) ==> d.bounds
                == Some(r)
            &&& value_of(e.attributes, "bbox"@) is None ==> d.bounds is None
            &&& d.states.contains(s.attr()) <==> exists|i: int|
                0 <= i < e.attributes.len() && (#[trigger] e.attributes[i]).name == s.attr()
                    && e.attributes[i].value == "true"@
            &&& d.attributes == toolkit_in(e.attributes)
        }),
{
    geometry::law_bbox_reads_back(r);
    law_states_are_read(e.attributes, s);
}

/// Attributes as a document without namespaces has them.
pub open spec fn as_attributes(list: Seq<(Seq<char>, Seq<char>)>) -> Seq<AttributeNode> {
    list.map_values(
        |a: (Seq<char>, Seq<char>)| AttributeNode { namespace: None, name: a.0, value: a.1 },
    )
}

proof fn lemma_same_value(list: Seq<(Seq<char>, Seq<char>)>, key: Seq<char>)
    ensures
        value_of(as_attributes(list), key) == snapshot::value_of(list, key),
    decreases list.len(),
{
    if list.len() > 0 {
        lemma_same_value(list.skip(1), key);
        assert(as_attributes(list).skip(1) =~= as_attributes(list.skip(1)));
        assert(as_attributes(list)[0].name == list[0].0);
    }
}

/// What a snapshot says of a node is what a query tells of it: its name, its description, its
/// role, its bounds and its identity are read back from the element that was written.
pub proof fn law_query_tells_what_was_written(
    n: snapshot::NodeView,
    depth: nat,
    rest: Seq<char>,
    e: ElementNode,
)
    requires
        rest.len() == 0 || rest[0] != ' ',
        snapshot::printable(n.raw_role),
        snapshot::printable(n.name),
        snapshot::printable(n.description),
        snapshot::printable(n.bus),
        snapshot::printable(n.path),
        !n.bus.contains('|'),
        snapshot::element_head(snapshot::opening(n, depth) + rest) matches Some((tag, list))
            && e.name == tag && e.attributes == as_attributes(list),
    ensures
        identity(e) == Some((n.bus, n.path)),
        ({
            let d = described(e, (n.bus, n.path));
            &&& d.role == atspi::tag(n.raw_role)
            &&& d.role_raw == Some(n.raw_role)
            &&& n.name.len() > 0 ==> d.name == Some(n.name)
            &&& n.name.len() == 0 ==> d.name is None
            &&& n.description.len() > 0 ==> d.description == Some(n.description)
            &&& n.bounds is Some ==> d.bounds == n.bounds
        }),
{
    reveal_strlit("|");
    let text = snapshot::opening(n, depth) + rest;
    let list = (snapshot::element_head(text)->0).1;
    snapshot::law_element_carries_its_node(n, depth, rest);
    lemma_same_value(list, "role"@);
    lemma_same_value(list, "name"@);
    lemma_same_value(list, "description"@);
    lemma_same_value(list, "bbox"@);
    lemma_same_value(list, "_ref"@);
    if n.bounds is Some {
        snapshot::law_element_carries_its_bounds(n, depth, rest);
    }
    law_identity_reads_back(n.bus, n.path);
    assert(n.bus + "|"@ + n.path =~= n.bus.push('|') + n.path);
}

/// The first thing that is wrong decides the error of a query: the document, then the
/// selector, then its evaluation, then what it gives; only a node-set is an answer.
pub proof fn law_first_fault_decides(
    xpath: Seq<char>,
    rejected: Seq<char>,
    built: Result<bool, Seq<char>>,
    malformed: Seq<char>,
    evaluated: Option<Option<Seq<Option<ElementNode>>>>,
    nodes: Seq<Option<ElementNode>>,
    reason: Seq<char>,
)
    ensures
        query_result(xpath, Some(rejected), built, evaluated, reason) matches Err(
            ErrorView::Atspi { message, source },
        ) && source == Some(rejected) && message == "failed to parse snapshot XML: "@ + rejected,
        query_result(xpath, None, Err(malformed), evaluated, reason) == Err::<
            Seq<Option<ElementNode>>,
            ErrorView,
        >(ErrorView::InvalidSelector { xpath, reason: malformed }),
        query_result(xpath, None, Ok(false), evaluated, reason) == Err::<
            Seq<Option<ElementNode>>,
            ErrorView,
        >(ErrorView::InvalidSelector { xpath, reason: "empty xpath"@ }),
        query_result(xpath, None, Ok(true), None, reason) == Err::<
            Seq<Option<ElementNode>>,
            ErrorView,
        >(ErrorView::InvalidSelector { xpath, reason }),
        query_result(xpath, None, Ok(true), Some(None), reason) == Err::<
            Seq<Option<ElementNode>>,
            ErrorView,
        >(ErrorView::InvalidSelector { xpath, reason: "xpath did not return a node-set"@ }),
        query_result(xpath, None, Ok(true), Some(Some(nodes)), reason) == Ok::<
            Seq<Option<ElementNode>>,
            ErrorView,
        >(nodes),
{
    reveal_strlit("failed to parse snapshot XML");
    reveal_strlit(": ");
    reveal_strlit("failed to parse snapshot XML: ");
    assert("failed to parse snapshot XML"@ + ": "@ + rejected =~= "failed to parse snapshot XML: "@
        + rejected);
}

/// A selector whose colons stand in pairs, as those of an axis do, tests for no prefix; a
/// name with a prefix does, wherever it stands alone.
pub proof fn law_lone_colon_marks_a_prefix(s: Seq<char>, prefix: Seq<char>, name: Seq<char>)
    requires
        forall|i: int| 0 <= i < prefix.len() ==> name_char(#[trigger] prefix[i]),
        forall|i: int| 0 <= i < name.len() ==> name_char(#[trigger] name[i]),
    ensures
        (forall|i: int|
            0 <= i < s.len() && #[trigger] s[i] == ':' ==> (i > 0 && s[i - 1] == ':') || (i + 1
                < s.len() && s[i + 1] == ':')) ==> !uses_prefix(s),
        uses_prefix(prefix.push(':') + name),
        uses_prefix("//"@ + prefix.push(':') + name),
{
    reveal_strlit("//");
    if forall|i: int|
        0 <= i < s.len() && #[trigger] s[i] == ':' ==> (i > 0 && s[i - 1] == ':') || (i + 1
            < s.len() && s[i + 1] == ':') {
        assert forall|i: int| !prefix_at(s, i) by {
            if 0 <= i < s.len() && s[i] == ':' {
            }
        }
    }
    let none = Seq::<char>::empty();
    let t = prefix.push(':') + name;
    assert(none + t =~= t);
    lemma_prefix_noticed(none, prefix, name);
    lemma_prefix_noticed("//"@, prefix, name);
    assert("//"@ + prefix.push(':') + name =~= "//"@ + t);
}

proof fn lemma_prefix_noticed(front: Seq<char>, prefix: Seq<char>, name: Seq<char>)
    requires
        forall|i: int| 0 <= i < prefix.len() ==> name_char(#[trigger] prefix[i]),
        forall|i: int| 0 <= i < name.len() ==> name_char(#[trigger] name[i]),
        forall|i: int| 0 <= i < front.len() ==> #[trigger] front[i] == '/',
    ensures
        uses_prefix(front + (prefix.push(':') + name)),
{
    let s = front + (prefix.push(':') + name);
    let at = (front.len() + prefix.len()) as int;
    assert(s[at] == ':');
    assert forall|i: int| 0 <= i < at implies s[i] != '"' && s[i] != '\'' by {
        if i < front.len() {
            assert(s[i] == front[i]);
        } else {
            assert(s[i] == prefix[i - front.len()]);
        }
    }
    lemma_no_quote(s, at);
    assert forall|i: int| at < i < s.len() implies name_char(#[trigger] s[i]) by {
        assert(s[i] == name[i - at - 1]);
    }
    lemma_no_call(s, at + 1);
    assert forall|i: int| front.len() <= i < at implies name_char(#[trigger] s[i]) by {
        assert(s[i] == prefix[i - front.len()]);
    }
    assert(front.len() > 0 ==> s[front.len() - 1] == '/');
    lemma_no_variable(s, front.len() as int, at);
    if at > 0 {
        if prefix.len() > 0 {
            assert(name_char(s[at - 1]));
        }
    }
    if at + 1 < s.len() {
        assert(name_char(s[at + 1]));
    }
    assert(prefix_at(s, at));
}

proof fn lemma_no_quote(s: Seq<char>, i: int)
    requires
        0 <= i <= s.len(),
        forall|j: int| 0 <= j < i ==> s[j] != '"' && s[j] != '\'',
    ensures
        literal_at(s, i) is None,
    decreases i,
{
    if i > 0 {
        lemma_no_quote(s, i - 1);
    }
}

proof fn lemma_no_call(s: Seq<char>, i: int)
    requires
        0 <= i <= s.len(),
        forall|j: int| i <= j < s.len() ==> name_char(#[trigger] s[j]),
    ensures
        !calls(s, i),
    decreases s.len() - i,
{
    if i < s.len() {
        assert(name_char(s[i]));
        lemma_no_call(s, i + 1);
    }
}

proof fn lemma_no_variable(s: Seq<char>, from: int, i: int)
    requires
        0 <= from <= i <= s.len(),
        forall|j: int| from <= j < i ==> name_char(#[trigger] s[j]),
        from > 0 ==> s[from - 1] == '/',
    ensures
        !names_variable(s, i),
    decreases i,
{
    if i > from {
        assert(name_char(s[i - 1]));
        lemma_no_variable(s, from, i - 1);
    }
}

/// The value of a description, of a matched element and of its attributes: each part is the
/// field of that name.
pub proof fn law_info_values_are_their_fields(i: ElementInfo, e: QueryElement, a: QueryAttribute)
    ensures
        i@.ref_ == (i.ref_.0@, i.ref_.1@),
        i@.role == i.role@,
        i@.role_raw == error::optional(i.role_raw),
        i@.name == error::optional(i.name),
        i@.description == error::optional(i.description),
        i@.attributes == i.attributes@,
        i@.bounds == i.bounds,
        i@.states.len() == i.states@.len(),
        forall|k: int| 0 <= k < i.states@.len() ==> i@.states[k] == (#[trigger] i.states@[k])@,
        e@.name == e.name@,
        e@.attributes.len() == e.attributes@.len(),
        forall|k: int|
            0 <= k < e.attributes@.len() ==> e@.attributes[k] == (#[trigger] e.attributes@[k])@,
        a@.namespace == error::optional(a.namespace),
        a@.name == a.name@,
        a@.value == a.value@,
{
}

/// What a query gives follows from what the engine says, the first fault deciding: the
/// document's error, the selector's, and then, where document and selector are `reproducible`,
/// what the evaluation comes to.
pub proof fn law_answer_is_what_the_engine_gave<T>(
    xml: Seq<char>,
    xpath: Seq<char>,
    r: Result<T, ErrorView>,
    f: spec_fn(Seq<Option<ElementNode>>) -> T,
)
    requires
        query_answer(xml, xpath, r, f),
    ensures
        document_error(xml) matches Some(e) ==> (r matches Err(ErrorView::Atspi {
            message,
            source,
        }) && message == "failed to parse snapshot XML: "@ + e && source == Some(e)),
        document_error(xml) is None ==> (selector_build(xpath) matches Err(m) ==> r == Err::<
            T,
            ErrorView,
        >(ErrorView::InvalidSelector { xpath, reason: m })),
        document_error(xml) is None && selector_build(xpath) == Ok::<bool, Seq<char>>(false) ==> r
            == Err::<T, ErrorView>(ErrorView::InvalidSelector { xpath, reason: "empty xpath"@ }),
        document_error(xml) is None && selector_build(xpath) == Ok::<bool, Seq<char>>(true)
            && reproducible(xml, xpath) ==> match evaluation(xml, xpath) {
            Some(Some(nodes)) => r == Ok::<T, ErrorView>(f(nodes)),
            Some(None) => r == Err::<T, ErrorView>(
                ErrorView::InvalidSelector { xpath, reason: "xpath did not return a node-set"@ },
            ),
            None => r matches Err(ErrorView::InvalidSelector { xpath: x, reason: m }) && x == xpath,
        },
{
    let (evaluated, reason) = choose|
        evaluated: Option<Option<Seq<Option<ElementNode>>>>,
        reason: Seq<char>,
    |
        {
            &&& reproducible(xml, xpath) ==> evaluated == evaluation(xml, xpath)
            &&& r == (match #[trigger] query_result(
                xpath,
                document_error(xml),
                selector_build(xpath),
                evaluated,
                reason,
            ) {
                Ok(nodes) => Ok(f(nodes)),
                Err(e) => Err::<T, ErrorView>(e),
            })
        };
    let rejected = document_error(xml);
    let malformed = selector_build(xpath);
    law_first_fault_decides(
        xpath,
        rejected.unwrap(),
        malformed,
        malformed.unwrap_err(),
        evaluated,
        evaluated.unwrap().unwrap(),
        reason,
    );
}

/// The engine has an answer to every query that it does not get as far as evaluating, and to
/// any other one whose selector tests for no prefixed name.
pub proof fn law_engine_has_an_answer(xml: Seq<char>, xpath: Seq<char>)
    ensures
        document_error(xml) is Some ==> runnable(xml, xpath),
        selector_build(xpath) != Ok::<bool, Seq<char>>(true) ==> runnable(xml, xpath),
        !uses_prefix(xpath) ==> runnable(xml, xpath),
        document_error(xml) is None && selector_build(xpath) == Ok::<bool, Seq<char>>(true)
            && uses_prefix(xpath) ==> !runnable(xml, xpath),
{
}

} // verus!
