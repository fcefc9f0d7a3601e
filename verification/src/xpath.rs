//! XPath expressions over a parsed document.
//!
//! Expressions are compiled and evaluated by `sxd_xpath`. An expression is kept as
//! its source text and compiled again where it is applied.

use vstd::prelude::*;
use vstd::slice::*;
use vstd::string::*;

use crate::document::{package_items, Document, XmlItem};
use crate::dom::{XHTML_NAMESPACE, XHTML_PREFIX};

verus! {

#[verifier::external_type_specification]
#[verifier::external_body]
pub struct ExValue<'d>(sxd_xpath::Value<'d>);

/// How `sxd_xpath` judges the source text of an expression.
#[derive(Debug, Clone, Copy, PartialEq, Eq, Structural)]
pub enum Syntax {
    /// The text compiles to an expression.
    Valid,
    /// The text holds no expression.
    Empty,
    /// The text is malformed.
    Malformed,
}

/// Why a text was refused as an XPath expression.
#[derive(Debug, Clone, Copy, PartialEq, Eq, Structural)]
pub enum XPathError {
    /// The expression could not be compiled.
    Malformed,
    /// No expression was found in the text.
    Empty,
    /// The expression names a namespace prefix other than `html`, the one
    /// prefix that is bound when expressions are applied.
    UnboundPrefix,
}

/// The axis of the namespace nodes, as it is written.
pub const NAMESPACE_AXIS: &'static str = "namespace::";

/// A call of the function `name`, as it begins.
pub const NAME_CALL: &'static str = "name(";

/// A call of the function `sum`, as it begins.
pub const SUM_CALL: &'static str = "sum(";

/// What stands before `name(` where the function `local-name` is called.
pub const LOCAL: &'static str = "local-";

/// Whether a byte can stand in a name: a letter, a digit, `-`, `.`, `_`, or a
/// byte of a character beyond ASCII.
pub open spec fn is_name_byte(b: u8) -> bool {
    ||| 48 <= b <= 57
    ||| 65 <= b <= 90
    ||| 97 <= b <= 122
    ||| b == 45
    ||| b == 46
    ||| b == 95
    ||| b >= 128
}

/// Whether a colon stands at `i` that is no part of `::`.
pub open spec fn single_colon(s: Seq<u8>, i: int) -> bool {
    &&& 0 <= i < s.len()
    &&& s[i] == 58
    &&& !(i + 1 < s.len() && s[i + 1] == 58)
    &&& !(i > 0 && s[i - 1] == 58)
}

/// Whether the name that ends right before `i` is `prefix` and no longer one:
/// `prefix` stands there, and before it the text begins or a byte stands that
/// is no part of a name.
pub open spec fn preceded_by(s: Seq<u8>, i: int, prefix: Seq<u8>) -> bool {
    &&& prefix.len() > 0
    &&& prefix.len() <= i <= s.len()
    &&& s.subrange(i - prefix.len(), i) == prefix
    &&& (i == prefix.len() || !is_name_byte(s[i - prefix.len() - 1]))
    &&& forall|k: int| 0 <= k < prefix.len() ==> is_name_byte(#[trigger] prefix[k])
}

/// Whether `word` stands in `s` from `i` on.
pub open spec fn stands_at(s: Seq<u8>, i: int, word: Seq<u8>) -> bool {
    0 <= i && i + word.len() <= s.len() && s.subrange(i, i + word.len()) == word
}

/// Whether at `i` the axis `namespace` is named or one of the functions
/// `name` and `sum` is called: `sum(` stands there, or `name(`, and not as
/// the end of `local-name(`.
pub open spec fn unordered_at(s: Seq<u8>, i: int) -> bool {
    ||| stands_at(s, i, vstd::utf8::encode_utf8(NAMESPACE_AXIS@))
    ||| stands_at(s, i, vstd::utf8::encode_utf8(SUM_CALL@))
    ||| (stands_at(s, i, vstd::utf8::encode_utf8(NAME_CALL@)) && !stands_at(
        s,
        i - vstd::utf8::encode_utf8(LOCAL@).len(),
        vstd::utf8::encode_utf8(LOCAL@),
    ))
}

/// Whether from `i` on, outside of quoted strings, neither the axis
/// `namespace` is named nor one of the functions `name` and `sum` called.
/// `quote` is the quotation mark of the string that `i` stands in, zero
/// outside of strings.
pub open spec fn ordered_from(s: Seq<u8>, i: int, quote: u8) -> bool
    decreases s.len() - i,
{
    if i < 0 || i >= s.len() {
        true
    } else if quote != 0 {
        ordered_from(
            s,
            i + 1,
            if s[i] == quote {
                0
            } else {
                quote
            },
        )
    } else if s[i] == 34 || s[i] == 39 {
        ordered_from(s, i + 1, s[i])
    } else if unordered_at(s, i) {
        false
    } else {
        ordered_from(s, i + 1, 0)
    }
}

/// Whether what an expression gives for a document is the same whenever it is
/// asked: outside of quoted strings, its text neither names the axis
/// `namespace` nor calls one of the functions `name` and `sum`. The nodes of
/// that axis come in the order of a hash table, `name` picks a prefix from
/// one, and `sum` adds the numbers of a node set in the order of one, which
/// the rounding of the sum depends on: for such an expression the XPath
/// engine may answer differently from one run to the next.
pub open spec fn ordered(source: Seq<char>) -> bool {
    ordered_from(vstd::utf8::encode_utf8(source), 0, 0)
}

/// Whether from `i` on every colon that is no part of `::` and stands outside
/// a quoted string follows the name `prefix`. `quote` is the quotation mark of
/// the string that `i` stands in, zero outside of strings.
pub open spec fn prefixes_from(s: Seq<u8>, i: int, quote: u8, prefix: Seq<u8>) -> bool
    decreases s.len() - i,
{
    if i < 0 || i >= s.len() {
        true
    } else if quote != 0 {
        prefixes_from(
            s,
            i + 1,
            if s[i] == quote {
                0
            } else {
                quote
            },
            prefix,
        )
    } else if s[i] == 34 || s[i] == 39 {
        prefixes_from(s, i + 1, s[i], prefix)
    } else if single_colon(s, i) && !preceded_by(s, i, prefix) {
        false
    } else {
        prefixes_from(s, i + 1, 0, prefix)
    }
}

/// Whether an expression can be applied with `prefix` as the one bound
/// prefix: outside of quoted strings, every colon in its text that is no part
/// of `::` directly follows the name `prefix`. The XPath engine looks up the
/// prefix of every name test and cannot go on where it is not bound.
pub open spec fn can_apply(source: Seq<char>, prefix: Seq<char>) -> bool {
    prefixes_from(vstd::utf8::encode_utf8(source), 0, 0, vstd::utf8::encode_utf8(prefix))
}

/// Whether the name that ends right before `i` is `prefix` and no longer one.
fn follows_prefix(bytes: &[u8], i: usize, prefix: &[u8]) -> (r: bool)
    requires
        i <= bytes@.len(),
    ensures
        r == preceded_by(bytes@, i as int, prefix@),
{
    let n = prefix.len();
    if n == 0 || n > i {
        return false;
    }
    let start = i - n;
    let mut k: usize = 0;
    while k < n
        invariant
            k <= n,
            n == prefix@.len(),
            start + n == i,
            i <= bytes@.len(),
            forall|j: int| 0 <= j < k ==> bytes@[start + j] == prefix@[j] && is_name_byte(#[trigger] prefix@[j]),
        decreases n - k,
    {
        let b = prefix[k];
        let named = (48 <= b && b <= 57) || (65 <= b && b <= 90) || (97 <= b && b <= 122) || b == 45
            || b == 46 || b == 95 || b >= 128;
        if bytes[start + k] != b || !named {
            proof {
                if bytes@[start + k] != b {
                    assert(bytes@.subrange(i - n, i as int)[k as int] != prefix@[k as int]);
                }
            }
            return false;
        }
        k = k + 1;
    }
    proof {
        assert(bytes@.subrange(i - n, i as int) =~= prefix@);
    }
    if start == 0 {
        true
    } else {
        let b = bytes[start - 1];
        !((48 <= b && b <= 57) || (65 <= b && b <= 90) || (97 <= b && b <= 122) || b == 45 || b == 46
            || b == 95 || b >= 128)
    }
}

/// Whether `word` stands in `bytes` from `i` on.
fn word_at(bytes: &[u8], i: usize, word: &[u8]) -> (r: bool)
    ensures
        r == stands_at(bytes@, i as int, word@),
{
    let n = word.len();
    let total = bytes.len();
    if n > total || i > total - n {
        return false;
    }
    let mut k: usize = 0;
    while k < n
        invariant
            k <= n,
            n == word@.len(),
            total == bytes@.len(),
            i + n <= total,
            forall|j: int| 0 <= j < k ==> bytes@[i + j] == word@[j],
        decreases n - k,
    {
        if bytes[i + k] != word[k] {
            proof {
                assert(bytes@.subrange(i as int, i + n)[k as int] != word@[k as int]);
            }
            return false;
        }
        k = k + 1;
    }
    proof {
        assert(bytes@.subrange(i as int, i + n) =~= word@);
    }
    true
}

/// Whether at `i` the axis `namespace` is named or one of the functions
/// `name` and `sum` is called.
fn is_unordered_at(bytes: &[u8], i: usize) -> (r: bool)
    ensures
        r == unordered_at(bytes@, i as int),
{
    let local = LOCAL.as_bytes();
    if word_at(bytes, i, NAMESPACE_AXIS.as_bytes()) {
        true
    } else if word_at(bytes, i, SUM_CALL.as_bytes()) {
        true
    } else if word_at(bytes, i, NAME_CALL.as_bytes()) {
        !(local.len() <= i && word_at(bytes, i - local.len(), local))
    } else {
        false
    }
}

/// Whether an expression can be applied with `prefix` as the one bound prefix.
pub fn applies(source: &str, prefix: &str) -> (r: bool)
    ensures
        r == can_apply(source@, prefix@),
{
    let bytes = source.as_bytes();
    let bound = prefix.as_bytes();
    let mut i: usize = 0;
    let mut quote: u8 = 0;
    while i < bytes.len()
        invariant
            i <= bytes@.len(),
            bytes@ == vstd::utf8::encode_utf8(source@),
            bound@ == vstd::utf8::encode_utf8(prefix@),
            can_apply(source@, prefix@) == prefixes_from(bytes@, i as int, quote, bound@),
        decreases bytes@.len() - i,
    {
        let b = bytes[i];
        if quote != 0 {
            if b == quote {
                quote = 0;
            }
        } else if b == 34 || b == 39 {
            quote = b;
        } else if b == 58 && !(i + 1 < bytes.len() && bytes[i + 1] == 58) && !(i > 0 && bytes[i - 1]
            == 58) {
            if !follows_prefix(bytes, i, bound) {
                return false;
            }
        }
        i = i + 1;
    }
    true
}

/// Whether what an expression gives for a document is the same whenever it is
/// asked.
pub fn is_ordered(source: &str) -> (r: bool)
    ensures
        r == ordered(source@),
{
    let bytes = source.as_bytes();
    let mut i: usize = 0;
    let mut quote: u8 = 0;
    while i < bytes.len()
        invariant
            i <= bytes@.len(),
            bytes@ == vstd::utf8::encode_utf8(source@),
            ordered(source@) == ordered_from(bytes@, i as int, quote),
        decreases bytes@.len() - i,
    {
        let b = bytes[i];
        if quote != 0 {
            if b == quote {
                quote = 0;
            }
        } else if b == 34 || b == 39 {
            quote = b;
        } else if is_unordered_at(bytes, i) {
            return false;
        }
        i = i + 1;
    }
    true
}


/// The kind of value that an expression evaluated to.
#[derive(Debug, Clone, Copy, PartialEq, Eq, Structural)]
pub enum ValueKind {
    Boolean,
    Number,
    String,
    Nodeset,
}

/// What `Factory::build` of `sxd_xpath` makes of `source`: an expression, no
/// expression, or a parser error.
pub uninterp spec fn xpath_syntax(source: Seq<char>) -> Syntax;

/// Calls `Factory::build` of `sxd_xpath` and tells its three outcomes apart. The
/// contract gives the outcome for a text its name.
#[verifier::external_body]
fn check_syntax(source: &str) -> (r: Syntax)
    ensures
        r == xpath_syntax(source@),
{
    match sxd_xpath::Factory::new().build(source) {
        Ok(Some(_)) => Syntax::Valid,
        Ok(None) => Syntax::Empty,
        Err(_) => Syntax::Malformed,
    }
}

/// What applying an expression gave, as plain values: the kind of the value,
/// the string-values of its nodes in document order where it is a node set,
/// and the string that XPath coerces it to.
pub struct Found {
    pub kind: ValueKind,
    pub strings: Seq<Seq<char>>,
    pub text: Seq<char>,
}

/// What `sxd_xpath` gives for the expression `source` at the root of a
/// document that holds `items`, with `prefix` bound to `uri`: `None` where
/// the text does not compile or the expression cannot be applied. It is the
/// name of what the engine gives for an expression that `ordered` admits.
pub uninterp spec fn xpath_at_root(
    source: Seq<char>,
    prefix: Seq<char>,
    uri: Seq<char>,
    items: Seq<XmlItem>,
) -> Option<Found>;

/// What `sxd_xpath` gives for the expression `source` at one of the nodes that
/// the expression `entry` finds from the root of a document that holds
/// `items`, the node at `place` in document order: `None` where there is no
/// such node, a text does not compile or an expression cannot be applied.
pub uninterp spec fn xpath_at_hit(
    entry: Seq<char>,
    place: nat,
    source: Seq<char>,
    prefix: Seq<char>,
    uri: Seq<char>,
    items: Seq<XmlItem>,
) -> Option<Found>;

/// Compiles `source` with `Factory::build` and applies it with the `evaluate`
/// method of the compiled expression, both of `sxd_xpath`, to the root of the
/// document, in a fresh context (`Context::new`) with `prefix` bound to `uri`
/// (`Context::set_namespace`). `None` stands for a text that does not compile or
/// an execution error. The expression must name no prefix but `prefix`: the
/// engine stops the program on a name test with a prefix that is not bound.
/// The contract gives what comes back its name where the expression is one
/// that `ordered` admits: it is then a matter of the texts and of what the
/// document holds. Of another expression nothing is said.
#[verifier::external_body]
pub(crate) fn evaluate_at_root<'d>(
    source: &str,
    prefix: &str,
    uri: &str,
    document: &'d sxd_document::Package,
) -> (r: Option<sxd_xpath::Value<'d>>)
    requires
        can_apply(source@, prefix@),
    ensures
        ordered(source@) ==> match xpath_at_root(source@, prefix@, uri@, package_items(*document)) {
            Some(found) => r is Some && found_of(r->0) == found,
            None => r is None,
        },
{
    let expression = sxd_xpath::Factory::new().build(source).ok()??;
    let mut context = sxd_xpath::Context::new();
    context.set_namespace(prefix, uri);
    expression.evaluate(&context, document.as_document().root()).ok()
}

/// As `evaluate_at_root`, for two expressions: `entry` is applied to the root
/// of the document, and `source` to the node at `place` among the nodes that
/// it gave, in document order (`Nodeset::document_order`). `None` stands also
/// for an entry expression that gave no node set, or none with so many nodes.
#[verifier::external_body]
pub(crate) fn evaluate_at_hit<'d>(
    entry: &str,
    place: usize,
    source: &str,
    prefix: &str,
    uri: &str,
    document: &'d sxd_document::Package,
) -> (r: Option<sxd_xpath::Value<'d>>)
    requires
        can_apply(entry@, prefix@),
        can_apply(source@, prefix@),
    ensures
        ordered(entry@) && ordered(source@) ==> match xpath_at_hit(
            entry@,
            place as nat,
            source@,
            prefix@,
            uri@,
            package_items(*document),
        ) {
            Some(found) => r is Some && found_of(r->0) == found,
            None => r is None,
        },
{
    let first = sxd_xpath::Factory::new().build(entry).ok()??;
    let second = sxd_xpath::Factory::new().build(source).ok()??;
    let mut context = sxd_xpath::Context::new();
    context.set_namespace(prefix, uri);
    let hits = match first.evaluate(&context, document.as_document().root()).ok()? {
        sxd_xpath::Value::Nodeset(nodes) => nodes.document_order(),
        _ => return None,
    };
    second.evaluate(&context, *hits.get(place)?).ok()
}

/// Which of the four kinds a value of `sxd_xpath` is.
pub uninterp spec fn value_kind(value: sxd_xpath::Value<'_>) -> ValueKind;

/// What a node set of `sxd_xpath` holds, as text: the string-value
/// (`Node::string_value`) of each of its nodes, in the order in which
/// `Nodeset::document_order` hands the nodes of this value out. A value of
/// another kind holds no nodes.
pub uninterp spec fn node_set_strings(value: sxd_xpath::Value<'_>) -> Seq<Seq<char>>;

/// The string that `Value::into_string` of `sxd_xpath` makes of a value: the
/// string coercion of XPath.
pub uninterp spec fn coerced_string(value: sxd_xpath::Value<'_>) -> Seq<char>;

/// Tells the variants of `sxd_xpath::Value` apart. The contract gives the kind
/// of a value its name.
#[verifier::external_body]
pub(crate) fn kind_of(value: &sxd_xpath::Value<'_>) -> (r: ValueKind)
    ensures
        r == value_kind(*value),
{
    match value {
        sxd_xpath::Value::Boolean(_) => ValueKind::Boolean,
        sxd_xpath::Value::Number(_) => ValueKind::Number,
        sxd_xpath::Value::String(_) => ValueKind::String,
        sxd_xpath::Value::Nodeset(_) => ValueKind::Nodeset,
    }
}

/// What a value of `sxd_xpath` is, as plain values.
pub open spec fn found_of(value: sxd_xpath::Value<'_>) -> Found {
    Found {
        kind: value_kind(value),
        strings: node_set_strings(value),
        text: coerced_string(value),
    }
}

/// Calls `Nodeset::document_order` of `sxd_xpath` and hands out the
/// string-value (`Node::string_value`) of each node of a node set, in document
/// order. A value of another kind has no nodes. The contract gives the strings
/// their name.
#[verifier::external_body]
pub(crate) fn nodes_in_document_order(value: sxd_xpath::Value<'_>) -> (r: Vec<String>)
    ensures
        views(r@) == node_set_strings(value),
{
    match value {
        sxd_xpath::Value::Nodeset(nodes) => {
            nodes.document_order().into_iter().map(|n| n.string_value()).collect()
        },
        _ => Vec::new(),
    }
}

/// Calls `Value::into_string` of `sxd_xpath`: the XPath string coercion. The
/// contract gives the string its name.
#[verifier::external_body]
fn coerce_to_string(value: sxd_xpath::Value<'_>) -> (r: String)
    ensures
        r@ == coerced_string(value),
{
    value.into_string()
}

/// The strings of a sequence joined end to end.
pub open spec fn concat_all(parts: Seq<Seq<char>>) -> Seq<char>
    decreases parts.len(),
{
    if parts.len() == 0 {
        Seq::empty()
    } else {
        concat_all(parts.drop_last()) + parts.last()
    }
}

/// The views of a vector of strings.
pub open spec fn views(parts: Seq<String>) -> Seq<Seq<char>> {
    parts.map_values(|s: String| s@)
}

/// The result of applying an expression, as plain values.
#[derive(Debug)]
pub enum XPathValue {
    /// A node set: the string-value of each node, in document order.
    Nodeset(Vec<String>),
    /// A boolean, number or string, already coerced to a string.
    Scalar(String),
}

/// `XPathValue` as plain values.
pub enum XPathValueView {
    Nodeset(Seq<Seq<char>>),
    Scalar(Seq<char>),
}

impl View for XPathValue {
    type V = XPathValueView;

    open spec fn view(&self) -> XPathValueView {
        match self {
            XPathValue::Nodeset(parts) => XPathValueView::Nodeset(views(parts@)),
            XPathValue::Scalar(s) => XPathValueView::Scalar(s@),
        }
    }
}

impl XPathValueView {
    /// The text that the value stands for: a node set gives the string-values
    /// of its nodes joined in document order, a scalar its coerced string.
    pub open spec fn text(self) -> Seq<char> {
        match self {
            XPathValueView::Nodeset(parts) => concat_all(parts),
            XPathValueView::Scalar(s) => s,
        }
    }
}

/// What a value is read as: a node set as the string-values of its nodes in
/// document order, a boolean, a number or a string as the string that XPath
/// coerces it to.
pub open spec fn plain(found: Found) -> XPathValueView {
    if found.kind == ValueKind::Nodeset {
        XPathValueView::Nodeset(found.strings)
    } else {
        XPathValueView::Scalar(found.text)
    }
}

/// What applying an expression gave, read as `plain` says; `None` where it
/// could not be applied.
pub open spec fn plain_option(found: Option<Found>) -> Option<XPathValueView> {
    match found {
        Some(f) => Some(plain(f)),
        None => None,
    }
}

/// An `XPathValue` that may be absent, as plain values.
pub open spec fn value_view(value: Option<XPathValue>) -> Option<XPathValueView> {
    match value {
        Some(v) => Some(v@),
        None => None,
    }
}

impl XPathValue {
    /// The text that the value stands for: a node set gives the string-values
    /// of its nodes joined in document order, a scalar its coerced string.
    pub open spec fn text(self) -> Seq<char> {
        self@.text()
    }

    /// Turns the value into the text it stands for.
    pub fn into_string(self) -> (r: String)
        ensures
            r@ == self.text(),
    {
        match self {
            XPathValue::Scalar(s) => s,
            XPathValue::Nodeset(parts) => {
                let mut out = String::new();
                let mut i: usize = 0;
                while i < parts.len()
                    invariant
                        i <= parts@.len(),
                        out@ == concat_all(views(parts@).take(i as int)),
                    decreases parts@.len() - i,
                {
                    proof {
                        let next = views(parts@).take(i as int + 1);
                        assert(next.drop_last() =~= views(parts@).take(i as int));
                        assert(next.last() == parts@[i as int]@);
                    }
                    out.append(parts[i].as_str());
                    i = i + 1;
                }
                assert(views(parts@).take(parts@.len() as int) =~= views(parts@));
                out
            },
        }
    }
}

/// Reads a value of `sxd_xpath` into plain strings: a node set gives the
/// string-values of its nodes in document order, any other value the string
/// that XPath coerces it to.
fn plain_value(value: sxd_xpath::Value<'_>) -> (r: XPathValue)
    ensures
        r@ == plain(found_of(value)),
{
    match kind_of(&value) {
        ValueKind::Nodeset => XPathValue::Nodeset(nodes_in_document_order(value)),
        _ => XPathValue::Scalar(coerce_to_string(value)),
    }
}

/// Reads what applying an expression gave: nothing where it could not be
/// applied, else the value as plain strings.
fn plain_found(found: Option<sxd_xpath::Value<'_>>) -> (r: Option<XPathValue>)
    ensures
        found is None ==> r is None,
        found is Some ==> r is Some && r->0@ == plain(found_of(found->0)),
{
    match found {
        Some(value) => Some(plain_value(value)),
        None => None,
    }
}

/// An XPath expression that is known to compile and to name no namespace
/// prefix but `html`.
#[derive(Debug)]
pub struct XPath {
    source: String,
}

impl View for XPath {
    type V = Seq<char>;

    closed spec fn view(&self) -> Seq<char> {
        self.source@
    }
}

impl XPath {
    #[verifier::type_invariant]
    spec fn compiles(self) -> bool {
        &&& xpath_syntax(self.source@) == Syntax::Valid
        &&& can_apply(self.source@, XHTML_PREFIX@)
    }

    /// Accepts `source` as an expression where `sxd_xpath` compiles it and it
    /// names no namespace prefix but `html`, and says which of the three ways it
    /// failed where it does not.
    pub fn new(source: String) -> (r: Result<XPath, XPathError>)
        ensures
            match xpath_syntax(source@) {
                Syntax::Valid => if can_apply(source@, XHTML_PREFIX@) {
                    r is Ok && r->Ok_0@ == source@
                } else {
                    r == Err::<XPath, XPathError>(XPathError::UnboundPrefix)
                },
                Syntax::Empty => r == Err::<XPath, XPathError>(XPathError::Empty),
                Syntax::Malformed => r == Err::<XPath, XPathError>(XPathError::Malformed),
            },
    {
        match check_syntax(source.as_str()) {
            Syntax::Valid => {
                if applies(source.as_str(), XHTML_PREFIX) {
                    Ok(XPath { source })
                } else {
                    Err(XPathError::UnboundPrefix)
                }
            },
            Syntax::Empty => Err(XPathError::Empty),
            Syntax::Malformed => Err(XPathError::Malformed),
        }
    }

    /// The source text of the expression.
    pub fn source(&self) -> (r: &str)
        ensures
            r@ == self@,
            xpath_syntax(r@) == Syntax::Valid,
            can_apply(r@, XHTML_PREFIX@),
    {
        proof {
            use_type_invariant(self);
        }
        self.source.as_str()
    }

    /// Applies the expression to the root of a document, with the prefix
    /// `html` bound to the XHTML namespace, and reads the result as plain
    /// values, as `plain` says. `None` stands for an expression that could
    /// not be applied. What the expression gives for what the document holds is
    /// the XPath engine's to say: `xpath_at_root` is the name of it, for an
    /// expression whose result is the same whenever it is asked.
    pub fn evaluate(&self, document: &Document) -> (r: Option<XPathValue>)
        ensures
            ordered(self@) ==> value_view(r) == plain_option(
                xpath_at_root(self@, XHTML_PREFIX@, XHTML_NAMESPACE@, document@),
            ),
    {
        plain_found(
            evaluate_at_root(self.source(), XHTML_PREFIX, XHTML_NAMESPACE, document.package()),
        )
    }

    /// Applies the expression to one of the nodes that the expression `entry`
    /// finds from the root of a document, the node at `place` in document
    /// order, and reads the result as `evaluate` does. `None` stands also for a
    /// node that is not there.
    pub fn evaluate_at(&self, entry: &XPath, place: usize, document: &Document) -> (r: Option<
        XPathValue,
    >)
        ensures
            ordered(entry@) && ordered(self@) ==> value_view(r) == plain_option(
                xpath_at_hit(
                    entry@,
                    place as nat,
                    self@,
                    XHTML_PREFIX@,
                    XHTML_NAMESPACE@,
                    document@,
                ),
            ),
    {
        plain_found(
            evaluate_at_hit(
                entry.source(),
                place,
                self.source(),
                XHTML_PREFIX,
                XHTML_NAMESPACE,
                document.package(),
            ),
        )
    }

    /// A copy of this expression.
    pub fn duplicate(&self) -> (r: XPath)
        ensures
            r@ == self@,
    {
        proof {
            use_type_invariant(self);
        }
        XPath { source: self.source.clone() }
    }
}

} // verus!
