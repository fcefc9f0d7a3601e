//! The extractor that finds entries and their fields by XPath expressions.

use vstd::prelude::*;

use crate::config::types::DateTimeFormat;
use crate::document::{tree_items, Document, XmlItem};
use crate::dom::{Dom, XHTML_NAMESPACE, XHTML_PREFIX};
use crate::config::XPathExtractorConfig;
use crate::extractor::{
    entry_views, BadEntry, Context, Entry, EntryView, Extraction, Field, Reason,
};
use crate::timestamp::{datetime_parse, parse_by_format, Timestamp};
use crate::url::{url_join, url_parse, Url};
use crate::xpath::{
    evaluate_at_root, found_of, is_ordered, kind_of, nodes_in_document_order, ordered, plain_option,
    views, xpath_at_hit, xpath_at_root, ValueKind, XPath,
};

verus! {

/// The outcome of applying the expression of an optional field.
#[derive(Debug)]
pub enum Evaluated {
    /// No expression is configured for the field.
    Unset,
    /// The expression could not be applied.
    Failed,
    /// The text that the expression gave.
    Text(String),
}

/// `Evaluated` as plain values.
pub enum EvaluatedView {
    Unset,
    Failed,
    Text(Seq<char>),
}

impl View for Evaluated {
    type V = EvaluatedView;

    open spec fn view(&self) -> EvaluatedView {
        match self {
            Evaluated::Unset => EvaluatedView::Unset,
            Evaluated::Failed => EvaluatedView::Failed,
            Evaluated::Text(s) => EvaluatedView::Text(s@),
        }
    }
}

/// What the field expressions gave for one node that the entry expression hit.
/// `None` in a mandatory field stands for an expression that could not be applied.
#[derive(Debug)]
pub struct Hit {
    pub id: Option<String>,
    pub title: Option<String>,
    pub description: Option<String>,
    pub url: Option<String>,
    pub author: Evaluated,
    pub pub_date: Evaluated,
}

/// `Hit` as plain values.
pub struct HitView {
    pub id: Option<Seq<char>>,
    pub title: Option<Seq<char>>,
    pub description: Option<Seq<char>>,
    pub url: Option<Seq<char>>,
    pub author: EvaluatedView,
    pub pub_date: EvaluatedView,
}

impl View for Hit {
    type V = HitView;

    open spec fn view(&self) -> HitView {
        HitView {
            id: crate::extractor::option_view(self.id),
            title: crate::extractor::option_view(self.title),
            description: crate::extractor::option_view(self.description),
            url: crate::extractor::option_view(self.url),
            author: self.author@,
            pub_date: self.pub_date@,
        }
    }
}

/// The views of a sequence of hits.
pub open spec fn hit_views(hits: Seq<Hit>) -> Seq<HitView> {
    hits.map_values(|h: Hit| h@)
}

/// The field and the reason that make a hit unusable.
#[derive(Debug, Clone, Copy, PartialEq, Eq, Structural)]
pub struct Rejection {
    pub field: Field,
    pub reason: Reason,
}

/// A mandatory field: its text, unless the expression failed or the text is
/// empty where it may not be.
pub open spec fn mandatory(value: Option<Seq<char>>, field: Field, allow_empty: bool) -> Result<
    Seq<char>,
    Rejection,
> {
    match value {
        None => Err(Rejection { field, reason: Reason::EvaluationFailed }),
        Some(text) => if text.len() == 0 && !allow_empty {
            Err(Rejection { field, reason: Reason::Empty })
        } else {
            Ok(text)
        },
    }
}

/// The URL that a text stands for on a page fetched from `base`: the text itself
/// where it is an absolute URL, else the text resolved against `base`.
pub open spec fn resolve(base: Seq<char>, text: Seq<char>) -> Option<Seq<char>> {
    match url_parse(text) {
        Some(url) => Some(url),
        None => url_join(base, text),
    }
}

/// The author of a hit: none where no expression is configured, else a text
/// that is not empty.
pub open spec fn author_of(value: EvaluatedView) -> Result<Option<Seq<char>>, Rejection> {
    match value {
        EvaluatedView::Unset => Ok(None),
        EvaluatedView::Failed => Err(
            Rejection { field: Field::Author, reason: Reason::EvaluationFailed },
        ),
        EvaluatedView::Text(text) => if text.len() == 0 {
            Err(Rejection { field: Field::Author, reason: Reason::Empty })
        } else {
            Ok(Some(text))
        },
    }
}

/// The publication date of a hit: none unless both an expression and a format
/// are configured, else the text read by the format.
pub open spec fn pub_date_of(value: EvaluatedView, format: Option<Seq<char>>) -> Result<
    Option<Timestamp>,
    Rejection,
> {
    match format {
        None => Ok(None),
        Some(format) => match value {
            EvaluatedView::Unset => Ok(None),
            EvaluatedView::Failed => Err(
                Rejection { field: Field::PubDate, reason: Reason::EvaluationFailed },
            ),
            EvaluatedView::Text(text) => match datetime_parse(text, format) {
                Some(at) => Ok(Some(at)),
                None => Err(Rejection { field: Field::PubDate, reason: Reason::BadDate }),
            },
        },
    }
}

/// The entry that a hit makes, or the first field, in the order id, title,
/// description, url, author, publication date, that makes it unusable.
pub open spec fn judge(hit: HitView, base: Seq<char>, format: Option<Seq<char>>) -> Result<
    EntryView,
    Rejection,
> {
    match mandatory(hit.id, Field::Id, false) {
        Err(r) => Err(r),
        Ok(id) => match mandatory(hit.title, Field::Title, false) {
            Err(r) => Err(r),
            Ok(title) => match mandatory(hit.description, Field::Description, true) {
                Err(r) => Err(r),
                Ok(description) => match mandatory(hit.url, Field::Url, false) {
                    Err(r) => Err(r),
                    Ok(text) => match resolve(base, text) {
                        None => Err(Rejection { field: Field::Url, reason: Reason::BadUrl }),
                        Some(url) => match author_of(hit.author) {
                            Err(r) => Err(r),
                            Ok(author) => match pub_date_of(hit.pub_date, format) {
                                Err(r) => Err(r),
                                Ok(pub_date) => Ok(
                                    EntryView { id, title, description, url, author, pub_date },
                                ),
                            },
                        },
                    },
                },
            },
        },
    }
}

/// The entries that a run of hits makes, in the order of the hits, and a note on
/// each hit that makes none, with its place counted from one.
pub open spec fn collect(hits: Seq<HitView>, base: Seq<char>, format: Option<Seq<char>>) -> (
    Seq<EntryView>,
    Seq<BadEntry>,
)
    decreases hits.len(),
{
    if hits.len() == 0 {
        (Seq::empty(), Seq::empty())
    } else {
        let before = collect(hits.drop_last(), base, format);
        match judge(hits.last(), base, format) {
            Ok(entry) => (before.0.push(entry), before.1),
            Err(r) => (
                before.0,
                before.1.push(
                    BadEntry { index: hits.len() as usize, field: r.field, reason: r.reason },
                ),
            ),
        }
    }
}

/// The view of a format that may be absent.
pub open spec fn format_view(format: Option<&DateTimeFormat>) -> Option<Seq<char>> {
    match format {
        Some(f) => Some(f@),
        None => None,
    }
}

/// Checks one mandatory field.
fn check_mandatory(value: &Option<String>, field: Field, allow_empty: bool) -> (r: Result<
    String,
    Rejection,
>)
    ensures
        match mandatory(crate::extractor::option_view(*value), field, allow_empty) {
            Ok(text) => r is Ok && r->Ok_0@ == text,
            Err(e) => r == Err::<String, Rejection>(e),
        },
{
    match value {
        None => Err(Rejection { field, reason: Reason::EvaluationFailed }),
        Some(text) => {
            if text.as_str().is_empty() && !allow_empty {
                Err(Rejection { field, reason: Reason::Empty })
            } else {
                Ok(text.clone())
            }
        },
    }
}

/// Reads a text as a URL, alone where it is absolute, else against the URL of
/// the page.
pub fn resolve_url(ctx: &Context<'_>, text: &str) -> (r: Option<Url>)
    ensures
        r is Some <==> resolve(ctx.base(), text@) is Some,
        r matches Some(u) ==> resolve(ctx.base(), text@) == Some(u@),
{
    match Url::parse(text) {
        Some(url) => Some(url),
        None => ctx.fetch_url().join(text),
    }
}

/// Turns what the field expressions gave for one hit into an entry, or names
/// the first field that makes the hit unusable.
pub fn entry_from_hit(ctx: &Context<'_>, format: Option<&DateTimeFormat>, hit: &Hit) -> (r: Result<
    Entry,
    Rejection,
>)
    ensures
        match judge(hit@, ctx.base(), format_view(format)) {
            Ok(entry) => r is Ok && r->Ok_0@ == entry,
            Err(e) => r == Err::<Entry, Rejection>(e),
        },
        r matches Ok(entry) ==> entry@.well_formed(),
{
    let id = match check_mandatory(&hit.id, Field::Id, false) {
        Ok(text) => text,
        Err(e) => {
            return Err(e);
        },
    };
    let title = match check_mandatory(&hit.title, Field::Title, false) {
        Ok(text) => text,
        Err(e) => {
            return Err(e);
        },
    };
    let description = match check_mandatory(&hit.description, Field::Description, true) {
        Ok(text) => text,
        Err(e) => {
            return Err(e);
        },
    };
    let url_text = match check_mandatory(&hit.url, Field::Url, false) {
        Ok(text) => text,
        Err(e) => {
            return Err(e);
        },
    };
    let url = match resolve_url(ctx, url_text.as_str()) {
        Some(url) => url,
        None => {
            return Err(Rejection { field: Field::Url, reason: Reason::BadUrl });
        },
    };
    let author = match &hit.author {
        Evaluated::Unset => None,
        Evaluated::Failed => {
            return Err(Rejection { field: Field::Author, reason: Reason::EvaluationFailed });
        },
        Evaluated::Text(text) => {
            if text.as_str().is_empty() {
                return Err(Rejection { field: Field::Author, reason: Reason::Empty });
            }
            Some(text.clone())
        },
    };
    let pub_date = match format {
        None => None,
        Some(format) => match &hit.pub_date {
            Evaluated::Unset => None,
            Evaluated::Failed => {
                return Err(
                    Rejection { field: Field::PubDate, reason: Reason::EvaluationFailed },
                );
            },
            Evaluated::Text(text) => match parse_by_format(text.as_str(), format.as_str()) {
                Some(at) => Some(at),
                None => {
                    return Err(Rejection { field: Field::PubDate, reason: Reason::BadDate });
                },
            },
        },
    };
    Ok(Entry { id, title, description, url, author, pub_date })
}

/// Turns the hits of one page into entries, in the order of the hits, and notes
/// each hit that was skipped. No hit stops the others from being read.
pub fn entries_from_hits(ctx: &Context<'_>, format: Option<&DateTimeFormat>, hits: &Vec<Hit>) -> (r:
    Extraction)
    ensures
        entry_views(r.entries@) == collect(hit_views(hits@), ctx.base(), format_view(format)).0,
        r.rejected@ == collect(hit_views(hits@), ctx.base(), format_view(format)).1,
        r.entries@.len() + r.rejected@.len() == hits@.len(),
        forall|i: int| 0 <= i < r.entries@.len() ==> (#[trigger] r.entries@[i])@.well_formed(),
{
    let mut entries: Vec<Entry> = Vec::new();
    let mut rejected: Vec<BadEntry> = Vec::new();
    let mut i: usize = 0;
    let ghost base = ctx.base();
    let ghost fmt = format_view(format);
    while i < hits.len()
        invariant
            i <= hits@.len(),
            base == ctx.base(),
            fmt == format_view(format),
            entry_views(entries@) == collect(hit_views(hits@).take(i as int), base, fmt).0,
            rejected@ == collect(hit_views(hits@).take(i as int), base, fmt).1,
            entries@.len() + rejected@.len() == i,
            forall|k: int| 0 <= k < entries@.len() ==> (#[trigger] entries@[k])@.well_formed(),
        decreases hits@.len() - i,
    {
        let ghost before = hit_views(hits@).take(i as int);
        let ghost next = hit_views(hits@).take(i as int + 1);
        proof {
            assert(next.drop_last() =~= before);
            assert(next.last() == hits@[i as int]@);
        }
        let ghost old_entries = entries@;
        match entry_from_hit(ctx, format, &hits[i]) {
            Ok(entry) => {
                entries.push(entry);
                proof {
                    assert(entry_views(entries@) =~= entry_views(old_entries).push(entry@));
                }
            },
            Err(e) => {
                rejected.push(BadEntry { index: i + 1, field: e.field, reason: e.reason });
            },
        }
        i = i + 1;
    }
    proof {
        assert(hit_views(hits@).take(hits@.len() as int) =~= hit_views(hits@));
    }
    Extraction { entries, rejected }
}

/// Why a page gave no entries at all.
#[derive(Debug, Clone, Copy, PartialEq, Eq, Structural)]
pub enum ExtractError {
    /// The entry expression could not be applied to the document.
    EntryEvaluation,
    /// The entry expression gave a value of this kind instead of a node set.
    NotNodeset(ValueKind),
}

/// Finds the entries of a page by XPath expressions: one for the entries, one
/// for each field of an entry.
#[derive(Debug)]
pub struct XPathExtractor {
    entry: XPath,
    id: XPath,
    title: XPath,
    description: XPath,
    url: XPath,
    author: Option<XPath>,
    pub_date: Option<XPath>,
    pub_date_format: Option<DateTimeFormat>,
}

/// The view of an expression that may be absent.
pub open spec fn xpath_view(x: Option<XPath>) -> Option<Seq<char>> {
    match x {
        Some(x) => Some(x@),
        None => None,
    }
}

/// Copies an expression that may be absent.
fn duplicate_xpath(x: &Option<XPath>) -> (r: Option<XPath>)
    ensures
        xpath_view(r) == xpath_view(*x),
{
    match x {
        Some(x) => Some(x.duplicate()),
        None => None,
    }
}

/// The text that an expression gives at the node at `place` among the nodes
/// that the entry expression finds in a document that holds `items`, with the
/// prefix `html` bound to the XHTML namespace; `None` where it cannot be
/// applied.
pub open spec fn field_text(entry: Seq<char>, place: nat, source: Seq<char>, items: Seq<XmlItem>) -> Option<
    Seq<char>,
> {
    match plain_option(xpath_at_hit(entry, place, source, XHTML_PREFIX@, XHTML_NAMESPACE@, items)) {
        Some(value) => Some(value.text()),
        None => None,
    }
}

/// What the expression of an optional field gives at that node.
pub open spec fn optional_field_text(
    entry: Seq<char>,
    place: nat,
    source: Option<Seq<char>>,
    items: Seq<XmlItem>,
) -> EvaluatedView {
    match source {
        None => EvaluatedView::Unset,
        Some(source) => match field_text(entry, place, source, items) {
            Some(text) => EvaluatedView::Text(text),
            None => EvaluatedView::Failed,
        },
    }
}

/// Whether an expression that may be absent gives the same whenever it is
/// asked: one that is absent gives nothing.
pub open spec fn ordered_option(source: Option<Seq<char>>) -> bool {
    match source {
        Some(source) => ordered(source),
        None => true,
    }
}

/// Whether an expression that may be absent gives the same whenever it is
/// asked.
fn is_ordered_option(expression: &Option<XPath>) -> (r: bool)
    ensures
        r == ordered_option(xpath_view(*expression)),
{
    match expression {
        Some(expression) => is_ordered(expression.source()),
        None => true,
    }
}

/// Applies an expression to the node at `place` among the nodes that `entry`
/// finds in the document, and reads the result as text.
fn text_at(expression: &XPath, entry: &XPath, place: usize, document: &Document) -> (r: Option<
    String,
>)
    ensures
        ordered(entry@) && ordered(expression@) ==> crate::extractor::option_view(r) == field_text(
            entry@,
            place as nat,
            expression@,
            document@,
        ),
{
    match expression.evaluate_at(entry, place, document) {
        Some(value) => Some(value.into_string()),
        None => None,
    }
}

/// Applies the expression of an optional field, where there is one.
fn optional_text_at(expression: &Option<XPath>, entry: &XPath, place: usize, document: &Document) -> (r:
    Evaluated)
    ensures
        r is Unset <==> expression is None,
        ordered(entry@) && ordered_option(xpath_view(*expression)) ==> r@ == optional_field_text(
            entry@,
            place as nat,
            xpath_view(*expression),
            document@,
        ),
{
    match expression {
        None => Evaluated::Unset,
        Some(expression) => match text_at(expression, entry, place, document) {
            Some(text) => Evaluated::Text(text),
            None => Evaluated::Failed,
        },
    }
}

impl XPathExtractor {
    /// The source text of the entry expression.
    pub closed spec fn entry_source(&self) -> Seq<char> {
        self.entry@
    }

    /// The source texts of the expressions for id, title, description and url.
    pub closed spec fn field_sources(&self) -> (Seq<char>, Seq<char>, Seq<char>, Seq<char>) {
        (self.id@, self.title@, self.description@, self.url@)
    }

    /// The source text of the author expression, where there is one.
    pub closed spec fn author_source(&self) -> Option<Seq<char>> {
        xpath_view(self.author)
    }

    /// The source text of the publication date expression, where there is one.
    pub closed spec fn pub_date_source(&self) -> Option<Seq<char>> {
        xpath_view(self.pub_date)
    }

    /// The format that publication dates are read by, where there is one.
    pub closed spec fn format(&self) -> Option<Seq<char>> {
        match self.pub_date_format {
            Some(f) => Some(f@),
            None => None,
        }
    }

    /// An extractor with the expressions and the date format of `cfg`.
    pub fn from_cfg(cfg: &XPathExtractorConfig) -> (r: Self)
        ensures
            r.entry_source() == cfg.entry@,
            r.field_sources() == (cfg.id@, cfg.title@, cfg.description@, cfg.url@),
            r.author_source() == xpath_view(cfg.author),
            r.pub_date_source() == xpath_view(cfg.pub_date),
            r.format() == crate::config::format_option_view(cfg.pub_date_format),
    {
        XPathExtractor {
            entry: cfg.entry.duplicate(),
            id: cfg.id.duplicate(),
            title: cfg.title.duplicate(),
            description: cfg.description.duplicate(),
            url: cfg.url.duplicate(),
            author: duplicate_xpath(&cfg.author),
            pub_date: duplicate_xpath(&cfg.pub_date),
            pub_date_format: match &cfg.pub_date_format {
                Some(f) => Some(f.duplicate()),
                None => None,
            },
        }
    }

    /// Whether what the expressions of this extractor give for a document is
    /// the same whenever they are asked, as `ordered` says of each.
    pub open spec fn ordered(&self) -> bool {
        &&& ordered(self.entry_source())
        &&& ordered(self.field_sources().0)
        &&& ordered(self.field_sources().1)
        &&& ordered(self.field_sources().2)
        &&& ordered(self.field_sources().3)
        &&& ordered_option(self.author_source())
        &&& ordered_option(self.pub_date_source())
    }

    /// Whether what the expressions of this extractor give for a document is
    /// the same whenever they are asked.
    pub fn is_ordered(&self) -> (r: bool)
        ensures
            r == self.ordered(),
    {
        is_ordered(self.entry.source()) && is_ordered(self.id.source()) && is_ordered(
            self.title.source(),
        ) && is_ordered(self.description.source()) && is_ordered(self.url.source())
            && is_ordered_option(&self.author) && is_ordered_option(&self.pub_date)
    }

    /// What the field expressions give at the node at `place` among the nodes
    /// that the entry expression finds in a document that holds `items`.
    pub open spec fn hit_of(&self, place: nat, items: Seq<XmlItem>) -> HitView {
        HitView {
            id: field_text(self.entry_source(), place, self.field_sources().0, items),
            title: field_text(self.entry_source(), place, self.field_sources().1, items),
            description: field_text(self.entry_source(), place, self.field_sources().2, items),
            url: field_text(self.entry_source(), place, self.field_sources().3, items),
            author: optional_field_text(self.entry_source(), place, self.author_source(), items),
            pub_date: optional_field_text(self.entry_source(), place, self.pub_date_source(), items),
        }
    }

    /// What the field expressions give at each of the first `count` nodes that
    /// the entry expression finds, in document order.
    pub open spec fn hits_of(&self, count: nat, items: Seq<XmlItem>) -> Seq<HitView> {
        Seq::new(count, |place: int| self.hit_of(place as nat, items))
    }

    /// What this extractor makes of a document that holds `items`, for a page
    /// fetched from `base`.
    ///
    /// The entry expression is applied to the root of the document, with the
    /// prefix `html` bound to the XHTML namespace. Where it cannot be applied,
    /// or gives a value that is no node set, there are no entries, and the
    /// error says which. Else the field expressions are applied to each of its
    /// nodes in document order, and what they give is judged by `collect`: the
    /// entries in the order of the nodes, and a note for each node that was
    /// skipped.
    pub open spec fn extracted(&self, base: Seq<char>, items: Seq<XmlItem>) -> Result<
        (Seq<EntryView>, Seq<BadEntry>),
        ExtractError,
    > {
        match xpath_at_root(self.entry_source(), XHTML_PREFIX@, XHTML_NAMESPACE@, items) {
            None => Err(ExtractError::EntryEvaluation),
            Some(found) => if found.kind != ValueKind::Nodeset {
                Err(ExtractError::NotNodeset(found.kind))
            } else {
                Ok(collect(self.hits_of(found.strings.len(), items), base, self.format()))
            },
        }
    }

    /// Whether `r` is what `extracted` asks for.
    pub open spec fn is_extracted(
        &self,
        base: Seq<char>,
        items: Seq<XmlItem>,
        r: Result<Extraction, ExtractError>,
    ) -> bool {
        match self.extracted(base, items) {
            Ok(made) => r is Ok && entry_views(r->Ok_0.entries@) == made.0 && r->Ok_0.rejected@
                == made.1,
            Err(e) => r == Err::<Extraction, ExtractError>(e),
        }
    }

    /// Extraction is determined: two results for the same document and the
    /// same address are both the same error, or hold the same entries and the
    /// same notes.
    pub proof fn lemma_extraction_is_determined(
        &self,
        base: Seq<char>,
        items: Seq<XmlItem>,
        first: Result<Extraction, ExtractError>,
        second: Result<Extraction, ExtractError>,
    )
        requires
            self.is_extracted(base, items, first),
            self.is_extracted(base, items, second),
        ensures
            first is Ok <==> second is Ok,
            first is Ok ==> entry_views(first->Ok_0.entries@) == entry_views(second->Ok_0.entries@)
                && first->Ok_0.rejected@ == second->Ok_0.rejected@,
            first is Err ==> first->Err_0 == second->Err_0,
    {
    }

    /// Applies the field expressions to the node at `place` among the nodes
    /// that the entry expression finds in the document.
    fn hit_at(&self, place: usize, document: &Document) -> (r: Hit)
        ensures
            self.ordered() ==> r@ == self.hit_of(place as nat, document@),
    {
        Hit {
            id: text_at(&self.id, &self.entry, place, document),
            title: text_at(&self.title, &self.entry, place, document),
            description: text_at(&self.description, &self.entry, place, document),
            url: text_at(&self.url, &self.entry, place, document),
            author: optional_text_at(&self.author, &self.entry, place, document),
            pub_date: optional_text_at(&self.pub_date, &self.entry, place, document),
        }
    }

    /// Extracts the entries of a page from its tree: the tree is copied into
    /// a document, and the entries are extracted from that as `extracted`
    /// says. The result is a matter of the expressions, of the address that
    /// the page was fetched from and of what the tree holds, and of nothing
    /// else: the same page gives the same entries.
    ///
    /// This holds of an extractor whose expressions give the same whenever
    /// they are asked. Where one names the axis `namespace` or calls one of
    /// the functions `name` and `sum`, the XPath engine may answer differently
    /// from one run to the next, and the result is made of whatever it
    /// answers: entries that are well formed, or the error for an entry
    /// expression that could not be applied or gave no node set.
    pub fn extract(&self, ctx: &Context<'_>, page: &Dom) -> (r: Result<Extraction, ExtractError>)
        ensures
            self.ordered() ==> self.is_extracted(ctx.base(), tree_items(page@), r),
            r matches Ok(x) ==> forall|i: int|
                0 <= i < x.entries@.len() ==> (#[trigger] x.entries@[i])@.well_formed(),
            r matches Err(ExtractError::NotNodeset(kind)) ==> kind != ValueKind::Nodeset,
    {
        let document = Document::from_tree(page);
        self.extract_document(ctx, &document)
    }

    /// Extracts the entries of a page from its document, as `extracted` says.
    pub fn extract_document(&self, ctx: &Context<'_>, document: &Document) -> (r: Result<
        Extraction,
        ExtractError,
    >)
        ensures
            self.ordered() ==> self.is_extracted(ctx.base(), document@, r),
            r matches Ok(x) ==> forall|i: int|
                0 <= i < x.entries@.len() ==> (#[trigger] x.entries@[i])@.well_formed(),
            r matches Err(ExtractError::NotNodeset(kind)) ==> kind != ValueKind::Nodeset,
    {
        let found = evaluate_at_root(
            self.entry.source(),
            XHTML_PREFIX,
            XHTML_NAMESPACE,
            document.package(),
        );
        let value = match found {
            Some(value) => value,
            None => {
                return Err(ExtractError::EntryEvaluation);
            },
        };
        let kind = kind_of(&value);
        match kind {
            ValueKind::Nodeset => {},
            _ => {
                return Err(ExtractError::NotNodeset(kind));
            },
        }
        let ghost count = found_of(value).strings.len();
        let nodes = nodes_in_document_order(value);
        let mut hits: Vec<Hit> = Vec::new();
        let mut i: usize = 0;
        while i < nodes.len()
            invariant
                i <= nodes@.len(),
                hits@.len() == i,
                self.ordered() ==> forall|k: int|
                    0 <= k < i ==> (#[trigger] hits@[k])@ == self.hit_of(k as nat, document@),
            decreases nodes@.len() - i,
        {
            let hit = self.hit_at(i, document);
            hits.push(hit);
            i = i + 1;
        }
        let format = match &self.pub_date_format {
            Some(f) => Some(f),
            None => None,
        };
        let extraction = entries_from_hits(ctx, format, &hits);
        proof {
            assert(format_view(format) == self.format());
            assert(views(nodes@).len() == nodes@.len());
            if self.ordered() {
                assert(hit_views(hits@) =~= self.hits_of(count, document@));
            }
        }
        Ok(extraction)
    }
}

} // verus!
