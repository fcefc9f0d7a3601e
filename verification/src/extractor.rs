//! Feed entries and what every extractor shares.

pub mod lua;
pub mod xpath;

use vstd::prelude::*;

use crate::timestamp::Timestamp;
use crate::url::Url;

verus! {

/// One item of a feed, as an extractor produces it.
#[derive(Debug)]
pub struct Entry {
    /// Identifies the item within its feed; never empty.
    pub id: String,
    /// Never empty.
    pub title: String,
    /// May be empty.
    pub description: String,
    /// Where the item lives.
    pub url: Url,
    /// Never empty where present.
    pub author: Option<String>,
    /// When the item was published, where that is known.
    pub pub_date: Option<Timestamp>,
}

/// An entry as plain values.
pub struct EntryView {
    pub id: Seq<char>,
    pub title: Seq<char>,
    pub description: Seq<char>,
    pub url: Seq<char>,
    pub author: Option<Seq<char>>,
    pub pub_date: Option<Timestamp>,
}

/// The view of a string that may be absent.
pub open spec fn option_view(s: Option<String>) -> Option<Seq<char>> {
    match s {
        Some(s) => Some(s@),
        None => None,
    }
}

/// Copies a string that may be absent.
pub fn clone_option(text: &Option<String>) -> (r: Option<String>)
    ensures
        option_view(r) == option_view(*text),
{
    match text {
        Some(t) => Some(t.clone()),
        None => None,
    }
}

impl View for Entry {
    type V = EntryView;

    open spec fn view(&self) -> EntryView {
        EntryView {
            id: self.id@,
            title: self.title@,
            description: self.description@,
            url: self.url@,
            author: option_view(self.author),
            pub_date: self.pub_date,
        }
    }
}

impl EntryView {
    /// What holds of every entry that an extractor hands out: the id and the
    /// title are not empty, and neither is the author where there is one.
    pub open spec fn well_formed(self) -> bool {
        &&& self.id.len() > 0
        &&& self.title.len() > 0
        &&& self.author matches Some(a) ==> a.len() > 0
    }
}

/// The views of a sequence of entries.
pub open spec fn entry_views(entries: Seq<Entry>) -> Seq<EntryView> {
    entries.map_values(|e: Entry| e@)
}

/// What an extractor is told about the page it works on.
pub struct Context<'c> {
    fetch_url: &'c Url,
}

impl<'c> Context<'c> {
    /// The URL that the page was fetched from, as text.
    pub closed spec fn base(&self) -> Seq<char> {
        self.fetch_url@
    }

    /// A context for a page fetched from `fetch_url`.
    pub fn new(fetch_url: &'c Url) -> (r: Self)
        ensures
            r.base() == fetch_url@,
    {
        Context { fetch_url }
    }

    /// The URL that the page was fetched from.
    pub fn fetch_url(&self) -> (r: &'c Url)
        ensures
            r@ == self.base(),
    {
        self.fetch_url
    }
}

/// A field of an entry.
#[derive(Debug, Clone, Copy, PartialEq, Eq, Structural)]
pub enum Field {
    Id,
    Title,
    Description,
    Url,
    Author,
    PubDate,
}

/// Why a field made its entry unusable.
#[derive(Debug, Clone, Copy, PartialEq, Eq, Structural)]
pub enum Reason {
    /// The expression for the field could not be applied.
    EvaluationFailed,
    /// The field is empty and may not be.
    Empty,
    /// The text is no URL, alone or against the URL of the page.
    BadUrl,
    /// The text does not read as a date in the configured format.
    BadDate,
}

/// An entry that was skipped: its place among the hits, counted from one, and
/// the first field that was found wanting.
#[derive(Debug, Clone, Copy, PartialEq, Eq, Structural)]
pub struct BadEntry {
    pub index: usize,
    pub field: Field,
    pub reason: Reason,
}

/// What one extraction gives: the entries, and a note on each hit that was skipped.
#[derive(Debug)]
pub struct Extraction {
    pub entries: Vec<Entry>,
    pub rejected: Vec<BadEntry>,
}

} // verus!
