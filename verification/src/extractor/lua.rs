//! The extractor that lets a script find the entries of a page.

pub mod api;
pub mod types;

use vstd::prelude::*;

use crate::config::LuaExtractorConfig;
use crate::extractor::lua::types::{read_entry, EntryError, EntryTable, EntryTableView, LuaEntry, LuaEntryView};
use crate::extractor::{entry_views, Context, Entry, EntryView};
use crate::url::url_join;

verus! {

/// One item of the list that a script hands back.
#[derive(Debug)]
pub enum EntryValue {
    /// A table, with what it holds under the names of the fields of an entry.
    Table(EntryTable),
    /// Something that is no table.
    Other,
}

/// `EntryValue` as plain values.
pub enum EntryValueView {
    Table(EntryTableView),
    Other,
}

impl View for EntryValue {
    type V = EntryValueView;

    open spec fn view(&self) -> EntryValueView {
        match self {
            EntryValue::Table(t) => EntryValueView::Table(t@),
            EntryValue::Other => EntryValueView::Other,
        }
    }
}

/// The views of a sequence of items.
pub open spec fn value_views(values: Seq<EntryValue>) -> Seq<EntryValueView> {
    values.map_values(|v: EntryValue| v@)
}

/// An item that gave no entry: its place in the list, counted from one, and why.
#[derive(Debug, Clone, Copy, PartialEq, Eq, Structural)]
pub struct ScriptRejection {
    pub index: usize,
    pub cause: EntryError,
}

/// What the list that a script hands back gives.
#[derive(Debug)]
pub struct ScriptExtraction {
    /// The entries, in the order of the list.
    pub entries: Vec<Entry>,
    /// A note on each item that gave no entry.
    pub rejected: Vec<ScriptRejection>,
    /// The places, counted from one, of the items whose publication date is the
    /// earlier of two that the time zone allows.
    pub ambiguous_dates: Vec<usize>,
}

/// The entry that an entry of a script makes on a page fetched from `base`: the
/// same but for the URL, which is resolved against `base`; none where it
/// cannot be resolved.
pub open spec fn resolved(entry: LuaEntryView, base: Seq<char>) -> Option<EntryView> {
    match url_join(base, entry.url) {
        Some(url) => Some(
            EntryView {
                id: entry.id,
                title: entry.title,
                description: entry.description,
                url,
                author: entry.author,
                pub_date: entry.pub_date,
            },
        ),
        None => None,
    }
}

/// The entry that an item of the list makes, and whether its date is one of
/// two, or why it makes none.
pub open spec fn judge(value: EntryValueView, base: Seq<char>) -> Result<(EntryView, bool), EntryError> {
    match value {
        EntryValueView::Other => Err(EntryError::NotATable),
        EntryValueView::Table(table) => match read_entry(table) {
            Err(e) => Err(e),
            Ok((entry, ambiguous)) => match resolved(entry, base) {
                Some(entry) => Ok((entry, ambiguous)),
                None => Err(EntryError::Url),
            },
        },
    }
}

/// What a list of items gives.
pub struct Collected {
    pub entries: Seq<EntryView>,
    pub rejected: Seq<ScriptRejection>,
    pub ambiguous_dates: Seq<usize>,
}

/// What a list of items gives: the entries in the order of the list, a note on
/// each item that gives none, and the places of the ambiguous dates.
pub open spec fn collect(values: Seq<EntryValueView>, base: Seq<char>) -> Collected
    decreases values.len(),
{
    if values.len() == 0 {
        Collected { entries: Seq::empty(), rejected: Seq::empty(), ambiguous_dates: Seq::empty() }
    } else {
        let before = collect(values.drop_last(), base);
        match judge(values.last(), base) {
            Ok((entry, ambiguous)) => Collected {
                entries: before.entries.push(entry),
                rejected: before.rejected,
                ambiguous_dates: if ambiguous {
                    before.ambiguous_dates.push(values.len() as usize)
                } else {
                    before.ambiguous_dates
                },
            },
            Err(cause) => Collected {
                entries: before.entries,
                rejected: before.rejected.push(
                    ScriptRejection { index: values.len() as usize, cause },
                ),
                ambiguous_dates: before.ambiguous_dates,
            },
        }
    }
}

/// Makes the entry of a feed from an entry of a script: the URL that the
/// script wrote is resolved against the URL of the page, and where that fails
/// there is no entry.
pub fn entry_from_lua(ctx: &Context<'_>, entry: LuaEntry) -> (r: Option<Entry>)
    ensures
        r is Some <==> url_join(ctx.base(), entry.url@) is Some,
        r matches Some(e) ==> url_join(ctx.base(), entry.url@) == Some(e@.url),
        match resolved(entry@, ctx.base()) {
            Some(e) => r is Some && r->0@ == e,
            None => r is None,
        },
{
    match ctx.fetch_url().join(entry.url.as_str()) {
        Some(url) => Some(
            Entry {
                id: entry.id,
                title: entry.title,
                description: entry.description,
                url,
                author: entry.author,
                pub_date: entry.pub_date,
            },
        ),
        None => None,
    }
}

/// Reads the entries of a page from the list that a script handed back. An
/// item that gives no entry is noted and skipped; it does not stop the others.
pub fn extract(ctx: &Context<'_>, values: &Vec<EntryValue>) -> (r: ScriptExtraction)
    ensures
        entry_views(r.entries@) == collect(value_views(values@), ctx.base()).entries,
        r.rejected@ == collect(value_views(values@), ctx.base()).rejected,
        r.ambiguous_dates@ == collect(value_views(values@), ctx.base()).ambiguous_dates,
        r.entries@.len() + r.rejected@.len() == values@.len(),
        forall|i: int| 0 <= i < r.entries@.len() ==> (#[trigger] r.entries@[i])@.well_formed(),
{
    let mut entries: Vec<Entry> = Vec::new();
    let mut rejected: Vec<ScriptRejection> = Vec::new();
    let mut ambiguous_dates: Vec<usize> = Vec::new();
    let mut i: usize = 0;
    while i < values.len()
        invariant
            i <= values@.len(),
            entry_views(entries@) == collect(
                value_views(values@).take(i as int),
                ctx.base(),
            ).entries,
            rejected@ == collect(value_views(values@).take(i as int), ctx.base()).rejected,
            ambiguous_dates@ == collect(
                value_views(values@).take(i as int),
                ctx.base(),
            ).ambiguous_dates,
            entries@.len() + rejected@.len() == i,
            forall|k: int| 0 <= k < entries@.len() ==> (#[trigger] entries@[k])@.well_formed(),
        decreases values@.len() - i,
    {
        let ghost next = value_views(values@).take(i as int + 1);
        proof {
            assert(next.drop_last() =~= value_views(values@).take(i as int));
            assert(next.last() == values@[i as int]@);
        }
        let ghost old_entries = entries@;
        match &values[i] {
            EntryValue::Other => {
                rejected.push(ScriptRejection { index: i + 1, cause: EntryError::NotATable });
            },
            EntryValue::Table(table) => match LuaEntry::from_table(table) {
                Err(cause) => {
                    rejected.push(ScriptRejection { index: i + 1, cause });
                },
                Ok(read) => {
                    let ambiguous = read.ambiguous_date;
                    match entry_from_lua(ctx, read.entry) {
                        Some(entry) => {
                            entries.push(entry);
                            if ambiguous {
                                ambiguous_dates.push(i + 1);
                            }
                            proof {
                                assert(entry_views(entries@) =~= entry_views(old_entries).push(
                                    entry@,
                                ));
                            }
                        },
                        None => {
                            rejected.push(ScriptRejection { index: i + 1, cause: EntryError::Url });
                        },
                    }
                },
            },
        }
        i = i + 1;
    }
    proof {
        assert(value_views(values@).take(values@.len() as int) =~= value_views(values@));
    }
    ScriptExtraction { entries, rejected, ambiguous_dates }
}

/// Finds the entries of a page by a script: the script is run by its host, and
/// what it hands back is read here.
#[derive(Debug)]
pub struct LuaExtractor {
    path: String,
}

impl LuaExtractor {
    /// Where the script lies.
    pub closed spec fn script(&self) -> Seq<char> {
        self.path@
    }

    /// An extractor that runs the script that `cfg` names.
    pub fn from_cfg(cfg: &LuaExtractorConfig) -> (r: Self)
        ensures
            r.script() == cfg.path@,
    {
        LuaExtractor { path: cfg.path.clone() }
    }

    /// Where the script lies.
    pub fn script_path(&self) -> (r: &str)
        ensures
            r@ == self.script(),
    {
        self.path.as_str()
    }

    /// Reads the entries of a page from the list that the script handed back
    /// for it, as `extract` does.
    pub fn extract(&self, ctx: &Context<'_>, values: &Vec<EntryValue>) -> (r: ScriptExtraction)
        ensures
            entry_views(r.entries@) == collect(value_views(values@), ctx.base()).entries,
            r.rejected@ == collect(value_views(values@), ctx.base()).rejected,
            r.ambiguous_dates@ == collect(value_views(values@), ctx.base()).ambiguous_dates,
            r.entries@.len() + r.rejected@.len() == values@.len(),
            forall|i: int| 0 <= i < r.entries@.len() ==> (#[trigger] r.entries@[i])@.well_formed(),
    {
        extract(ctx, values)
    }
}

/// A standard library of the scripting language.
#[derive(Debug, Clone, Copy, PartialEq, Eq, Structural)]
pub enum StdLibrary {
    Coroutine,
    Table,
    String,
    Utf8,
    Math,
}

/// The name of the global function of a script that finds the entries.
pub const EXTRACT_FUNCTION: &'static str = "extract";

/// The name of the global table under which the host offers its functions.
pub const API_TABLE: &'static str = "feedgen";

/// The standard libraries that a script gets: those that reach nothing outside
/// the script.
pub fn make_vm() -> (r: Vec<StdLibrary>)
    ensures
        r@ == seq![
            StdLibrary::Coroutine,
            StdLibrary::Table,
            StdLibrary::String,
            StdLibrary::Utf8,
            StdLibrary::Math,
        ],
{
    let mut libraries: Vec<StdLibrary> = Vec::new();
    libraries.push(StdLibrary::Coroutine);
    libraries.push(StdLibrary::Table);
    libraries.push(StdLibrary::String);
    libraries.push(StdLibrary::Utf8);
    libraries.push(StdLibrary::Math);
    libraries
}

} // verus!
