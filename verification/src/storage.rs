//! The store of feeds and their entries.
//!
//! Two tables: the feeds, each with a number of its own and a name that no other
//! feed has, and the entries, each under the number of its feed and an id that
//! no other entry of that feed has. Storing an entry under an id that its feed
//! already holds replaces what the entry says and keeps the time it was first
//! seen.

pub mod entities;

use vstd::prelude::*;
use vstd::string::*;

use crate::extractor::{clone_option, entry_views, option_view, Entry, EntryView};
use crate::names::same_name;
use crate::order::{instants, newest_first, newest_first_order};
use crate::storage::entities::{Feed, FeedCount, FeedInfo};
use crate::timestamp::Timestamp;
use crate::url::{url_parse, Url};

verus! {

/// What an entry says, apart from its id.
pub struct Fields {
    pub title: Seq<char>,
    pub description: Seq<char>,
    pub url: Seq<char>,
    pub author: Option<Seq<char>>,
    pub published: Option<Timestamp>,
}

/// A line of the table of entries.
pub struct RowView {
    pub feed_id: int,
    pub entry_id: Seq<char>,
    /// When the entry was first seen.
    pub retrieved: Timestamp,
    pub fields: Fields,
}

/// A line of the table of feeds.
pub struct FeedView {
    pub id: int,
    pub name: Seq<char>,
    pub last_updated: Timestamp,
}

/// The two tables, and the number that the next new feed gets.
pub struct Tables {
    pub feeds: Seq<FeedView>,
    pub rows: Seq<RowView>,
    pub next_id: int,
}

/// What an entry of an extractor says, apart from its id.
pub open spec fn fields_of(e: EntryView) -> Fields {
    Fields {
        title: e.title,
        description: e.description,
        url: e.url,
        author: e.author,
        published: e.pub_date,
    }
}

/// The place of the first feed called `name`; the length of the table where
/// there is none.
pub open spec fn feed_position(feeds: Seq<FeedView>, name: Seq<char>) -> int
    decreases feeds.len(),
{
    if feeds.len() == 0 {
        0
    } else if feeds[0].name == name {
        0
    } else {
        1 + feed_position(feeds.drop_first(), name)
    }
}

/// The place of the first entry of the feed `feed_id` with the id `entry_id`;
/// the length of the table where there is none.
pub open spec fn row_position(rows: Seq<RowView>, feed_id: int, entry_id: Seq<char>) -> int
    decreases rows.len(),
{
    if rows.len() == 0 {
        0
    } else if rows[0].feed_id == feed_id && rows[0].entry_id == entry_id {
        0
    } else {
        1 + row_position(rows.drop_first(), feed_id, entry_id)
    }
}

/// Whether `p` is the place of the first feed called `name`, or the length of
/// the table where there is none.
pub open spec fn is_feed_position(feeds: Seq<FeedView>, name: Seq<char>, p: int) -> bool {
    &&& 0 <= p <= feeds.len()
    &&& p < feeds.len() ==> feeds[p].name == name
    &&& forall|j: int| 0 <= j < p ==> (#[trigger] feeds[j]).name != name
}

/// Whether `p` is the place of the first entry with the given key, or the
/// length of the table where there is none.
pub open spec fn is_row_position(rows: Seq<RowView>, feed_id: int, entry_id: Seq<char>, p: int) -> bool {
    &&& 0 <= p <= rows.len()
    &&& p < rows.len() ==> rows[p].feed_id == feed_id && rows[p].entry_id == entry_id
    &&& forall|j: int|
        0 <= j < p ==> !((#[trigger] rows[j]).feed_id == feed_id && rows[j].entry_id == entry_id)
}

/// `feed_position` is what its name says.
pub proof fn lemma_feed_position(feeds: Seq<FeedView>, name: Seq<char>)
    ensures
        is_feed_position(feeds, name, feed_position(feeds, name)),
    decreases feeds.len(),
{
    if feeds.len() > 0 && feeds[0].name != name {
        lemma_feed_position(feeds.drop_first(), name);
        let p = feed_position(feeds.drop_first(), name);
        assert forall|j: int| 0 <= j < p + 1 implies (#[trigger] feeds[j]).name != name by {
            if j > 0 {
                assert(feeds.drop_first()[j - 1] == feeds[j]);
            }
        }
        if p < feeds.drop_first().len() {
            assert(feeds.drop_first()[p] == feeds[p + 1]);
        }
    }
}

/// `row_position` is what its name says.
pub proof fn lemma_row_position(rows: Seq<RowView>, feed_id: int, entry_id: Seq<char>)
    ensures
        is_row_position(rows, feed_id, entry_id, row_position(rows, feed_id, entry_id)),
    decreases rows.len(),
{
    if rows.len() > 0 && !(rows[0].feed_id == feed_id && rows[0].entry_id == entry_id) {
        lemma_row_position(rows.drop_first(), feed_id, entry_id);
        let p = row_position(rows.drop_first(), feed_id, entry_id);
        assert forall|j: int| 0 <= j < p + 1 implies !((#[trigger] rows[j]).feed_id == feed_id
            && rows[j].entry_id == entry_id) by {
            if j > 0 {
                assert(rows.drop_first()[j - 1] == rows[j]);
            }
        }
        if p < rows.drop_first().len() {
            assert(rows.drop_first()[p] == rows[p + 1]);
        }
    }
}

/// A place that is the first of its key is the one that `row_position` gives.
pub proof fn lemma_row_position_unique(rows: Seq<RowView>, feed_id: int, entry_id: Seq<char>, p: int)
    requires
        is_row_position(rows, feed_id, entry_id, p),
    ensures
        row_position(rows, feed_id, entry_id) == p,
{
    lemma_row_position(rows, feed_id, entry_id);
    let q = row_position(rows, feed_id, entry_id);
    if q < p {
        assert(!(rows[q].feed_id == feed_id && rows[q].entry_id == entry_id));
    } else if p < q {
        assert(!(rows[p].feed_id == feed_id && rows[p].entry_id == entry_id));
    }
}

/// A place that is the first of its name is the one that `feed_position` gives.
pub proof fn lemma_feed_position_unique(feeds: Seq<FeedView>, name: Seq<char>, p: int)
    requires
        is_feed_position(feeds, name, p),
    ensures
        feed_position(feeds, name) == p,
{
    lemma_feed_position(feeds, name);
    let q = feed_position(feeds, name);
    if q < p {
        assert(feeds[q].name != name);
    } else if p < q {
        assert(feeds[p].name != name);
    }
}

/// The table of entries after one entry of the feed `feed_id` was stored at
/// `now`: an entry under an id that is there is replaced in all it says and
/// keeps the time it was first seen; another is added as first seen at `now`.
pub open spec fn upsert_row(rows: Seq<RowView>, feed_id: int, e: EntryView, now: Timestamp) -> Seq<
    RowView,
> {
    let p = row_position(rows, feed_id, e.id);
    if p < rows.len() {
        rows.update(p, RowView { fields: fields_of(e), ..rows[p] })
    } else {
        rows.push(RowView { feed_id, entry_id: e.id, retrieved: now, fields: fields_of(e) })
    }
}

/// The table of entries after the entries were stored, one after the other.
pub open spec fn store_rows(rows: Seq<RowView>, feed_id: int, es: Seq<EntryView>, now: Timestamp) -> Seq<
    RowView,
>
    decreases es.len(),
{
    if es.len() == 0 {
        rows
    } else {
        upsert_row(store_rows(rows, feed_id, es.drop_last(), now), feed_id, es.last(), now)
    }
}

/// The tables after the entries of the feed `name` were stored at `now`: the
/// feed is marked as updated at `now`, and is first added, under the next
/// number, where it is not there; then the entries are stored under its number.
pub open spec fn store(t: Tables, name: Seq<char>, es: Seq<EntryView>, now: Timestamp) -> Tables {
    let p = feed_position(t.feeds, name);
    if p < t.feeds.len() {
        Tables {
            feeds: t.feeds.update(p, FeedView { last_updated: now, ..t.feeds[p] }),
            rows: store_rows(t.rows, t.feeds[p].id, es, now),
            next_id: t.next_id,
        }
    } else {
        Tables {
            feeds: t.feeds.push(FeedView { id: t.next_id, name, last_updated: now }),
            rows: store_rows(t.rows, t.next_id, es, now),
            next_id: t.next_id + 1,
        }
    }
}

/// Whether no two entries have the same feed and id.
pub open spec fn keys_distinct(rows: Seq<RowView>) -> bool {
    forall|i: int, j: int|
        0 <= i < j < rows.len() ==> !((#[trigger] rows[i]).feed_id == (#[trigger] rows[j]).feed_id
            && rows[i].entry_id == rows[j].entry_id)
}

/// Whether the feeds stand in the order of their numbers, no two of a name,
/// and all numbers below `next_id`.
pub open spec fn feeds_in_order(feeds: Seq<FeedView>, next_id: int) -> bool {
    &&& forall|i: int, j: int|
        0 <= i < j < feeds.len() ==> (#[trigger] feeds[i]).id < (#[trigger] feeds[j]).id
    &&& forall|i: int, j: int|
        0 <= i < j < feeds.len() ==> (#[trigger] feeds[i]).name != (#[trigger] feeds[j]).name
    &&& forall|i: int| 0 <= i < feeds.len() ==> (#[trigger] feeds[i]).id < next_id
}

/// Whether every entry belongs to a feed that is there.
pub open spec fn rows_have_feeds(t: Tables) -> bool {
    forall|i: int|
        0 <= i < t.rows.len() ==> exists|f: int|
            0 <= f < t.feeds.len() && (#[trigger] t.feeds[f]).id == (#[trigger] t.rows[i]).feed_id
}

impl Tables {
    /// What holds of the tables at all times: the feeds stand in the order of
    /// their numbers and no two have a name, no two entries have the same feed
    /// and id, and every entry belongs to a feed that is there.
    pub open spec fn well_formed(self) -> bool {
        &&& feeds_in_order(self.feeds, self.next_id)
        &&& keys_distinct(self.rows)
        &&& rows_have_feeds(self)
    }

    /// Whether no entry was first seen after its feed was last updated.
    pub open spec fn dated(self) -> bool {
        forall|i: int, f: int|
            0 <= i < self.rows.len() && 0 <= f < self.feeds.len() && (#[trigger] self.feeds[f]).id
                == (#[trigger] self.rows[i]).feed_id ==> self.rows[i].retrieved.instant()
                <= self.feeds[f].last_updated.instant()
    }
}

/// What the last of the entries with the id `entry_id` says; `None` where
/// there is no such entry.
pub open spec fn last_fields(es: Seq<EntryView>, entry_id: Seq<char>) -> Option<Fields>
    decreases es.len(),
{
    if es.len() == 0 {
        None
    } else if es.last().id == entry_id {
        Some(fields_of(es.last()))
    } else {
        last_fields(es.drop_last(), entry_id)
    }
}

/// What storing entries does to the table, line by line.
///
/// The table does not shrink. A line that was there keeps its place, its key
/// and the time it was first seen, and says what the last entry under its key
/// says, or what it said where there is no such entry. A line that was not
/// there belongs to the feed, was first seen at `now`, and says what the last
/// entry under its id says. Every entry that was stored has its line. No line
/// is added where every entry had one.
pub proof fn lemma_store_rows(rows: Seq<RowView>, feed_id: int, es: Seq<EntryView>, now: Timestamp)
    requires
        keys_distinct(rows),
    ensures
        keys_distinct(store_rows(rows, feed_id, es, now)),
        store_rows(rows, feed_id, es, now).len() >= rows.len(),
        forall|i: int|
            #![trigger store_rows(rows, feed_id, es, now)[i]]
            0 <= i < rows.len() ==> {
                let r = store_rows(rows, feed_id, es, now)[i];
                &&& r.feed_id == rows[i].feed_id
                &&& r.entry_id == rows[i].entry_id
                &&& r.retrieved == rows[i].retrieved
                &&& r.fields == (if rows[i].feed_id == feed_id && last_fields(
                    es,
                    rows[i].entry_id,
                ) is Some {
                    last_fields(es, rows[i].entry_id)->0
                } else {
                    rows[i].fields
                })
            },
        forall|i: int|
            #![trigger store_rows(rows, feed_id, es, now)[i]]
            rows.len() <= i < store_rows(rows, feed_id, es, now).len() ==> {
                let r = store_rows(rows, feed_id, es, now)[i];
                &&& r.feed_id == feed_id
                &&& r.retrieved == now
                &&& last_fields(es, r.entry_id) == Some(r.fields)
            },
        forall|j: int|
            0 <= j < es.len() ==> row_position(
                store_rows(rows, feed_id, es, now),
                feed_id,
                (#[trigger] es[j]).id,
            ) < store_rows(rows, feed_id, es, now).len(),
        (forall|j: int|
            0 <= j < es.len() ==> row_position(rows, feed_id, (#[trigger] es[j]).id) < rows.len())
            ==> store_rows(rows, feed_id, es, now).len() == rows.len(),
    decreases es.len(),
{
    if es.len() > 0 {
        let init = es.drop_last();
        let e = es.last();
        let mid = store_rows(rows, feed_id, init, now);
        let out = store_rows(rows, feed_id, es, now);
        lemma_store_rows(rows, feed_id, init, now);
        lemma_row_position(mid, feed_id, e.id);
        let p = row_position(mid, feed_id, e.id);
        assert(out == upsert_row(mid, feed_id, e, now));
        // every line of `out` has the key of the line of `mid` at its place
        assert forall|i: int| 0 <= i < mid.len() implies (#[trigger] out[i]).feed_id
            == mid[i].feed_id && out[i].entry_id == mid[i].entry_id && out[i].retrieved
            == mid[i].retrieved by {}
        assert(keys_distinct(out)) by {
            assert forall|i: int, j: int| 0 <= i < j < out.len() implies !((#[trigger] out[i]).feed_id
                == (#[trigger] out[j]).feed_id && out[i].entry_id == out[j].entry_id) by {
                if j < mid.len() {
                    assert(!(mid[i].feed_id == mid[j].feed_id && mid[i].entry_id
                        == mid[j].entry_id));
                } else {
                    assert(p == mid.len());
                    assert(!(mid[i].feed_id == feed_id && mid[i].entry_id == e.id));
                }
            }
        }
        assert forall|i: int|
            #![trigger out[i]]
            0 <= i < rows.len() implies {
            let r = out[i];
            &&& r.feed_id == rows[i].feed_id
            &&& r.entry_id == rows[i].entry_id
            &&& r.retrieved == rows[i].retrieved
            &&& r.fields == (if rows[i].feed_id == feed_id && last_fields(es, rows[i].entry_id)
                is Some {
                last_fields(es, rows[i].entry_id)->0
            } else {
                rows[i].fields
            })
        } by {
            let m = mid[i];
            if i == p {
            } else {
                assert(out[i] == mid[i]);
                if rows[i].feed_id == feed_id && rows[i].entry_id == e.id {
                    // then `i` holds the key of `e`, and `p` is the first such place
                    assert(p < mid.len());
                    if i < p {
                        assert(!(mid[i].feed_id == feed_id && mid[i].entry_id == e.id));
                    } else {
                        assert(!(mid[p].feed_id == mid[i].feed_id && mid[p].entry_id
                            == mid[i].entry_id));
                    }
                }
            }
        }
        assert forall|i: int|
            #![trigger out[i]]
            rows.len() <= i < out.len() implies {
            let r = out[i];
            &&& r.feed_id == feed_id
            &&& r.retrieved == now
            &&& last_fields(es, r.entry_id) == Some(r.fields)
        } by {
            if i < mid.len() {
                let m = mid[i];
                if i == p {
                } else {
                    assert(out[i] == mid[i]);
                    if m.entry_id == e.id {
                        assert(p < mid.len());
                        if i < p {
                            assert(!(mid[i].feed_id == feed_id && mid[i].entry_id == e.id));
                        } else {
                            assert(!(mid[p].feed_id == mid[i].feed_id && mid[p].entry_id
                                == mid[i].entry_id));
                        }
                    }
                }
            }
        }
        assert forall|j: int| 0 <= j < es.len() implies row_position(
            out,
            feed_id,
            (#[trigger] es[j]).id,
        ) < out.len() by {
            lemma_row_position(out, feed_id, es[j].id);
            let q = row_position(out, feed_id, es[j].id);
            if q == out.len() {
                if j == es.len() - 1 {
                    let at = if p < mid.len() {
                        p
                    } else {
                        mid.len() as int
                    };
                    assert(out[at].feed_id == feed_id && out[at].entry_id == e.id);
                    assert(false);
                } else {
                    assert(init[j] == es[j]);
                    lemma_row_position(mid, feed_id, es[j].id);
                    let at = row_position(mid, feed_id, es[j].id);
                    assert(at < mid.len());
                    assert(out[at].feed_id == feed_id && out[at].entry_id == es[j].id);
                    assert(false);
                }
            }
        }
        if forall|j: int|
            0 <= j < es.len() ==> row_position(rows, feed_id, (#[trigger] es[j]).id) < rows.len() {
            assert forall|j: int| 0 <= j < init.len() implies row_position(
                rows,
                feed_id,
                (#[trigger] init[j]).id,
            ) < rows.len() by {
                assert(init[j] == es[j]);
            }
            assert(mid.len() == rows.len());
            lemma_row_position(rows, feed_id, e.id);
            let at = row_position(rows, feed_id, e.id);
            assert(es[es.len() - 1] == e);
            assert(at < rows.len());
            assert(mid[at].feed_id == feed_id && mid[at].entry_id == e.id);
            assert(p < mid.len());
        }
    }
}

/// Storing keeps the tables well formed.
pub proof fn lemma_store_well_formed(t: Tables, name: Seq<char>, es: Seq<EntryView>, now: Timestamp)
    requires
        t.well_formed(),
    ensures
        store(t, name, es, now).well_formed(),
{
    let out = store(t, name, es, now);
    lemma_feed_position(t.feeds, name);
    let p = feed_position(t.feeds, name);
    let fid = if p < t.feeds.len() {
        t.feeds[p].id
    } else {
        t.next_id
    };
    lemma_store_rows(t.rows, fid, es, now);
    let at = if p < t.feeds.len() {
        p
    } else {
        t.feeds.len() as int
    };
    assert(out.feeds[at].id == fid);
    assert forall|i: int| 0 <= i < out.rows.len() implies exists|f: int|
        0 <= f < out.feeds.len() && (#[trigger] out.feeds[f]).id == (#[trigger] out.rows[i]).feed_id by {
        if i < t.rows.len() {
            assert(out.rows[i].feed_id == t.rows[i].feed_id);
            let f = choose|f: int|
                0 <= f < t.feeds.len() && (#[trigger] t.feeds[f]).id == t.rows[i].feed_id;
            assert(out.feeds[f].id == t.feeds[f].id);
        } else {
            assert(out.rows[i].feed_id == fid);
        }
    }
    assert(feeds_in_order(out.feeds, out.next_id)) by {
        assert forall|i: int| 0 <= i < out.feeds.len() implies (#[trigger] out.feeds[i]).id
            < out.next_id by {
            if i < t.feeds.len() {
                assert(out.feeds[i].id == t.feeds[i].id);
            }
        }
        assert forall|i: int, j: int| 0 <= i < j < out.feeds.len() implies (#[trigger] out.feeds[i]).id
            < (#[trigger] out.feeds[j]).id by {
            assert(out.feeds[i].id == t.feeds[i].id);
            if j < t.feeds.len() {
                assert(out.feeds[j].id == t.feeds[j].id);
            }
        }
        assert forall|i: int, j: int| 0 <= i < j < out.feeds.len() implies (#[trigger] out.feeds[i]).name
            != (#[trigger] out.feeds[j]).name by {
            assert(out.feeds[i].name == t.feeds[i].name);
            if j < t.feeds.len() {
                assert(out.feeds[j].name == t.feeds[j].name);
            }
        }
    }
}

/// Storing the same entries for the same feed a second time leaves the table
/// of entries as the first time left it, whenever the second time is: no entry
/// is there twice, and none changes in anything.
pub proof fn lemma_store_idempotent(
    t: Tables,
    name: Seq<char>,
    es: Seq<EntryView>,
    first: Timestamp,
    second: Timestamp,
)
    requires
        t.well_formed(),
    ensures
        store(store(t, name, es, first), name, es, second).rows == store(t, name, es, first).rows,
        keys_distinct(store(t, name, es, first).rows),
        store(store(t, name, es, first), name, es, second).next_id == store(
            t,
            name,
            es,
            first,
        ).next_id,
        store(store(t, name, es, first), name, es, second).feeds.len() == store(
            t,
            name,
            es,
            first,
        ).feeds.len(),
{
    let once = store(t, name, es, first);
    let twice = store(once, name, es, second);
    lemma_feed_position(t.feeds, name);
    let p = feed_position(t.feeds, name);
    let fid = if p < t.feeds.len() {
        t.feeds[p].id
    } else {
        t.next_id
    };
    let at = if p < t.feeds.len() {
        p
    } else {
        t.feeds.len() as int
    };
    // the feed stands at the same place after the first time
    assert(is_feed_position(once.feeds, name, at)) by {
        assert forall|j: int| 0 <= j < at implies (#[trigger] once.feeds[j]).name != name by {
            assert(once.feeds[j].name == t.feeds[j].name);
        }
    }
    lemma_feed_position_unique(once.feeds, name, at);
    assert(once.feeds[at].id == fid);
    lemma_store_rows(t.rows, fid, es, first);
    lemma_store_rows(once.rows, fid, es, second);
    assert(twice.rows == store_rows(once.rows, fid, es, second));
    assert(twice.rows.len() == once.rows.len());
    assert forall|i: int| 0 <= i < once.rows.len() implies twice.rows[i] == once.rows[i] by {
        let a = once.rows[i];
        let b = twice.rows[i];
        assert(b.feed_id == a.feed_id && b.entry_id == a.entry_id && b.retrieved == a.retrieved);
        if a.feed_id == fid && last_fields(es, a.entry_id) is Some {
            if i < t.rows.len() {
                assert(a.entry_id == t.rows[i].entry_id);
                assert(a.feed_id == t.rows[i].feed_id);
            }
        }
    }
    assert(twice.rows =~= once.rows);
}

/// Storing for a feed marks it as updated at that time; so of two times one
/// after the other, the second leaves the later mark.
pub proof fn lemma_last_updated(t: Tables, name: Seq<char>, es: Seq<EntryView>, now: Timestamp)
    ensures
        feed_position(store(t, name, es, now).feeds, name) < store(t, name, es, now).feeds.len(),
        store(t, name, es, now).feeds[feed_position(
            store(t, name, es, now).feeds,
            name,
        )].last_updated == now,
{
    let out = store(t, name, es, now);
    lemma_feed_position(t.feeds, name);
    let p = feed_position(t.feeds, name);
    let at = if p < t.feeds.len() {
        p
    } else {
        t.feeds.len() as int
    };
    assert(is_feed_position(out.feeds, name, at)) by {
        assert forall|j: int| 0 <= j < at implies (#[trigger] out.feeds[j]).name != name by {
            assert(out.feeds[j].name == t.feeds[j].name);
        }
    }
    lemma_feed_position_unique(out.feeds, name, at);
}

/// Of two times at which entries are stored for a feed, one after the other,
/// the second leaves a last update that is not before the one that the first
/// left, whenever the clock did not go back between them.
pub proof fn lemma_last_updated_grows(
    t: Tables,
    name: Seq<char>,
    first_entries: Seq<EntryView>,
    second_entries: Seq<EntryView>,
    first: Timestamp,
    second: Timestamp,
)
    requires
        first.instant() <= second.instant(),
    ensures
        ({
            let once = store(t, name, first_entries, first);
            let twice = store(once, name, second_entries, second);
            once.feeds[feed_position(once.feeds, name)].last_updated.instant()
                <= twice.feeds[feed_position(twice.feeds, name)].last_updated.instant()
        }),
{
    let once = store(t, name, first_entries, first);
    lemma_last_updated(t, name, first_entries, first);
    lemma_last_updated(once, name, second_entries, second);
}

/// An entry that is there when entries are stored keeps the time it was first
/// seen, whatever is stored, and stays at its place.
pub proof fn lemma_retrieved_kept(
    t: Tables,
    name: Seq<char>,
    es: Seq<EntryView>,
    now: Timestamp,
    i: int,
)
    requires
        t.well_formed(),
        0 <= i < t.rows.len(),
    ensures
        i < store(t, name, es, now).rows.len(),
        store(t, name, es, now).rows[i].retrieved == t.rows[i].retrieved,
        store(t, name, es, now).rows[i].feed_id == t.rows[i].feed_id,
        store(t, name, es, now).rows[i].entry_id == t.rows[i].entry_id,
{
    let p = feed_position(t.feeds, name);
    let fid = if p < t.feeds.len() {
        t.feeds[p].id
    } else {
        t.next_id
    };
    lemma_store_rows(t.rows, fid, es, now);
}

/// Where no entry was first seen after its feed was last updated, that stays
/// so when entries are stored at a time that is not before the last update of
/// the feed.
pub proof fn lemma_store_dated(t: Tables, name: Seq<char>, es: Seq<EntryView>, now: Timestamp)
    requires
        t.well_formed(),
        t.dated(),
        feed_position(t.feeds, name) < t.feeds.len() ==> t.feeds[feed_position(
            t.feeds,
            name,
        )].last_updated.instant() <= now.instant(),
    ensures
        store(t, name, es, now).dated(),
{
    let out = store(t, name, es, now);
    lemma_feed_position(t.feeds, name);
    let p = feed_position(t.feeds, name);
    let fid = if p < t.feeds.len() {
        t.feeds[p].id
    } else {
        t.next_id
    };
    let at = if p < t.feeds.len() {
        p
    } else {
        t.feeds.len() as int
    };
    lemma_store_rows(t.rows, fid, es, now);
    assert forall|i: int, f: int|
        0 <= i < out.rows.len() && 0 <= f < out.feeds.len() && (#[trigger] out.feeds[f]).id
            == (#[trigger] out.rows[i]).feed_id implies out.rows[i].retrieved.instant()
        <= out.feeds[f].last_updated.instant() by {
        if f < t.feeds.len() {
            assert(out.feeds[f].id == t.feeds[f].id);
        }
        if i < t.rows.len() {
            assert(out.rows[i].retrieved == t.rows[i].retrieved);
            assert(out.rows[i].feed_id == t.rows[i].feed_id);
            if f == at {
                if p < t.feeds.len() {
                    assert(t.rows[i].retrieved.instant() <= t.feeds[p].last_updated.instant());
                } else {
                    // a line of the old table cannot belong to a feed that was not there
                    let g = choose|g: int|
                        0 <= g < t.feeds.len() && (#[trigger] t.feeds[g]).id == t.rows[i].feed_id;
                    assert(t.feeds[g].id < t.next_id);
                    assert(false);
                }
            } else {
                assert(out.feeds[f] == t.feeds[f]);
            }
        } else {
            assert(out.rows[i].feed_id == fid);
            assert(out.rows[i].retrieved == now);
            if f != at {
                assert(out.feeds[f].id == t.feeds[f].id);
                if p < t.feeds.len() {
                    if f < p {
                        assert(t.feeds[f].id < t.feeds[p].id);
                    } else {
                        assert(t.feeds[p].id < t.feeds[f].id);
                    }
                } else {
                    assert(t.feeds[f].id < t.next_id);
                }
                assert(false);
            }
        }
    }
}

/// A feed of the table as plain values.
pub open spec fn feed_view(f: Feed) -> FeedView {
    FeedView { id: f.id as int, name: f.name@, last_updated: f.last_updated }
}

/// What a stored entry says, apart from its id.
pub open spec fn stored_fields(e: entities::Entry) -> Fields {
    Fields {
        title: e.title@,
        description: e.description@,
        url: e.url@,
        author: option_view(e.author),
        published: e.published,
    }
}

/// A line of the table of entries.
#[derive(Debug)]
struct Row {
    feed_id: i64,
    entry: entities::Entry,
}

spec fn row_view(r: Row) -> RowView {
    RowView {
        feed_id: r.feed_id as int,
        entry_id: r.entry.entry_id@,
        retrieved: r.entry.retrieved,
        fields: stored_fields(r.entry),
    }
}

spec fn feed_views(feeds: Seq<Feed>) -> Seq<FeedView> {
    feeds.map_values(|f: Feed| feed_view(f))
}

spec fn row_views(rows: Seq<Row>) -> Seq<RowView> {
    rows.map_values(|r: Row| row_view(r))
}

/// The two tables as they are kept.
#[derive(Debug)]
struct Data {
    feeds: Vec<Feed>,
    rows: Vec<Row>,
    next_id: i64,
}

impl Data {
    spec fn tables(self) -> Tables {
        Tables {
            feeds: feed_views(self.feeds@),
            rows: row_views(self.rows@),
            next_id: self.next_id as int,
        }
    }

    #[verifier::type_invariant]
    spec fn sound(self) -> bool {
        self.tables().well_formed()
    }

    fn empty() -> (r: Data)
        ensures
            r.tables() == (Tables { feeds: Seq::empty(), rows: Seq::empty(), next_id: 1 }),
    {
        let r = Data { feeds: Vec::new(), rows: Vec::new(), next_id: 1 };
        assert(r.tables().feeds =~= Seq::<FeedView>::empty());
        assert(r.tables().rows =~= Seq::<RowView>::empty());
        r
    }

    fn duplicate(&self) -> (r: Data)
        ensures
            r.tables() == self.tables(),
    {
        proof {
            use_type_invariant(self);
        }
        let mut feeds: Vec<Feed> = Vec::new();
        let mut i: usize = 0;
        while i < self.feeds.len()
            invariant
                i <= self.feeds@.len(),
                feeds@.len() == i,
                forall|k: int| 0 <= k < i ==> feed_view(#[trigger] feeds@[k]) == feed_view(self.feeds@[k]),
            decreases self.feeds@.len() - i,
        {
            let f = &self.feeds[i];
            feeds.push(Feed { id: f.id, name: f.name.clone(), last_updated: f.last_updated });
            i = i + 1;
        }
        let mut rows: Vec<Row> = Vec::new();
        let mut j: usize = 0;
        while j < self.rows.len()
            invariant
                j <= self.rows@.len(),
                rows@.len() == j,
                forall|k: int| 0 <= k < j ==> row_view(#[trigger] rows@[k]) == row_view(self.rows@[k]),
            decreases self.rows@.len() - j,
        {
            let r = &self.rows[j];
            rows.push(Row { feed_id: r.feed_id, entry: duplicate_stored(&r.entry) });
            j = j + 1;
        }
        proof {
            assert(feed_views(feeds@) =~= feed_views(self.feeds@));
            assert(row_views(rows@) =~= row_views(self.rows@));
        }
        Data { feeds, rows, next_id: self.next_id }
    }
}

/// Copies a stored entry.
fn duplicate_stored(e: &entities::Entry) -> (r: entities::Entry)
    ensures
        r.entry_id@ == e.entry_id@,
        r.retrieved == e.retrieved,
        stored_fields(r) == stored_fields(*e),
{
    entities::Entry {
        retrieved: e.retrieved,
        entry_id: e.entry_id.clone(),
        title: e.title.clone(),
        description: e.description.clone(),
        url: e.url.clone(),
        author: clone_option(&e.author),
        published: e.published,
    }
}

/// Finds the first feed called `name`.
fn find_feed(feeds: &Vec<Feed>, name: &str) -> (p: usize)
    ensures
        p == feed_position(feed_views(feeds@), name@),
        p <= feeds@.len(),
{
    let mut i: usize = 0;
    let mut stop = false;
    while i < feeds.len() && !stop
        invariant
            i <= feeds@.len(),
            forall|j: int| 0 <= j < i ==> (#[trigger] feed_views(feeds@)[j]).name != name@,
            stop ==> i < feeds@.len() && feed_views(feeds@)[i as int].name == name@,
        decreases feeds@.len() - i + (if stop { 0int } else { 1int }),
    {
        if same_name(feeds[i].name.as_str(), name) {
            stop = true;
        } else {
            i = i + 1;
        }
    }
    proof {
        lemma_feed_position_unique(feed_views(feeds@), name@, i as int);
    }
    i
}

/// Finds the first entry of the feed `feed_id` with the id `entry_id`.
fn find_row(rows: &Vec<Row>, feed_id: i64, entry_id: &str) -> (p: usize)
    ensures
        p == row_position(row_views(rows@), feed_id as int, entry_id@),
        p <= rows@.len(),
{
    let mut i: usize = 0;
    let mut stop = false;
    while i < rows.len() && !stop
        invariant
            i <= rows@.len(),
            forall|j: int|
                0 <= j < i ==> !((#[trigger] row_views(rows@)[j]).feed_id == feed_id && row_views(
                    rows@,
                )[j].entry_id == entry_id@),
            stop ==> i < rows@.len() && row_views(rows@)[i as int].feed_id == feed_id && row_views(
                rows@,
            )[i as int].entry_id == entry_id@,
        decreases rows@.len() - i + (if stop { 0int } else { 1int }),
    {
        if rows[i].feed_id == feed_id && same_name(rows[i].entry.entry_id.as_str(), entry_id) {
            stop = true;
        } else {
            i = i + 1;
        }
    }
    proof {
        lemma_row_position_unique(row_views(rows@), feed_id as int, entry_id@, i as int);
    }
    i
}

/// Stores one entry of the feed `feed_id` at `now`.
fn upsert(rows: &mut Vec<Row>, feed_id: i64, e: &Entry, now: Timestamp)
    ensures
        row_views(final(rows)@) == upsert_row(row_views(old(rows)@), feed_id as int, e@, now),
{
    let p = find_row(rows, feed_id, e.id.as_str());
    let ghost before = row_views(rows@);
    proof {
        lemma_row_position(before, feed_id as int, e.id@);
    }
    if p < rows.len() {
        let retrieved = rows[p].entry.retrieved;
        let entry_id = rows[p].entry.entry_id.clone();
        let row = Row {
            feed_id,
            entry: entities::Entry {
                retrieved,
                entry_id,
                title: e.title.clone(),
                description: e.description.clone(),
                url: String::from_str(e.url.as_str()),
                author: clone_option(&e.author),
                published: e.pub_date,
            },
        };
        rows.set(p, row);
        proof {
            assert(row_views(rows@) =~= before.update(
                p as int,
                RowView { fields: fields_of(e@), ..before[p as int] },
            ));
        }
    } else {
        let row = Row {
            feed_id,
            entry: entities::Entry {
                retrieved: now,
                entry_id: e.id.clone(),
                title: e.title.clone(),
                description: e.description.clone(),
                url: String::from_str(e.url.as_str()),
                author: clone_option(&e.author),
                published: e.pub_date,
            },
        };
        rows.push(row);
        proof {
            assert(row_views(rows@) =~= before.push(
                RowView {
                    feed_id: feed_id as int,
                    entry_id: e@.id,
                    retrieved: now,
                    fields: fields_of(e@),
                },
            ));
        }
    }
}

/// Why the store could not take what it was given.
#[derive(Debug, Clone, Copy, PartialEq, Eq, Structural)]
pub enum StorageError {
    /// There is no number left for a new feed.
    Full,
}

/// The store: what was committed last.
#[derive(Debug)]
pub struct Storage {
    data: Data,
}

/// A transaction: the tables as they would be if it were committed now.
#[derive(Debug)]
pub struct Tx {
    data: Data,
}

impl View for Storage {
    type V = Tables;

    closed spec fn view(&self) -> Tables {
        self.data.tables()
    }
}

impl View for Tx {
    type V = Tables;

    closed spec fn view(&self) -> Tables {
        self.data.tables()
    }
}

/// The number of entries of the feed `feed_id`.
pub open spec fn count_rows(rows: Seq<RowView>, feed_id: int) -> nat
    decreases rows.len(),
{
    if rows.len() == 0 {
        0
    } else {
        count_rows(rows.drop_last(), feed_id) + if rows.last().feed_id == feed_id {
            1nat
        } else {
            0nat
        }
    }
}

/// Whether `info` tells of `feed` what the tables hold.
pub open spec fn tells_of(info: FeedInfo, feed: FeedView, rows: Seq<RowView>) -> bool {
    &&& info.name@ == feed.name
    &&& info.last_updated == feed.last_updated
    &&& info.entry_count == count_rows(rows, feed.id)
}

/// The places of the entries of the feed `feed_id`, in the order of the table.
pub open spec fn places_of(rows: Seq<RowView>, feed_id: int) -> Seq<int>
    decreases rows.len(),
{
    if rows.len() == 0 {
        Seq::empty()
    } else {
        let before = places_of(rows.drop_last(), feed_id);
        if rows.last().feed_id == feed_id {
            before.push(rows.len() - 1)
        } else {
            before
        }
    }
}

/// The entries of the feed `feed_id` that are handed out when at most `count`
/// are asked for: those first seen last, newest first, and of entries first
/// seen at the same instant those that were stored first.
pub open spec fn newest_rows(rows: Seq<RowView>, feed_id: int, count: int) -> Seq<RowView> {
    let places = places_of(rows, feed_id);
    let order = newest_first_order(places.map_values(|p: int| rows[p].retrieved.instant()));
    let n = if count < order.len() {
        count
    } else {
        order.len() as int
    };
    Seq::new(n as nat, |j: int| rows[places[order[j] as int]])
}

/// The entry that a stored entry is handed out as: its URL as the `url` crate
/// reads it, and as its publication date the one it was stored with, or the
/// time it was first seen. `None` where its URL cannot be read.
pub open spec fn entry_of(row: RowView) -> Option<EntryView> {
    match url_parse(row.fields.url) {
        None => None,
        Some(url) => Some(
            EntryView {
                id: row.entry_id,
                title: row.fields.title,
                description: row.fields.description,
                url,
                author: row.fields.author,
                pub_date: Some(
                    match row.fields.published {
                        Some(at) => at,
                        None => row.retrieved,
                    },
                ),
            },
        ),
    }
}

/// A stored entry comes back: a line that says what an entry says is handed
/// out as that entry, with the time the line was first seen as its publication
/// date where it has none. The URL of the entry must read back as itself, as
/// every URL that was parsed or joined does.
pub proof fn lemma_stored_entry_comes_back(row: RowView, e: EntryView)
    requires
        row.entry_id == e.id,
        row.fields == fields_of(e),
        crate::url::reads_back(e.url),
    ensures
        entry_of(row) == Some(
            EntryView {
                pub_date: Some(
                    match e.pub_date {
                        Some(at) => at,
                        None => row.retrieved,
                    },
                ),
                ..e
            },
        ),
{
}

/// The entries that stored entries are handed out as, in their order; one
/// whose URL cannot be read is left out.
pub open spec fn entries_of(rows: Seq<RowView>) -> Seq<EntryView>
    decreases rows.len(),
{
    if rows.len() == 0 {
        Seq::empty()
    } else {
        let before = entries_of(rows.drop_last());
        match entry_of(rows.last()) {
            Some(e) => before.push(e),
            None => before,
        }
    }
}

/// A stored entry, without its feed, as a line of the table of the feed `feed_id`.
pub open spec fn as_row(e: entities::Entry, feed_id: int) -> RowView {
    RowView {
        feed_id,
        entry_id: e.entry_id@,
        retrieved: e.retrieved,
        fields: stored_fields(e),
    }
}

/// Stored entries as lines of the table; the feed plays no part in what they
/// are handed out as.
pub open spec fn as_rows(es: Seq<entities::Entry>) -> Seq<RowView> {
    es.map_values(|e: entities::Entry| as_row(e, 0))
}

/// The places, counted from zero and ascending, of the stored entries whose
/// URL cannot be read.
pub open spec fn unreadable_places(rows: Seq<RowView>) -> Seq<usize>
    decreases rows.len(),
{
    if rows.len() == 0 {
        Seq::empty()
    } else {
        let before = unreadable_places(rows.drop_last());
        if entry_of(rows.last()) is None {
            before.push((rows.len() - 1) as usize)
        } else {
            before
        }
    }
}

/// What reading stored entries gives.
#[derive(Debug)]
pub struct RowsRead {
    /// The entries, in the order of the stored ones.
    pub entries: Vec<Entry>,
    /// The places, counted from zero, of the stored entries whose URL could
    /// not be read.
    pub malformed: Vec<usize>,
}

/// Turns stored entries into entries. One whose URL cannot be read is left out
/// and its place noted; it does not fail the others. Every entry that comes
/// out has a publication date.
pub fn entries_from_rows(rows: &Vec<entities::Entry>) -> (r: RowsRead)
    ensures
        entry_views(r.entries@) == entries_of(as_rows(rows@)),
        forall|i: int| 0 <= i < r.entries@.len() ==> (#[trigger] r.entries@[i]).pub_date is Some,
        r.malformed@ == unreadable_places(as_rows(rows@)),
        r.entries@.len() + r.malformed@.len() == rows@.len(),
{
    let mut entries: Vec<Entry> = Vec::new();
    let mut malformed: Vec<usize> = Vec::new();
    let mut i: usize = 0;
    while i < rows.len()
        invariant
            i <= rows@.len(),
            entry_views(entries@) == entries_of(as_rows(rows@).take(i as int)),
            forall|k: int| 0 <= k < entries@.len() ==> (#[trigger] entries@[k]).pub_date is Some,
            entries@.len() + malformed@.len() == i,
            malformed@ == unreadable_places(as_rows(rows@).take(i as int)),
        decreases rows@.len() - i,
    {
        let row = &rows[i];
        proof {
            assert(as_rows(rows@).take(i as int + 1).drop_last() =~= as_rows(rows@).take(i as int));
            assert(as_rows(rows@).take(i as int + 1).last() == as_row(rows@[i as int], 0));
        }
        let ghost old_entries = entries@;
        match Url::parse(row.url.as_str()) {
            Some(url) => {
                let pub_date = match row.published {
                    Some(at) => at,
                    None => row.retrieved,
                };
                let entry = Entry {
                    id: row.entry_id.clone(),
                    title: row.title.clone(),
                    description: row.description.clone(),
                    url,
                    author: clone_option(&row.author),
                    pub_date: Some(pub_date),
                };
                entries.push(entry);
                proof {
                    assert(entry_views(entries@) =~= entry_views(old_entries).push(entry@));
                }
            },
            None => {
                malformed.push(i);
            },
        }
        i = i + 1;
    }
    proof {
        assert(as_rows(rows@).take(rows@.len() as int) =~= as_rows(rows@));
    }
    RowsRead { entries, malformed }
}

impl Storage {
    /// A store that holds nothing; the first feed gets the number one.
    pub fn new() -> (r: Storage)
        ensures
            r@ == (Tables { feeds: Seq::empty(), rows: Seq::empty(), next_id: 1 }),
            r@.well_formed(),
    {
        let data = Data::empty();
        proof {
            use_type_invariant(&data);
        }
        Storage { data }
    }

    /// Begins a transaction on what the store holds.
    pub fn begin(&self) -> (tx: Tx)
        ensures
            tx@ == self@,
            tx@.well_formed(),
            tx@.rows.len() <= usize::MAX,
            tx@.feeds.len() <= usize::MAX,
    {
        let data = self.data.duplicate();
        let rows = data.rows.len();
        let feeds = data.feeds.len();
        proof {
            use_type_invariant(&data);
            assert(data.tables().rows.len() == rows);
            assert(data.tables().feeds.len() == feeds);
        }
        Tx { data }
    }
}

impl Tx {
    /// Makes what the transaction did the new content of the store, all of it
    /// at once.
    pub fn commit(self, storage: &mut Storage)
        ensures
            final(storage)@ == self@,
            final(storage)@.well_formed(),
    {
        proof {
            use_type_invariant(&self.data);
        }
        storage.data = self.data;
    }

    /// Stores the entries of the feed `feed_name` at `now`.
    ///
    /// The feed is marked as updated at `now`, and is added first where it is
    /// not there. The entries are stored in their order: one whose id the feed
    /// holds replaces what the held one says and keeps the time it was first
    /// seen; another is added as first seen at `now`. Nothing is stored where
    /// the feed is new and no number is left for it.
    pub fn store_entries(&mut self, feed_name: &str, entries: Vec<Entry>, now: Timestamp) -> (r:
        Result<(), StorageError>)
        ensures
            r is Err <==> feed_position(old(self)@.feeds, feed_name@) == old(self)@.feeds.len()
                && old(self)@.next_id == i64::MAX,
            r is Ok ==> final(self)@ == store(old(self)@, feed_name@, entry_views(entries@), now),
            r is Err ==> final(self)@ == old(self)@,
            final(self)@.well_formed(),
    {
        proof {
            use_type_invariant(&self.data);
        }
        let ghost before = self.data.tables();
        let p = find_feed(&self.data.feeds, feed_name);
        if p == self.data.feeds.len() && self.data.next_id == i64::MAX {
            return Err(StorageError::Full);
        }
        let mut data = Data::empty();
        core::mem::swap(&mut self.data, &mut data);
        let Data { feeds: mut feeds, rows: mut rows, next_id: mut next_id } = data;
        let ghost old_feeds = feed_views(feeds@);
        let feed_id: i64;
        if p < feeds.len() {
            feed_id = feeds[p].id;
            let name = feeds[p].name.clone();
            feeds.set(p, Feed { id: feed_id, name, last_updated: now });
            proof {
                assert(feed_views(feeds@) =~= old_feeds.update(
                    p as int,
                    FeedView { last_updated: now, ..old_feeds[p as int] },
                ));
            }
        } else {
            feed_id = next_id;
            feeds.push(Feed { id: feed_id, name: String::from_str(feed_name), last_updated: now });
            next_id = next_id + 1;
            proof {
                assert(feed_views(feeds@) =~= old_feeds.push(
                    FeedView { id: feed_id as int, name: feed_name@, last_updated: now },
                ));
            }
        }
        let ghost es = entry_views(entries@);
        let mut i: usize = 0;
        while i < entries.len()
            invariant
                i <= entries@.len(),
                es == entry_views(entries@),
                row_views(rows@) == store_rows(before.rows, feed_id as int, es.take(i as int), now),
            decreases entries@.len() - i,
        {
            proof {
                assert(es.take(i as int + 1).drop_last() =~= es.take(i as int));
                assert(es.take(i as int + 1).last() == entries@[i as int]@);
            }
            upsert(&mut rows, feed_id, &entries[i], now);
            i = i + 1;
        }
        proof {
            assert(es.take(entries@.len() as int) =~= es);
            lemma_store_well_formed(before, feed_name@, es, now);
        }
        self.data = Data { feeds, rows, next_id };
        Ok(())
    }

    /// When entries were last stored for the feed `feed_name`; `None` where the
    /// feed is not there.
    pub fn get_feed_last_updated(&self, feed_name: &str) -> (r: Option<Timestamp>)
        ensures
            r == (if feed_position(self@.feeds, feed_name@) < self@.feeds.len() {
                Some(self@.feeds[feed_position(self@.feeds, feed_name@)].last_updated)
            } else {
                None
            }),
    {
        let p = find_feed(&self.data.feeds, feed_name);
        if p < self.data.feeds.len() {
            Some(self.data.feeds[p].last_updated)
        } else {
            None
        }
    }

    /// Counts the entries of the feed `feed_id`.
    fn count(&self, feed_id: i64) -> (n: usize)
        ensures
            n == count_rows(self@.rows, feed_id as int),
    {
        let mut n: usize = 0;
        let mut i: usize = 0;
        while i < self.data.rows.len()
            invariant
                i <= self.data.rows@.len(),
                n <= i,
                n == count_rows(row_views(self.data.rows@).take(i as int), feed_id as int),
            decreases self.data.rows@.len() - i,
        {
            proof {
                assert(row_views(self.data.rows@).take(i as int + 1).drop_last() =~= row_views(
                    self.data.rows@,
                ).take(i as int));
            }
            if self.data.rows[i].feed_id == feed_id {
                n = n + 1;
            }
            i = i + 1;
        }
        proof {
            assert(row_views(self.data.rows@).take(self.data.rows@.len() as int) =~= row_views(
                self.data.rows@,
            ));
        }
        n
    }

    /// The feeds in the order of their numbers, each with its name, the time of
    /// its last update and the number of its entries, which is zero for a feed
    /// without entries.
    pub fn get_feeds(&self) -> (r: Vec<FeedInfo>)
        ensures
            r@.len() == self@.feeds.len(),
            forall|i: int|
                0 <= i < r@.len() ==> tells_of(#[trigger] r@[i], self@.feeds[i], self@.rows),
    {
        let mut result: Vec<FeedInfo> = Vec::new();
        let mut i: usize = 0;
        while i < self.data.feeds.len()
            invariant
                i <= self.data.feeds@.len(),
                result@.len() == i,
                forall|k: int|
                    0 <= k < i ==> tells_of(#[trigger] result@[k], self@.feeds[k], self@.rows),
            decreases self.data.feeds@.len() - i,
        {
            let feed = &self.data.feeds[i];
            let entry_count = self.count(feed.id);
            result.push(
                FeedInfo { name: feed.name.clone(), last_updated: feed.last_updated, entry_count },
            );
            i = i + 1;
        }
        result
    }

    /// At most `count` entries of the feed `feed_name`: those first seen last,
    /// newest first. None where the feed is not there. An entry whose stored
    /// URL cannot be read is left out. Every entry has a publication date: its
    /// own, or the time it was first seen.
    pub fn get_feed_entries(&self, feed_name: &str, count: usize) -> (r: Vec<Entry>)
        ensures
            entry_views(r@) == (if feed_position(self@.feeds, feed_name@) < self@.feeds.len() {
                entries_of(
                    newest_rows(
                        self@.rows,
                        self@.feeds[feed_position(self@.feeds, feed_name@)].id,
                        count as int,
                    ),
                )
            } else {
                Seq::empty()
            }),
            forall|i: int| 0 <= i < r@.len() ==> (#[trigger] r@[i]).pub_date is Some,
    {
        let p = find_feed(&self.data.feeds, feed_name);
        if p == self.data.feeds.len() {
            let none: Vec<Entry> = Vec::new();
            assert(entry_views(none@) =~= Seq::<EntryView>::empty());
            return none;
        }
        let feed_id = self.data.feeds[p].id;
        let ghost rows = row_views(self.data.rows@);
        let mut places: Vec<usize> = Vec::new();
        let mut times: Vec<Timestamp> = Vec::new();
        let mut i: usize = 0;
        while i < self.data.rows.len()
            invariant
                i <= self.data.rows@.len(),
                rows == row_views(self.data.rows@),
                places@.len() == times@.len(),
                places@.map_values(|p: usize| p as int) == places_of(
                    rows.take(i as int),
                    feed_id as int,
                ),
                forall|k: int| 0 <= k < places@.len() ==> (#[trigger] places@[k]) < i,
                forall|k: int|
                    0 <= k < places@.len() ==> (#[trigger] times@[k]) == rows[places@[k] as int].retrieved,
                forall|k: int|
                    0 <= k < places@.len() ==> rows[(#[trigger] places@[k]) as int].feed_id == feed_id,
            decreases self.data.rows@.len() - i,
        {
            proof {
                assert(rows.take(i as int + 1).drop_last() =~= rows.take(i as int));
            }
            if self.data.rows[i].feed_id == feed_id {
                let ghost old_places = places@;
                places.push(i);
                times.push(self.data.rows[i].entry.retrieved);
                proof {
                    assert(places@.map_values(|p: usize| p as int) =~= old_places.map_values(
                        |p: usize| p as int,
                    ).push(i as int));
                }
            }
            i = i + 1;
        }
        proof {
            assert(rows.take(self.data.rows@.len() as int) =~= rows);
        }
        let order = newest_first(&times);
        let ghost spec_places = places_of(rows, feed_id as int);
        proof {
            assert(instants(times@) =~= spec_places.map_values(
                |p: int| rows[p].retrieved.instant(),
            ));
        }
        let n = if count < order.len() {
            count
        } else {
            order.len()
        };
        let mut chosen: Vec<entities::Entry> = Vec::new();
        let mut j: usize = 0;
        while j < n
            invariant
                j <= n,
                n <= order@.len(),
                order@.len() == places@.len(),
                forall|k: int| 0 <= k < order@.len() ==> (#[trigger] order@[k]) < places@.len(),
                forall|k: int| 0 <= k < places@.len() ==> (#[trigger] places@[k]) < self.data.rows@.len(),
                forall|k: int|
                    0 <= k < places@.len() ==> rows[(#[trigger] places@[k]) as int].feed_id == feed_id,
                rows == row_views(self.data.rows@),
                chosen@.len() == j,
                forall|k: int|
                    0 <= k < j ==> as_row(#[trigger] chosen@[k], feed_id as int)
                        == rows[places@[order@[k] as int] as int],
            decreases n - j,
        {
            let row = &self.data.rows[places[order[j]]];
            chosen.push(duplicate_stored(&row.entry));
            j = j + 1;
        }
        let read = entries_from_rows(&chosen);
        proof {
            let wanted = newest_rows(rows, feed_id as int, count as int);
            assert(wanted.len() == n);
            assert forall|k: int| 0 <= k < n implies as_row(#[trigger] chosen@[k], feed_id as int)
                == wanted[k] by {
                assert(spec_places[order@[k] as int] == places@[order@[k] as int] as int);
            }
            lemma_entries_ignore_feed(chosen@, feed_id as int, wanted);
        }
        read.entries
    }
}

/// What stored entries are handed out as does not depend on their feed.
proof fn lemma_entries_ignore_feed(es: Seq<entities::Entry>, feed_id: int, rows: Seq<RowView>)
    requires
        rows.len() == es.len(),
        forall|k: int| 0 <= k < es.len() ==> as_row(#[trigger] es[k], feed_id) == rows[k],
    ensures
        entries_of(as_rows(es)) == entries_of(rows),
    decreases es.len(),
{
    if es.len() > 0 {
        assert(as_rows(es).drop_last() =~= as_rows(es.drop_last()));
        assert forall|k: int| 0 <= k < es.drop_last().len() implies as_row(
            #[trigger] es.drop_last()[k],
            feed_id,
        ) == rows.drop_last()[k] by {
            assert(es.drop_last()[k] == es[k]);
        }
        lemma_entries_ignore_feed(es.drop_last(), feed_id, rows.drop_last());
        assert(as_row(es[es.len() - 1], feed_id) == rows[es.len() - 1]);
        assert(as_rows(es).last() == as_row(es.last(), 0));
    }
}

/// The number of entries counted for the feed `feed_id`: that of the first
/// count for it, zero where there is none.
pub open spec fn count_for(counts: Seq<FeedCount>, feed_id: int) -> nat
    decreases counts.len(),
{
    if counts.len() == 0 {
        0
    } else if counts[0].feed_id == feed_id {
        counts[0].entry_count as nat
    } else {
        count_for(counts.drop_first(), feed_id)
    }
}

/// Whether the feeds stand in the order of their numbers.
pub open spec fn feeds_ascend(feeds: Seq<Feed>) -> bool {
    forall|i: int, j: int|
        0 <= i < j < feeds.len() ==> (#[trigger] feeds[i]).id < (#[trigger] feeds[j]).id
}

/// Whether the counts stand in the order of the numbers of their feeds.
pub open spec fn counts_ascend(counts: Seq<FeedCount>) -> bool {
    forall|i: int, j: int|
        0 <= i < j < counts.len() ==> (#[trigger] counts[i]).feed_id < (#[trigger] counts[j]).feed_id
}

proof fn lemma_count_for(counts: Seq<FeedCount>, feed_id: int, c: int)
    requires
        0 <= c <= counts.len(),
        forall|j: int| 0 <= j < c ==> (#[trigger] counts[j]).feed_id != feed_id,
        c < counts.len() ==> counts[c].feed_id == feed_id,
    ensures
        count_for(counts, feed_id) == (if c < counts.len() {
            counts[c].entry_count as nat
        } else {
            0
        }),
    decreases counts.len(),
{
    if counts.len() > 0 && c > 0 {
        let rest = counts.drop_first();
        assert forall|j: int| 0 <= j < c - 1 implies (#[trigger] rest[j]).feed_id != feed_id by {
            assert(rest[j] == counts[j + 1]);
        }
        if c < counts.len() {
            assert(rest[c - 1] == counts[c]);
        }
        lemma_count_for(rest, feed_id, c - 1);
    }
}

/// Joins the feeds with the counts of their entries in one pass over both,
/// which must stand in the order of the numbers of the feeds. A feed without
/// a count has no entries.
pub fn merge_feed_counts(feeds: &Vec<Feed>, counts: &Vec<FeedCount>) -> (r: Vec<FeedInfo>)
    requires
        feeds_ascend(feeds@),
        counts_ascend(counts@),
    ensures
        r@.len() == feeds@.len(),
        forall|i: int|
            0 <= i < r@.len() ==> (#[trigger] r@[i]).name@ == feeds@[i].name@ && r@[i].last_updated
                == feeds@[i].last_updated && r@[i].entry_count == count_for(
                counts@,
                feeds@[i].id as int,
            ),
{
    let mut result: Vec<FeedInfo> = Vec::new();
    let mut c: usize = 0;
    let mut i: usize = 0;
    while i < feeds.len()
        invariant
            i <= feeds@.len(),
            c <= counts@.len(),
            feeds_ascend(feeds@),
            counts_ascend(counts@),
            result@.len() == i,
            forall|j: int, k: int|
                0 <= j < c && i <= k < feeds@.len() ==> (#[trigger] counts@[j]).feed_id
                    < (#[trigger] feeds@[k]).id,
            forall|k: int|
                0 <= k < i ==> (#[trigger] result@[k]).name@ == feeds@[k].name@
                    && result@[k].last_updated == feeds@[k].last_updated && result@[k].entry_count
                    == count_for(counts@, feeds@[k].id as int),
        decreases feeds@.len() - i,
    {
        let feed = &feeds[i];
        while c < counts.len() && counts[c].feed_id < feed.id
            invariant
                c <= counts@.len(),
                i < feeds@.len(),
                feed == &feeds@[i as int],
                feeds_ascend(feeds@),
                forall|j: int, k: int|
                    0 <= j < c && i <= k < feeds@.len() ==> (#[trigger] counts@[j]).feed_id
                        < (#[trigger] feeds@[k]).id,
            decreases counts@.len() - c,
        {
            proof {
                assert forall|k: int| i <= k < feeds@.len() implies counts@[c as int].feed_id
                    < (#[trigger] feeds@[k]).id by {
                    if k > i {
                        assert(feeds@[i as int].id < feeds@[k].id);
                    }
                }
            }
            c = c + 1;
        }
        let entry_count = if c < counts.len() && counts[c].feed_id == feed.id {
            counts[c].entry_count
        } else {
            0
        };
        proof {
            let id = feed.id as int;
            assert forall|j: int| 0 <= j < c implies (#[trigger] counts@[j]).feed_id != id by {
                assert(counts@[j].feed_id < feeds@[i as int].id);
            }
            if c < counts@.len() && counts@[c as int].feed_id == feed.id {
                lemma_count_for(counts@, id, c as int);
            } else {
                assert forall|j: int| 0 <= j < counts@.len() implies (#[trigger] counts@[j]).feed_id
                    != id by {
                    if j >= c {
                        if j > c {
                            assert(counts@[c as int].feed_id < counts@[j].feed_id);
                        }
                    } else {
                        assert(counts@[j].feed_id < feeds@[i as int].id);
                    }
                }
                lemma_count_for(counts@, id, counts@.len() as int);
            }
        }
        if c < counts.len() && counts[c].feed_id == feed.id {
            proof {
                assert forall|k: int| i + 1 <= k < feeds@.len() implies counts@[c as int].feed_id
                    < (#[trigger] feeds@[k]).id by {
                    assert(feeds@[i as int].id < feeds@[k].id);
                }
            }
            c = c + 1;
        }
        result.push(
            FeedInfo { name: feed.name.clone(), last_updated: feed.last_updated, entry_count },
        );
        i = i + 1;
    }
    result
}

} // verus!
