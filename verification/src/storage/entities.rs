//! The records that the store keeps and hands out.

use vstd::prelude::*;

use crate::timestamp::Timestamp;

verus! {

/// A feed as the store keeps it.
#[derive(Debug)]
pub struct Feed {
    pub id: i64,
    pub name: String,
    /// When entries were last written for the feed.
    pub last_updated: Timestamp,
}

/// An entry as the store keeps it, without the feed it belongs to.
#[derive(Debug)]
pub struct Entry {
    /// When the entry was first seen.
    pub retrieved: Timestamp,
    pub entry_id: String,
    pub title: String,
    pub description: String,
    pub url: String,
    pub author: Option<String>,
    pub published: Option<Timestamp>,
}

/// What the store tells about a feed.
#[derive(Debug)]
pub struct FeedInfo {
    pub name: String,
    pub last_updated: Timestamp,
    pub entry_count: usize,
}

/// The number of entries that the store counted for a feed.
#[derive(Debug, Clone, Copy, PartialEq, Eq, Structural)]
pub struct FeedCount {
    pub feed_id: i64,
    pub entry_count: usize,
}

} // verus!
