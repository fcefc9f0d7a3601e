//! Verified core of a service that turns HTML pages into RSS feeds.
//!
//! For each configured feed the service fetches a page from time to time, finds
//! the entries on it, keeps them, and serves them as an RSS channel. This crate
//! holds what the service decides and computes, on plain values: the tree that
//! a page is parsed into and the entries that XPath expressions or a script
//! find on it, the store that merges what is found into what was found before,
//! the schedule of the fetches, and what the HTTP endpoints answer. Fetching,
//! listening, the database file and the virtual machine of the scripts are the
//! business of the program around it.

pub mod cli;
pub mod config;
pub mod document;
pub mod dom;
pub mod extractor;
pub mod fetch;
pub mod names;
pub mod order;
pub mod server;
pub mod state;
pub mod storage;
pub mod template;
pub mod timestamp;
pub mod url;
pub mod xpath;
