use feedgen::extractor::Entry;
use feedgen::storage::entities::{Entry as StoredEntry, Feed, FeedCount};
use feedgen::storage::{entries_from_rows, merge_feed_counts, Storage, StorageError, Tx};
use feedgen::timestamp::Timestamp;
use feedgen::url::Url;

fn at(seconds: i64) -> Timestamp {
    Timestamp::from_unix_seconds(seconds)
}

fn entry(id: &str, title: &str) -> Entry {
    Entry {
        id: id.to_string(),
        title: title.to_string(),
        description: format!("about {title}"),
        url: Url::parse(&format!("https://ex.test/{id}")).unwrap(),
        author: None,
        pub_date: None,
    }
}

fn shown(tx: &Tx, feed: &str) -> Vec<(String, String, i64)> {
    tx.get_feed_entries(feed, 100)
        .into_iter()
        .map(|e| (e.id, e.title, e.pub_date.unwrap().seconds()))
        .collect()
}

fn triple(id: &str, title: &str, seconds: i64) -> (String, String, i64) {
    (id.to_string(), title.to_string(), seconds)
}

#[test]
fn upsert_changes_title_preserves_retrieved() {
    let mut storage = Storage::new();
    let mut tx = storage.begin();
    tx.store_entries("f", vec![entry("x", "T1")], at(100)).unwrap();
    tx.commit(&mut storage);
    let mut tx = storage.begin();
    tx.store_entries("f", vec![entry("x", "T2")], at(200)).unwrap();
    tx.commit(&mut storage);
    let tx = storage.begin();
    assert_eq!(shown(&tx, "f"), vec![triple("x", "T2", 100)]);
    assert_eq!(tx.get_feed_last_updated("f"), Some(at(200)));
    let feeds = tx.get_feeds();
    assert_eq!(feeds.len(), 1);
    assert_eq!((feeds[0].name.as_str(), feeds[0].last_updated, feeds[0].entry_count), ("f", at(200), 1));
}

#[test]
fn storing_twice_changes_nothing_but_the_last_update() {
    let entries = || vec![entry("a", "A"), entry("b", "B"), entry("a", "A again"), entry("c", "C")];
    let mut storage = Storage::new();
    let mut tx = storage.begin();
    tx.store_entries("other", vec![entry("a", "theirs")], at(50)).unwrap();
    tx.store_entries("f", entries(), at(100)).unwrap();
    let once = format!("{:?}", tx.get_feed_entries("f", 100));
    let others = format!("{:?}", tx.get_feed_entries("other", 100));
    assert_eq!(tx.get_feed_entries("f", 100).len(), 3);
    tx.store_entries("f", entries(), at(200)).unwrap();
    assert_eq!(format!("{:?}", tx.get_feed_entries("f", 100)), once);
    assert_eq!(format!("{:?}", tx.get_feed_entries("other", 100)), others);
    assert_eq!(tx.get_feed_last_updated("f"), Some(at(200)));
    assert_eq!(tx.get_feed_last_updated("other"), Some(at(50)));
    tx.commit(&mut storage);
    let tx = storage.begin();
    assert_eq!(
        shown(&tx, "f"),
        vec![triple("a", "A again", 100), triple("b", "B", 100), triple("c", "C", 100)]
    );
}

#[test]
fn the_last_update_follows_the_clock_and_first_sight_stays() {
    let mut storage = Storage::new();
    let mut tx = storage.begin();
    tx.store_entries("f", vec![entry("old", "O")], at(100)).unwrap();
    tx.store_entries("f", vec![entry("new", "N"), entry("old", "O2")], at(300)).unwrap();
    tx.commit(&mut storage);
    let tx = storage.begin();
    assert_eq!(tx.get_feed_last_updated("f"), Some(at(300)));
    assert_eq!(shown(&tx, "f"), vec![triple("new", "N", 300), triple("old", "O2", 100)]);
}

#[test]
fn a_transaction_that_is_not_committed_leaves_no_trace() {
    let mut storage = Storage::new();
    let mut tx = storage.begin();
    tx.store_entries("f", vec![entry("x", "T")], at(100)).unwrap();
    assert_eq!(tx.get_feeds().len(), 1);
    let other = storage.begin();
    assert!(other.get_feeds().is_empty());
    assert_eq!(other.get_feed_last_updated("f"), None);
    assert!(other.get_feed_entries("f", 100).is_empty());
    tx.commit(&mut storage);
    assert_eq!(storage.begin().get_feeds().len(), 1);
}

#[test]
fn feeds_are_listed_in_the_order_they_were_first_stored() {
    let mut storage = Storage::new();
    let mut tx = storage.begin();
    tx.store_entries("zebra", vec![entry("1", "a"), entry("2", "b")], at(10)).unwrap();
    tx.store_entries("apple", vec![], at(20)).unwrap();
    tx.store_entries("mango", vec![entry("1", "c")], at(30)).unwrap();
    tx.store_entries("zebra", vec![entry("3", "d")], at(40)).unwrap();
    tx.commit(&mut storage);
    let feeds: Vec<(String, i64, usize)> = storage
        .begin()
        .get_feeds()
        .into_iter()
        .map(|f| (f.name, f.last_updated.seconds(), f.entry_count))
        .collect();
    assert_eq!(
        feeds,
        vec![("zebra".to_string(), 40, 3), ("apple".to_string(), 20, 0), ("mango".to_string(), 30, 1)]
    );
}

#[test]
fn entries_come_newest_first_and_at_most_as_many_as_asked() {
    let mut storage = Storage::new();
    let mut tx = storage.begin();
    tx.store_entries("f", vec![entry("a", "A"), entry("b", "B")], at(100)).unwrap();
    tx.store_entries("g", vec![entry("z", "Z")], at(150)).unwrap();
    tx.store_entries("f", vec![entry("c", "C")], at(200)).unwrap();
    tx.store_entries("f", vec![entry("d", "D"), entry("a", "A2")], at(300)).unwrap();
    tx.commit(&mut storage);
    let tx = storage.begin();
    let ids = |count: usize| -> Vec<String> { tx.get_feed_entries("f", count).into_iter().map(|e| e.id).collect() };
    assert_eq!(ids(100), vec!["d", "c", "a", "b"]);
    assert_eq!(ids(4), vec!["d", "c", "a", "b"]);
    assert_eq!(ids(3), vec!["d", "c", "a"]);
    assert_eq!(ids(1), vec!["d"]);
    assert_eq!(ids(0), Vec::<String>::new());
    assert!(tx.get_feed_entries("missing", 100).is_empty());
}

#[test]
fn the_publication_date_is_its_own_or_the_first_sight() {
    let mut dated = entry("p", "P");
    dated.pub_date = Timestamp::new(5, 7, 3600);
    dated.author = Some("Ann".to_string());
    let mut storage = Storage::new();
    let mut tx = storage.begin();
    tx.store_entries("f", vec![dated, entry("q", "Q")], at(100)).unwrap();
    tx.commit(&mut storage);
    let entries = storage.begin().get_feed_entries("f", 100);
    assert_eq!(entries[0].pub_date, Timestamp::new(5, 7, 3600));
    assert_eq!(entries[0].author.as_deref(), Some("Ann"));
    assert_eq!(entries[0].url.as_str(), "https://ex.test/p");
    assert_eq!(entries[0].description, "about P");
    assert_eq!(entries[1].pub_date, Some(at(100)));
    assert_eq!(entries[1].author, None);
}

fn stored(id: &str, url: &str, retrieved: i64, published: Option<i64>) -> StoredEntry {
    StoredEntry {
        retrieved: at(retrieved),
        entry_id: id.to_string(),
        title: "T".to_string(),
        description: "D".to_string(),
        url: url.to_string(),
        author: Some("A".to_string()),
        published: published.map(at),
    }
}

#[test]
fn a_malformed_stored_url_skips_the_entry_only() {
    let rows = vec![
        stored("a", "https://ex.test/a", 10, Some(5)),
        stored("b", "not a url", 20, None),
        stored("c", "HTTPS://EX.test", 30, None),
    ];
    let read = entries_from_rows(&rows);
    assert_eq!(read.malformed, vec![1]);
    let mut more = rows;
    more.push(stored("d", "", 40, None));
    more.push(stored("e", "https://ex.test/e", 50, None));
    more.push(stored("f", "/relative", 60, None));
    assert_eq!(entries_from_rows(&more).malformed, vec![1, 3, 5]);
    let rows = vec![
        stored("a", "https://ex.test/a", 10, Some(5)),
        stored("b", "not a url", 20, None),
        stored("c", "HTTPS://EX.test", 30, None),
    ];
    let read = entries_from_rows(&rows);
    let seen: Vec<(&str, &str, i64)> = read
        .entries
        .iter()
        .map(|e| (e.id.as_str(), e.url.as_str(), e.pub_date.unwrap().seconds()))
        .collect();
    assert_eq!(seen, vec![("a", "https://ex.test/a", 5), ("c", "https://ex.test/", 30)]);
    assert_eq!(read.entries[0].author.as_deref(), Some("A"));
}

fn feed(id: i64, name: &str) -> Feed {
    Feed { id, name: name.to_string(), last_updated: at(id * 10) }
}

#[test]
fn counts_are_merged_with_feeds_in_one_pass() {
    let feeds = vec![feed(1, "a"), feed(3, "b"), feed(4, "c"), feed(9, "d")];
    let counts = vec![
        FeedCount { feed_id: 2, entry_count: 22 },
        FeedCount { feed_id: 3, entry_count: 33 },
        FeedCount { feed_id: 9, entry_count: 99 },
        FeedCount { feed_id: 10, entry_count: 100 },
    ];
    let merged: Vec<(String, i64, usize)> = merge_feed_counts(&feeds, &counts)
        .into_iter()
        .map(|f| (f.name, f.last_updated.seconds(), f.entry_count))
        .collect();
    assert_eq!(
        merged,
        vec![
            ("a".to_string(), 10, 0),
            ("b".to_string(), 30, 33),
            ("c".to_string(), 40, 0),
            ("d".to_string(), 90, 99)
        ]
    );
    assert!(merge_feed_counts(&vec![], &counts).is_empty());
    assert_eq!(merge_feed_counts(&feeds, &vec![])[1].entry_count, 0);
}

#[test]
fn the_store_reports_no_error_while_numbers_last() {
    let mut storage = Storage::new();
    let mut tx = storage.begin();
    for i in 0..20 {
        assert_eq!(tx.store_entries(&format!("feed{i}"), vec![], at(i)), Ok::<(), StorageError>(()));
    }
    tx.commit(&mut storage);
    assert_eq!(storage.begin().get_feeds().len(), 20);
}
