use feedgen::config::types::Duration;
use feedgen::extractor::Entry;
use feedgen::names::NameMap;
use feedgen::server::responses::{convert_errors, FeedCannotBeUpdated};
use feedgen::server::routes::{
    find_feed, get_feed, index, percent_encode, update_feed, IndexError, UpdateOutcome,
    MAX_FEED_ENTRY_COUNT,
};
use feedgen::state::Feed;
use feedgen::storage::entities::FeedInfo;
use feedgen::timestamp::Timestamp;
use feedgen::url::Url;

fn feed(url: &str, enabled: bool) -> Feed {
    Feed { request_url: Url::parse(url).unwrap(), fetch_interval: Duration::from_secs(60), enabled }
}

fn feeds() -> NameMap<Feed> {
    let mut feeds = NameMap::new();
    feeds.insert("news".to_string(), feed("https://news.test/", true));
    feeds.insert("my feed/ü".to_string(), feed("https://blog.test/posts", true));
    feeds.insert("archive".to_string(), feed("https://old.test/a?b=c", false));
    feeds
}

#[test]
fn the_index_lists_the_feeds_by_name() {
    let stored = vec![
        FeedInfo {
            name: "news".to_string(),
            last_updated: Timestamp::new(1_700_000_000, 123_456_789, 3600).unwrap(),
            entry_count: 17,
        },
        FeedInfo { name: "gone".to_string(), last_updated: Timestamp::from_unix_seconds(0), entry_count: 3 },
    ];
    let lines = index(&feeds(), &stored).unwrap();
    let seen: Vec<(&str, &str, usize, &str, &str)> = lines
        .iter()
        .map(|l| (l.name.as_str(), l.last_updated.as_str(), l.entry_count, l.rss_url.as_str(), l.fetch_url.as_str()))
        .collect();
    assert_eq!(
        seen,
        vec![
            ("archive", "never", 0, "/feeds/archive", "https://old.test/a?b=c"),
            ("my feed/ü", "never", 0, "/feeds/my%20feed%2F%C3%BC", "https://blog.test/posts"),
            ("news", "2023-11-14 23:13:20.123 +01:00", 17, "/feeds/news", "https://news.test/"),
        ]
    );
}

#[test]
fn names_are_percent_encoded_in_addresses() {
    let mut feeds = NameMap::new();
    feeds.insert("AZaz09-._~".to_string(), feed("https://a.test/", true));
    feeds.insert(" !\"#%&+,/:;=?@[]".to_string(), feed("https://b.test/", true));
    let lines = index(&feeds, &vec![]).unwrap();
    assert_eq!(lines[0].rss_url, "/feeds/%20%21%22%23%25%26%2B%2C%2F%3A%3B%3D%3F%40%5B%5D");
    assert_eq!(lines[1].rss_url, "/feeds/AZaz09-._~");
}

#[test]
fn the_index_fails_on_a_date_that_cannot_be_written() {
    let stored = vec![FeedInfo {
        name: "news".to_string(),
        last_updated: Timestamp::from_unix_seconds(i64::MAX),
        entry_count: 1,
    }];
    assert_eq!(index(&feeds(), &stored).unwrap_err(), IndexError { feed: 2 });
}

fn entry(id: &str, seconds: i64) -> Entry {
    Entry {
        id: id.to_string(),
        title: format!("title {id}"),
        description: format!("about {id}"),
        url: Url::parse(&format!("https://news.test/{id}")).unwrap(),
        author: if id == "a" { Some("Ann".to_string()) } else { None },
        pub_date: Some(Timestamp::new(seconds, 0, 3600).unwrap()),
    }
}

#[test]
fn a_channel_holds_the_entries_newest_first() {
    let entries = vec![entry("a", 1_700_000_000), entry("b", 1_700_000_500), entry("c", 1_700_000_000)];
    let now = Timestamp::from_unix_seconds(1_704_067_200);
    let channel = get_feed("news", &feed("https://news.test/", true), &entries, &now, "1.2.3");
    assert_eq!(channel.title, "news");
    assert_eq!(channel.link, "https://news.test/");
    assert_eq!(channel.generator, "Feedgen 1.2.3");
    assert_eq!(channel.last_build_date.as_deref(), Some("Mon, 01 Jan 2024 00:00:00 +0000"));
    let guids: Vec<&str> = channel.items.iter().map(|i| i.guid.as_str()).collect();
    assert_eq!(guids, vec!["feedgen/news/b", "feedgen/news/a", "feedgen/news/c"]);
    let first = &channel.items[1];
    assert_eq!(first.title, "title a");
    assert_eq!(first.link, "https://news.test/a");
    assert_eq!(first.description, "about a");
    assert_eq!(first.author.as_deref(), Some("Ann"));
    assert_eq!(first.pub_date.as_deref(), Some("Tue, 14 Nov 2023 23:13:20 +0100"));
    assert_eq!(channel.items[0].author, None);
    assert_eq!(MAX_FEED_ENTRY_COUNT, 100);
}

#[test]
fn a_date_that_cannot_be_written_is_left_out_of_the_channel() {
    let entries = vec![entry("a", i64::MAX)];
    let now = Timestamp::from_unix_seconds(i64::MIN);
    let channel = get_feed("news", &feed("https://news.test/", true), &entries, &now, "0");
    assert_eq!(channel.last_build_date, None);
    assert_eq!(channel.items[0].pub_date, None);
    assert!(get_feed("news", &feed("https://news.test/", true), &vec![], &now, "0").items.is_empty());
}

#[test]
fn only_enabled_feeds_can_be_updated_at_once() {
    let feeds = feeds();
    let outcome = update_feed(&feeds, "news".to_string());
    assert!(matches!(outcome, UpdateOutcome::Accepted));
    assert_eq!(outcome.status(), 204);
    let outcome = update_feed(&feeds, "missing".to_string());
    assert!(matches!(outcome, UpdateOutcome::Unknown));
    assert_eq!(outcome.status(), 404);
    let outcome = update_feed(&feeds, "archive".to_string());
    assert_eq!(outcome.status(), 403);
    match outcome {
        UpdateOutcome::Disabled(refusal) => {
            assert_eq!(refusal.name, "archive");
            assert_eq!(refusal.message(), "Updates for the feed `archive` were disabled in the config");
        }
        other => panic!("{other:?}"),
    }
}

#[test]
fn the_refusal_names_the_feed() {
    let refusal = FeedCannotBeUpdated { name: "a`b".to_string() };
    assert_eq!(refusal.status(), 403);
    assert_eq!(refusal.message(), "Updates for the feed `a`b` were disabled in the config");
}

#[test]
fn a_channel_is_written_as_rss() {
    let entries = vec![entry("a", 1_700_000_000), entry("b", 1_700_000_500)];
    let now = Timestamp::from_unix_seconds(1_704_067_200);
    let channel = get_feed("news & more", &feed("https://news.test/?a=1&b=2", true), &entries, &now, "1.2.3");
    let text = channel.to_rss();
    assert!(text.contains("<rss version=\"2.0\""), "{text}");
    assert!(text.contains("<title>news &amp; more</title>"), "{text}");
    assert!(text.contains("<link>https://news.test/?a=1&amp;b=2</link>"), "{text}");
    assert!(text.contains("<generator>Feedgen 1.2.3</generator>"), "{text}");
    assert!(text.contains("<lastBuildDate>Mon, 01 Jan 2024 00:00:00 +0000</lastBuildDate>"), "{text}");
    assert!(text.contains("<guid isPermaLink=\"false\">feedgen/news &amp; more/b</guid>"), "{text}");
    assert!(text.contains("<pubDate>Tue, 14 Nov 2023 23:13:20 +0100</pubDate>"), "{text}");
    assert!(text.contains("<author>Ann</author>"), "{text}");
    assert!(text.contains("<description><![CDATA[about a]]></description>"), "{text}");
    let b = text.find("feedgen/news &amp; more/b").unwrap();
    let a = text.find("feedgen/news &amp; more/a").unwrap();
    assert!(b < a);
    assert_eq!(text.matches("<item>").count(), 2);
}

#[test]
fn failures_are_answered_as_server_errors() {
    assert_eq!(convert_errors(&Ok::<u8, &str>(1)), 200);
    assert_eq!(convert_errors(&Err::<u8, &str>("broken")), 500);
}

#[test]
fn a_channel_is_found_for_a_configured_feed_only() {
    let feeds = feeds();
    assert_eq!(find_feed(&feeds, "news").unwrap().request_url.as_str(), "https://news.test/");
    assert!(find_feed(&feeds, "archive").is_ok());
    assert_eq!(find_feed(&feeds, "missing").unwrap_err(), 404);
    assert_eq!(find_feed(&feeds, "").unwrap_err(), 404);
}

#[test]
fn a_channel_shows_no_more_than_the_most_recent_hundred() {
    let entries: Vec<Entry> = (0..150).map(|i| entry(&format!("e{i}"), 1_700_000_000 + i)).collect();
    let now = Timestamp::from_unix_seconds(1_704_067_200);
    let channel = get_feed("news", &feed("https://news.test/", true), &entries, &now, "0");
    assert_eq!(channel.items.len(), 100);
    assert_eq!(channel.items[0].guid, "feedgen/news/e149");
    assert_eq!(channel.items[99].guid, "feedgen/news/e50");
    let exactly: Vec<Entry> = (0..100).map(|i| entry(&format!("e{i}"), 1_700_000_000 + i)).collect();
    assert_eq!(get_feed("news", &feed("https://news.test/", true), &exactly, &now, "0").items.len(), 100);
}

#[test]
fn a_name_is_percent_encoded_byte_by_byte() {
    assert_eq!(percent_encode(""), "");
    assert_eq!(percent_encode("AZaz09-._~"), "AZaz09-._~");
    assert_eq!(percent_encode("my feed/ü"), "my%20feed%2F%C3%BC");
    assert_eq!(percent_encode("a+b=c&d%e"), "a%2Bb%3Dc%26d%25e");
    assert_eq!(percent_encode("\u{0}\u{7f}@[`{"), "%00%7F%40%5B%60%7B");
    assert_eq!(percent_encode("日本"), "%E6%97%A5%E6%9C%AC");
    let every: String = (0u32..0x250).filter_map(char::from_u32).collect();
    assert_eq!(percent_encode(&every), urlencoding::encode(&every));
    for text in ["news", "a b", "/", "~user/feed.xml", "100%", "\u{1F600} smile", "tab\there"] {
        assert_eq!(percent_encode(text), urlencoding::encode(text));
    }
}
