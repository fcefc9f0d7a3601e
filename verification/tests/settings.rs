use feedgen::cli::{exit_code, Args};
use feedgen::extractor::lua::types::Buffer;
use feedgen::extractor::lua::{make_vm, StdLibrary, API_TABLE, EXTRACT_FUNCTION};
use feedgen::config::types::Duration;
use feedgen::config::{
    default_feed_enabled, default_fetch_interval, default_max_initial_fetch_sleep, join_path, Config,
    ExtractorConfig, Feed, LuaExtractorConfig,
};
use feedgen::state::{make_feeds, State};
use feedgen::template::Template;
use feedgen::url::Url;
use feedgen::xpath::{applies, is_ordered, XPath, XPathError};

#[test]
fn the_default_configuration() {
    let cfg = Config::default();
    assert_eq!(cfg.bind_addr, "127.0.0.1:20654");
    assert_eq!(cfg.db_path, "./feedgen.sqlite3");
    assert_eq!(cfg.cache_dir, None);
    assert_eq!(cfg.feeds.len(), 0);
    assert_eq!(cfg.fetch_interval, Duration::from_secs(7200));
    assert_eq!(cfg.max_initial_fetch_sleep, Duration::from_secs(45));
    assert_eq!(default_fetch_interval(), Duration::from_secs(7200));
    assert_eq!(default_max_initial_fetch_sleep(), Duration::from_secs(45));
    assert!(default_feed_enabled());
}

fn args(bind_addr: Option<&str>, db_path: Option<&str>, cache_dir: Option<&str>) -> Args {
    Args {
        config_path: None,
        bind_addr: bind_addr.map(String::from),
        db_path: db_path.map(String::from),
        cache_dir: cache_dir.map(String::from),
    }
}

#[test]
fn arguments_override_the_configuration() {
    let mut cfg = Config::default();
    cfg.cache_dir = Some("/cache".to_string());
    cfg.update(args(None, None, None));
    assert_eq!(cfg.bind_addr, "127.0.0.1:20654");
    assert_eq!(cfg.db_path, "./feedgen.sqlite3");
    assert_eq!(cfg.cache_dir.as_deref(), Some("/cache"));
    cfg.update(args(Some("[::]:80"), None, Some("/tmp/c")));
    assert_eq!(cfg.bind_addr, "[::]:80");
    assert_eq!(cfg.db_path, "./feedgen.sqlite3");
    assert_eq!(cfg.cache_dir.as_deref(), Some("/tmp/c"));
    cfg.update(args(None, Some("/db"), None));
    assert_eq!(cfg.bind_addr, "[::]:80");
    assert_eq!(cfg.db_path, "/db");
    assert_eq!(cfg.fetch_interval, Duration::from_secs(7200));
}

#[test]
fn the_configuration_is_looked_for_in_order() {
    let mut given = args(Some("a"), None, None);
    given.config_path = Some("/my/feedgen.toml".to_string());
    assert_eq!(given.take_config_paths(), vec!["/my/feedgen.toml", "./feedgen.toml", "/etc/feedgen.toml"]);
    assert_eq!(given.config_path, None);
    assert_eq!(given.bind_addr.as_deref(), Some("a"));
    assert_eq!(given.take_config_paths(), vec!["./feedgen.toml", "/etc/feedgen.toml"]);
}

fn feed(url: &str, enabled: bool, fetch_interval: Option<u64>) -> Feed {
    Feed {
        enabled,
        request_url: Url::parse(url).unwrap(),
        extractor: ExtractorConfig::Lua(LuaExtractorConfig { path: "feed.lua".to_string() }),
        fetch_interval: fetch_interval.map(Duration::from_secs),
    }
}

#[test]
fn running_feeds_are_made_from_configured_ones() {
    let mut cfg = Config::default();
    cfg.fetch_interval = Duration::from_secs(600);
    cfg.feeds.insert("b".to_string(), feed("https://b.test/", true, None));
    cfg.feeds.insert("a".to_string(), feed("https://a.test/", false, Some(30)));
    let feeds = make_feeds(&cfg);
    assert_eq!(feeds.len(), 2);
    assert_eq!(feeds.name_at(0), "a");
    let a = feeds.get("a").unwrap();
    assert_eq!((a.request_url.as_str(), a.fetch_interval, a.enabled), ("https://a.test/", Duration::from_secs(30), false));
    let b = feeds.get("b").unwrap();
    assert_eq!((b.request_url.as_str(), b.fetch_interval, b.enabled), ("https://b.test/", Duration::from_secs(600), true));
    let state = State::new(cfg);
    assert_eq!(state.feeds.len(), 2);
    assert_eq!(state.cfg.feeds.len(), 2);
    assert_eq!(state.feeds.get("b").unwrap().fetch_interval, Duration::from_secs(600));
}

#[test]
fn templates_have_their_names() {
    assert_eq!(Template::Index.as_str(), "index");
}

#[test]
fn expressions_are_checked_when_they_are_made() {
    let xpath = XPath::new("//html:article[@id]".to_string()).unwrap();
    assert_eq!(xpath.source(), "//html:article[@id]");
    assert_eq!(xpath.duplicate().source(), "//html:article[@id]");
    assert_eq!(XPath::new("//a[".to_string()).unwrap_err(), XPathError::Malformed);
    assert_eq!(XPath::new("".to_string()).unwrap_err(), XPathError::Empty);
}

#[test]
fn expressions_with_a_prefix_that_is_not_bound_are_refused() {
    assert_eq!(XPath::new("//foo:div".to_string()).unwrap_err(), XPathError::UnboundPrefix);
    assert_eq!(XPath::new("//xhtml:div".to_string()).unwrap_err(), XPathError::UnboundPrefix);
    assert_eq!(XPath::new("//html:div/svg:g".to_string()).unwrap_err(), XPathError::UnboundPrefix);
    assert_eq!(XPath::new("//*[foo:bar = 1]".to_string()).unwrap_err(), XPathError::UnboundPrefix);
    assert!(XPath::new("//html:div".to_string()).is_ok());
    assert!(XPath::new("child::html:p".to_string()).is_ok());
    assert!(XPath::new("//html:a[contains(@href, 'http://example.com:80')]".to_string()).is_ok());
    assert!(XPath::new("concat(\"a:b\", 'c:d')".to_string()).is_ok());
    assert!(XPath::new("descendant::html:*".to_string()).is_ok());
}

#[test]
fn expressions_without_a_fixed_result_are_told_apart() {
    assert!(!is_ordered("//namespace::*"));
    assert!(!is_ordered("name(.)"));
    assert!(!is_ordered("-name()"));
    assert!(!is_ordered("concat('a', name(..))"));
    assert!(!is_ordered("sum(*)"));
    assert!(!is_ordered("//html:td[sum(../html:td) > 3]"));
    assert!(is_ordered("count(*)"));
    assert!(is_ordered("string('sum(*)')"));
    assert!(XPath::new("sum(*)".to_string()).is_ok());
    assert!(is_ordered("local-name(.)"));
    assert!(is_ordered("namespace-uri(.)"));
    assert!(is_ordered("string('name(.) namespace::x')"));
    assert!(is_ordered("//html:p[@class = \"name(\"]"));
    assert!(XPath::new("name(.)".to_string()).is_ok());
    assert!(XPath::new("//namespace::*".to_string()).is_ok());
    assert!(applies("//html:p", "html"));
    assert!(!applies("//html:p", "h"));
}

#[test]
fn paths_are_seen_from_the_directory_of_the_configuration() {
    let mut cfg = Config::default();
    cfg.db_path = "data/feeds.sqlite3".to_string();
    cfg.cache_dir = Some("/var/cache/feedgen".to_string());
    cfg.feeds.insert("b".to_string(), feed("https://b.test/", true, None));
    cfg.feeds.insert("a".to_string(), feed("https://a.test/", false, Some(30)));
    cfg.resolve_relative_paths("/etc/feedgen");
    assert_eq!(cfg.db_path, "/etc/feedgen/data/feeds.sqlite3");
    assert_eq!(cfg.cache_dir.as_deref(), Some("/var/cache/feedgen"));
    assert_eq!(cfg.bind_addr, "127.0.0.1:20654");
    assert_eq!(cfg.feeds.len(), 2);
    let a = cfg.feeds.get("a").unwrap();
    assert_eq!((a.enabled, a.request_url.as_str(), a.fetch_interval), (false, "https://a.test/", Some(Duration::from_secs(30))));
    match &a.extractor {
        ExtractorConfig::Lua(lua) => assert_eq!(lua.path, "/etc/feedgen/feed.lua"),
        other => panic!("{other:?}"),
    }
    let mut cfg = Config::default();
    cfg.resolve_relative_paths("/etc");
    assert_eq!(cfg.db_path, "/etc/./feedgen.sqlite3");
    assert_eq!(cfg.cache_dir, None);
}

#[test]
fn a_run_succeeds_only_where_nothing_failed() {
    assert_eq!(exit_code(true, 0), 0);
    assert_eq!(exit_code(true, 1), 1);
    assert_eq!(exit_code(false, 0), 1);
    assert_eq!(exit_code(false, 3), 1);
}

#[test]
fn a_script_gets_the_safe_libraries_only() {
    assert_eq!(
        make_vm(),
        vec![StdLibrary::Coroutine, StdLibrary::Table, StdLibrary::String, StdLibrary::Utf8, StdLibrary::Math]
    );
    assert_eq!((EXTRACT_FUNCTION, API_TABLE), ("extract", "feedgen"));
}

#[test]
fn a_buffer_has_text_and_a_length_in_bytes() {
    let buffer = Buffer::new("héllo".to_string());
    assert_eq!(buffer.as_str(), "héllo");
    assert_eq!(buffer.to_string(), "héllo");
    assert_eq!(buffer.len(), 6);
    assert_eq!(Buffer::new(String::new()).len(), 0);
}

#[test]
fn a_path_is_joined_to_a_directory_as_the_system_joins_paths() {
    let cases = [
        ("/etc", "a", "/etc/a"),
        ("/etc/", "a", "/etc/a"),
        ("/etc", "/abs/b", "/abs/b"),
        ("", "a", "a"),
        ("", "/a", "/a"),
        ("/etc", "", "/etc/"),
        ("/", "a", "/a"),
        ("rel/dir", "./x/../y", "rel/dir/./x/../y"),
        ("/é", "ü/", "/é/ü/"),
    ];
    for (dir, path, joined) in cases {
        assert_eq!(join_path(dir, path), joined);
        assert_eq!(std::path::Path::new(dir).join(path).to_string_lossy(), joined);
    }
}

#[test]
fn what_the_scans_look_for_cannot_be_written_with_a_space() {
    for source in ["sum (*)", "name (.)", "name\t(.)", "sum\n(*)", "namespace ::*", "html :p", "html: p"] {
        assert_eq!(XPath::new(source.to_string()).unwrap_err(), XPathError::Malformed, "{source}");
    }
    assert!(!is_ordered("namespace:: *"));
    assert!(XPath::new("namespace:: *".to_string()).is_ok());
}
