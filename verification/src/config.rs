//! The configuration of the service.

pub mod types;

use vstd::prelude::*;
use vstd::slice::*;
use vstd::string::*;

use crate::cli::Args;
use crate::config::types::{DateTimeFormat, Duration};
use crate::extractor::option_view;
use crate::names::NameMap;
use crate::url::Url;
use crate::xpath::XPath;

verus! {

/// The address that the server binds to unless told otherwise.
pub const DEFAULT_BIND_ADDR: &'static str = "127.0.0.1:20654";

/// The database file that is used unless told otherwise.
pub const DEFAULT_DB_PATH: &'static str = "./feedgen.sqlite3";

/// Seconds between two fetches of a feed unless told otherwise.
pub const DEFAULT_FETCH_INTERVAL_SECS: u64 = 7200;

/// Seconds below which the first fetch of a feed is delayed at random unless
/// told otherwise.
pub const DEFAULT_MAX_INITIAL_FETCH_SLEEP_SECS: u64 = 45;

/// The time between two fetches of a feed where the configuration names none.
pub fn default_fetch_interval() -> (r: Duration)
    ensures
        r.spec_secs() == DEFAULT_FETCH_INTERVAL_SECS,
        r.spec_subsec_nanos() == 0,
{
    Duration::from_secs(DEFAULT_FETCH_INTERVAL_SECS)
}

/// The bound on the random delay of the first fetch where the configuration
/// names none.
pub fn default_max_initial_fetch_sleep() -> (r: Duration)
    ensures
        r.spec_secs() == DEFAULT_MAX_INITIAL_FETCH_SLEEP_SECS,
        r.spec_subsec_nanos() == 0,
{
    Duration::from_secs(DEFAULT_MAX_INITIAL_FETCH_SLEEP_SECS)
}

/// Whether a feed is fetched where its configuration does not say.
pub fn default_feed_enabled() -> (r: bool)
    ensures
        r,
{
    true
}

/// The view of a date format that may be absent.
pub open spec fn format_option_view(format: Option<DateTimeFormat>) -> Option<Seq<char>> {
    match format {
        Some(f) => Some(f@),
        None => None,
    }
}

/// The configuration of an extractor that works by XPath expressions.
#[derive(Debug)]
pub struct XPathExtractorConfig {
    /// Finds the entries of a page.
    pub entry: XPath,
    pub id: XPath,
    pub title: XPath,
    pub description: XPath,
    pub url: XPath,
    pub author: Option<XPath>,
    pub pub_date: Option<XPath>,
    /// How the text that `pub_date` finds is read.
    pub pub_date_format: Option<DateTimeFormat>,
}

/// The configuration of an extractor that runs a script.
#[derive(Debug)]
pub struct LuaExtractorConfig {
    /// Where the script lies.
    pub path: String,
}

/// The configuration of an extractor, by its kind.
#[derive(Debug)]
pub enum ExtractorConfig {
    XPath(XPathExtractorConfig),
    Lua(LuaExtractorConfig),
}

/// The configuration of one feed.
#[derive(Debug)]
pub struct Feed {
    /// Whether the feed is fetched at all.
    pub enabled: bool,
    /// The page that the feed is made from.
    pub request_url: Url,
    pub extractor: ExtractorConfig,
    /// The time between two fetches, where it differs from the general one.
    pub fetch_interval: Option<Duration>,
}

/// The configuration of the service.
#[derive(Debug)]
pub struct Config {
    pub bind_addr: String,
    pub db_path: String,
    pub cache_dir: Option<String>,
    /// The feeds by name.
    pub feeds: NameMap<Feed>,
    /// The time between two fetches of a feed.
    pub fetch_interval: Duration,
    /// The bound on the random delay of the first fetch of a feed.
    pub max_initial_fetch_sleep: Duration,
}

impl Default for Config {
    /// The configuration that is used where no file is found.
    fn default() -> (r: Config)
        ensures
            r.bind_addr@ == DEFAULT_BIND_ADDR@,
            r.db_path@ == DEFAULT_DB_PATH@,
            r.cache_dir is None,
            r.feeds.names().len() == 0,
            r.fetch_interval.spec_secs() == DEFAULT_FETCH_INTERVAL_SECS,
            r.fetch_interval.spec_subsec_nanos() == 0,
            r.max_initial_fetch_sleep.spec_secs() == DEFAULT_MAX_INITIAL_FETCH_SLEEP_SECS,
            r.max_initial_fetch_sleep.spec_subsec_nanos() == 0,
    {
        Config {
            bind_addr: String::from_str(DEFAULT_BIND_ADDR),
            db_path: String::from_str(DEFAULT_DB_PATH),
            cache_dir: None,
            feeds: NameMap::new(),
            fetch_interval: default_fetch_interval(),
            max_initial_fetch_sleep: default_max_initial_fetch_sleep(),
        }
    }
}

/// The value that an argument leaves: its own where it is given, else the old one.
pub open spec fn overridden(old_value: Seq<char>, given: Option<Seq<char>>) -> Seq<char> {
    match given {
        Some(v) => v,
        None => old_value,
    }
}

impl Config {
    /// Lets the arguments of the command line override the address, the
    /// database path and the cache directory. What no argument names stays.
    pub fn update(&mut self, args: Args)
        ensures
            final(self).bind_addr@ == overridden(old(self).bind_addr@, option_view(args.bind_addr)),
            final(self).db_path@ == overridden(old(self).db_path@, option_view(args.db_path)),
            option_view(final(self).cache_dir) == (match args.cache_dir {
                Some(dir) => Some(dir@),
                None => option_view(old(self).cache_dir),
            }),
            final(self).feeds == old(self).feeds,
            final(self).fetch_interval == old(self).fetch_interval,
            final(self).max_initial_fetch_sleep == old(self).max_initial_fetch_sleep,
    {
        match args.bind_addr {
            Some(v) => {
                self.bind_addr = v;
            },
            None => {},
        }
        match args.db_path {
            Some(v) => {
                self.db_path = v;
            },
            None => {},
        }
        match args.cache_dir {
            Some(v) => {
                self.cache_dir = Some(v);
            },
            None => {},
        }
    }
}

/// The byte that parts the names of a path.
pub const SEPARATOR: u8 = 47;

/// Whether a path begins at the root: its first byte is the separator.
pub open spec fn is_absolute(path: Seq<char>) -> bool {
    let bytes = vstd::utf8::encode_utf8(path);
    bytes.len() > 0 && bytes[0] == SEPARATOR
}

/// Whether a separator has to follow a directory before a name: the
/// directory is not empty and does not end in one.
pub open spec fn needs_separator(dir: Seq<char>) -> bool {
    let bytes = vstd::utf8::encode_utf8(dir);
    bytes.len() > 0 && bytes.last() != SEPARATOR
}

/// The path `path` as seen from the directory `dir`, as paths are joined
/// where `/` parts their names: a path that begins at the root stays as it
/// is; any other follows the directory, after a separator where the directory
/// does not end in one.
pub open spec fn path_join(dir: Seq<char>, path: Seq<char>) -> Seq<char> {
    if is_absolute(path) {
        path
    } else if needs_separator(dir) {
        dir + seq!['/'] + path
    } else {
        dir + path
    }
}

/// The path `path` as seen from the directory `dir`.
pub fn join_path(dir: &str, path: &str) -> (r: String)
    ensures
        r@ == path_join(dir@, path@),
{
    let name = path.as_bytes();
    if name.len() > 0 && name[0] == SEPARATOR {
        return String::from_str(path);
    }
    let from = dir.as_bytes();
    let mut joined = String::from_str(dir);
    if from.len() > 0 && from[from.len() - 1] != SEPARATOR {
        proof {
            reveal_strlit("/");
        }
        joined.append("/");
        proof {
            assert("/"@ =~= seq!['/']);
        }
    }
    joined.append(path);
    joined
}

impl LuaExtractorConfig {
    /// Makes the path of the script the one that it is when seen from
    /// `config_dir`.
    pub fn resolve_relative_paths(&mut self, config_dir: &str)
        ensures
            final(self).path@ == path_join(config_dir@, old(self).path@),
    {
        let joined = join_path(config_dir, self.path.as_str());
        self.path = joined;
    }
}

impl XPathExtractorConfig {
    /// An extractor of this kind names no paths: nothing changes.
    pub fn resolve_relative_paths(&mut self, config_dir: &str)
        ensures
            *final(self) == *old(self),
    {
    }
}

/// Whether `after` is the extractor `before` with its paths seen from `dir`:
/// an extractor by XPath expressions names no path and is as it was; an
/// extractor by a script is one by a script still, and the path of its script is
/// the old one seen from `dir`.
pub open spec fn extractor_resolved(before: ExtractorConfig, after: ExtractorConfig, dir: Seq<char>) -> bool {
    match before {
        ExtractorConfig::XPath(_) => after == before,
        ExtractorConfig::Lua(old_cfg) => after matches ExtractorConfig::Lua(new_cfg) && new_cfg.path@
            == path_join(dir, old_cfg.path@),
    }
}

impl ExtractorConfig {
    /// Makes the paths that the extractor names such as are seen from
    /// `config_dir`. An extractor by XPath expressions names none and stays as
    /// it is; the kind of extractor stays in any case.
    pub fn resolve_relative_paths(&mut self, config_dir: &str)
        ensures
            extractor_resolved(*old(self), *final(self), config_dir@),
    {
        match self {
            ExtractorConfig::XPath(cfg) => {
                cfg.resolve_relative_paths(config_dir);
            },
            ExtractorConfig::Lua(cfg) => {
                cfg.resolve_relative_paths(config_dir);
            },
        }
    }
}

/// Whether `after` is the feed `before` with its paths seen from `dir`: the
/// paths of its extractor are, and nothing else has changed.
pub open spec fn feed_resolved(before: Feed, after: Feed, dir: Seq<char>) -> bool {
    &&& after.enabled == before.enabled
    &&& after.request_url == before.request_url
    &&& after.fetch_interval == before.fetch_interval
    &&& extractor_resolved(before.extractor, after.extractor, dir)
}

impl Feed {
    /// Makes the paths that the feed names such as are seen from `config_dir`.
    /// Nothing else changes.
    pub fn resolve_relative_paths(&mut self, config_dir: &str)
        ensures
            feed_resolved(*old(self), *final(self), config_dir@),
    {
        self.extractor.resolve_relative_paths(config_dir);
    }
}

/// The cache directory seen from `dir`, where there is one.
pub open spec fn cache_dir_resolved(cache_dir: Option<Seq<char>>, dir: Seq<char>) -> Option<Seq<char>> {
    match cache_dir {
        Some(path) => Some(path_join(dir, path)),
        None => None,
    }
}

impl Config {
    /// Makes the paths that the configuration names, those of the database, of
    /// the cache directory and of the feeds, such as are seen from
    /// `config_dir`. Nothing else changes: the address, the intervals, and the
    /// feeds with their names stay, and there is a cache directory just where
    /// there was one.
    pub fn resolve_relative_paths(&mut self, config_dir: &str)
        ensures
            final(self).db_path@ == path_join(config_dir@, old(self).db_path@),
            option_view(final(self).cache_dir) == cache_dir_resolved(
                option_view(old(self).cache_dir),
                config_dir@,
            ),
            final(self).bind_addr == old(self).bind_addr,
            final(self).fetch_interval == old(self).fetch_interval,
            final(self).max_initial_fetch_sleep == old(self).max_initial_fetch_sleep,
            final(self).feeds.names() == old(self).feeds.names(),
            final(self).feeds.values().len() == old(self).feeds.values().len(),
            forall|i: int|
                0 <= i < old(self).feeds.values().len() ==> feed_resolved(
                    old(self).feeds.values()[i],
                    #[trigger] final(self).feeds.values()[i],
                    config_dir@,
                ),
    {
        let mut feeds: NameMap<Feed> = NameMap::new();
        core::mem::swap(&mut self.feeds, &mut feeds);
        let (names, mut values) = feeds.into_parts();
        let ghost before = values@;
        let mut i: usize = 0;
        while i < values.len()
            invariant
                i <= values@.len(),
                values@.len() == before.len(),
                forall|k: int|
                    0 <= k < i ==> feed_resolved(before[k], #[trigger] values@[k], config_dir@),
                forall|k: int| i <= k < values@.len() ==> values@[k] == before[k],
            decreases values@.len() - i,
        {
            values[i].resolve_relative_paths(config_dir);
            i = i + 1;
        }
        self.feeds = NameMap::from_parts(names, values);
        let db_path = join_path(config_dir, self.db_path.as_str());
        self.db_path = db_path;
        let cache_dir = match &self.cache_dir {
            Some(dir) => Some(join_path(config_dir, dir.as_str())),
            None => None,
        };
        self.cache_dir = cache_dir;
    }
}

} // verus!
