//! What the running service knows of its feeds.

use vstd::prelude::*;
use vstd::string::*;

use crate::config;
use crate::config::types::Duration;
use crate::config::Config;
use crate::names::{name_views, NameMap};
use crate::url::Url;

verus! {

/// A feed as the running service sees it.
#[derive(Debug)]
pub struct Feed {
    /// The page that the feed is made from.
    pub request_url: Url,
    /// The time between two fetches.
    pub fetch_interval: Duration,
    /// Whether the feed is fetched at all.
    pub enabled: bool,
}

/// The time between two fetches of a feed: its own where it names one, else
/// the general one.
pub open spec fn interval_of(general: Duration, own: Option<Duration>) -> Duration {
    match own {
        Some(d) => d,
        None => general,
    }
}

/// Whether `feed` is what the service makes of the configured feed `from`.
pub open spec fn made_from(feed: Feed, general: Duration, from: config::Feed) -> bool {
    &&& feed.request_url@ == from.request_url@
    &&& feed.fetch_interval == interval_of(general, from.fetch_interval)
    &&& feed.enabled == from.enabled
}

impl Feed {
    /// Whether an update of the feed can be forced: only a feed that is fetched
    /// at all listens for such a request.
    pub open spec fn can_force_update(self) -> bool {
        self.enabled
    }

    /// The running feed for a configured one.
    pub fn new(cfg: &Config, feed: &config::Feed) -> (r: Feed)
        ensures
            made_from(r, cfg.fetch_interval, *feed),
    {
        let fetch_interval = match feed.fetch_interval {
            Some(d) => d,
            None => cfg.fetch_interval,
        };
        Feed { request_url: feed.request_url.duplicate(), fetch_interval, enabled: feed.enabled }
    }
}

/// The running feeds of a configuration, under the names they are configured by.
pub fn make_feeds(cfg: &Config) -> (r: NameMap<Feed>)
    ensures
        r.names() == cfg.feeds.names(),
        r.values().len() == cfg.feeds.values().len(),
        forall|i: int|
            0 <= i < r.values().len() ==> made_from(
                #[trigger] r.values()[i],
                cfg.fetch_interval,
                cfg.feeds.values()[i],
            ),
{
    let n = cfg.feeds.len();
    let mut names: Vec<String> = Vec::new();
    let mut values: Vec<Feed> = Vec::new();
    let mut i: usize = 0;
    while i < n
        invariant
            i <= n,
            n == cfg.feeds.names().len(),
            n == cfg.feeds.values().len(),
            names@.len() == i,
            values@.len() == i,
            name_views(names@) == cfg.feeds.names().take(i as int),
            forall|k: int|
                0 <= k < i ==> made_from(
                    #[trigger] values@[k],
                    cfg.fetch_interval,
                    cfg.feeds.values()[k],
                ),
        decreases n - i,
    {
        let name = String::from_str(cfg.feeds.name_at(i));
        let feed = Feed::new(cfg, cfg.feeds.value_at(i));
        let ghost before = names@;
        names.push(name);
        values.push(feed);
        proof {
            assert(name_views(names@) =~= name_views(before).push(name@));
            assert(cfg.feeds.names().take(i as int + 1) =~= cfg.feeds.names().take(i as int).push(
                cfg.feeds.names()[i as int],
            ));
        }
        i = i + 1;
    }
    proof {
        assert(cfg.feeds.names().take(n as int) =~= cfg.feeds.names());
    }
    NameMap::from_parts(names, values)
}

/// What every part of the running service shares.
#[derive(Debug)]
pub struct State {
    pub cfg: Config,
    pub feeds: NameMap<Feed>,
}

impl State {
    /// The state for a configuration: the configuration itself and its running
    /// feeds.
    pub fn new(cfg: Config) -> (r: State)
        ensures
            r.cfg == cfg,
            r.feeds.names() == cfg.feeds.names(),
            r.feeds.values().len() == cfg.feeds.values().len(),
            forall|i: int|
                0 <= i < r.feeds.values().len() ==> made_from(
                    #[trigger] r.feeds.values()[i],
                    cfg.fetch_interval,
                    cfg.feeds.values()[i],
                ),
    {
        let feeds = make_feeds(&cfg);
        State { cfg, feeds }
    }
}

} // verus!
