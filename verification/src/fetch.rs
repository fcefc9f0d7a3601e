//! How the feeds are fetched: which of them, when first, and what a feed's task
//! does on each thing that happens to it.

use vstd::prelude::*;
use vstd::string::*;

use crate::config::types::Duration;
use crate::names::{name_views, NameMap};
use crate::state::Feed;
use crate::timestamp::Timestamp;

verus! {

/// Seconds allowed for connecting to a server.
pub const CONNECT_TIMEOUT_SECS: u64 = 30;

/// Seconds allowed for one read of a response.
pub const READ_TIMEOUT_SECS: u64 = 10;

/// Seconds allowed for a request in all.
pub const TOTAL_TIMEOUT_SECS: u64 = 300;

/// The most responses that the cache in memory holds.
pub const MEMORY_CACHE_CAPACITY: u64 = 8192;

/// Where fetched responses are cached.
#[derive(Debug)]
pub enum CachePlan {
    /// On disk, in this directory.
    Directory(String),
    /// In memory, holding at most this many responses.
    Memory(u64),
}

/// What is needed to fetch the feeds.
#[derive(Debug)]
pub struct Fetcher {
    feeds: NameMap<Feed>,
    cache_dir: Option<String>,
    max_initial_sleep: Duration,
}

/// The names of the feeds that are enabled, in the order of the names.
pub open spec fn enabled_names(names: Seq<Seq<char>>, feeds: Seq<Feed>) -> Seq<Seq<char>>
    decreases names.len(),
{
    if names.len() == 0 || feeds.len() == 0 {
        Seq::empty()
    } else {
        let before = enabled_names(names.drop_last(), feeds.drop_last());
        if feeds.last().enabled {
            before.push(names.last())
        } else {
            before
        }
    }
}

impl Fetcher {
    /// The feeds to fetch.
    pub closed spec fn feeds(self) -> NameMap<Feed> {
        self.feeds
    }

    /// The directory of the cache on disk, where one is configured.
    pub closed spec fn cache_dir(self) -> Option<Seq<char>> {
        crate::extractor::option_view(self.cache_dir)
    }

    /// The bound on the random delay of the first fetch of a feed.
    pub closed spec fn max_initial_sleep(self) -> Duration {
        self.max_initial_sleep
    }

    /// A fetcher for the given feeds.
    pub fn new(feeds: NameMap<Feed>, cache_dir: Option<String>, max_initial_sleep: Duration) -> (r:
        Self)
        ensures
            r.feeds() == feeds,
            r.cache_dir() == crate::extractor::option_view(cache_dir),
            r.max_initial_sleep() == max_initial_sleep,
    {
        Fetcher { feeds, cache_dir, max_initial_sleep }
    }

    /// Where responses are cached: on disk where a directory is configured,
    /// else in memory with the fixed capacity.
    pub fn cache_plan(&self) -> (r: CachePlan)
        ensures
            match self.cache_dir() {
                Some(dir) => r matches CachePlan::Directory(d) && d@ == dir,
                None => r == CachePlan::Memory(MEMORY_CACHE_CAPACITY),
            },
    {
        match &self.cache_dir {
            Some(dir) => CachePlan::Directory(dir.clone()),
            None => CachePlan::Memory(MEMORY_CACHE_CAPACITY),
        }
    }

    /// The bound on the random delay of the first fetch of a feed.
    pub fn initial_sleep_bound(&self) -> (r: Duration)
        ensures
            r == self.max_initial_sleep(),
    {
        self.max_initial_sleep
    }

    /// The feed that is configured under `name`.
    pub fn feed(&self, name: &str) -> (r: Option<&Feed>)
        ensures
            match self.feeds().lookup(name@) {
                Some(feed) => r == Some(&feed),
                None => r is None,
            },
    {
        self.feeds.get(name)
    }

    /// The names of the feeds that get a task: those that are enabled, in the
    /// order of the names. A disabled feed is never fetched.
    pub fn run(&self) -> (r: Vec<String>)
        ensures
            name_views(r@) == enabled_names(self.feeds().names(), self.feeds().values()),
    {
        let n = self.feeds.len();
        let mut tasks: Vec<String> = Vec::new();
        let mut i: usize = 0;
        while i < n
            invariant
                i <= n,
                n == self.feeds.names().len(),
                n == self.feeds.values().len(),
                name_views(tasks@) == enabled_names(
                    self.feeds.names().take(i as int),
                    self.feeds.values().take(i as int),
                ),
            decreases n - i,
        {
            proof {
                assert(self.feeds.names().take(i as int + 1).drop_last()
                    =~= self.feeds.names().take(i as int));
                assert(self.feeds.values().take(i as int + 1).drop_last()
                    =~= self.feeds.values().take(i as int));
            }
            if self.feeds.value_at(i).enabled {
                let ghost before = tasks@;
                let name = String::from_str(self.feeds.name_at(i));
                tasks.push(name);
                proof {
                    assert(name_views(tasks@) =~= name_views(before).push(name@));
                }
            }
            i = i + 1;
        }
        proof {
            assert(self.feeds.names().take(n as int) =~= self.feeds.names());
            assert(self.feeds.values().take(n as int) =~= self.feeds.values());
        }
        tasks
    }
}

/// The random delay of the first fetch of a feed: some span below `bound`,
/// which must not be empty.
pub fn initial_offset(bound: &Duration) -> (r: Duration)
    requires
        bound.spec_nanos() > 0,
    ensures
        r.spec_nanos() < bound.spec_nanos(),
{
    bound.random_below()
}

/// The time until the first fetch of a feed, in nanoseconds.
///
/// A feed that was never updated waits for `offset` alone. One that was last
/// updated at `last_update` waits until `fetch_interval` after that, or not at
/// all where that time has passed, and then for `offset`. Where the sum is more
/// than can be told, the wait is `offset` alone.
pub open spec fn initial_sleep_nanos(
    last_update: Option<Timestamp>,
    fetch_interval: Duration,
    now: Timestamp,
    offset: Duration,
) -> int {
    match last_update {
        None => offset.spec_nanos() as int,
        Some(last) => {
            let due = last.instant() + fetch_interval.spec_nanos() - now.instant();
            let remaining = if due > 0 {
                due
            } else {
                0
            };
            if remaining + offset.spec_nanos() <= Duration::max_nanos() {
                remaining + offset.spec_nanos()
            } else {
                offset.spec_nanos() as int
            }
        },
    }
}

/// The time until the first fetch of a feed.
pub fn initial_sleep(
    last_update: Option<Timestamp>,
    fetch_interval: Duration,
    now: Timestamp,
    offset: Duration,
) -> (r: Duration)
    ensures
        r.spec_nanos() == initial_sleep_nanos(last_update, fetch_interval, now, offset),
        r == Duration::of_nanos(initial_sleep_nanos(last_update, fetch_interval, now, offset)),
{
    match last_update {
        None => {
            let all = offset.as_nanos();
            proof {
                assert(offset == Duration::of_nanos(all as int));
            }
            offset
        },
        Some(last) => {
            let last_nanos: i128 = (last.seconds() as i128) * 1_000_000_000 + (last.nanos() as i128);
            let now_nanos: i128 = (now.seconds() as i128) * 1_000_000_000 + (now.nanos() as i128);
            let interval_nanos: i128 = fetch_interval.as_nanos() as i128;
            let due: i128 = last_nanos + interval_nanos - now_nanos;
            let remaining: i128 = if due > 0 {
                due
            } else {
                0
            };
            let total: i128 = remaining + (offset.as_nanos() as i128);
            match Duration::from_nanos(total as u128) {
                Some(d) => d,
                None => offset,
            }
        },
    }
}

/// The first fetch of a feed comes before the bound on the random delay and
/// the fetch interval have both passed, whenever the last update does not lie
/// in the future and the random delay is below its bound.
pub proof fn lemma_initial_sleep_bounded(
    last_update: Option<Timestamp>,
    fetch_interval: Duration,
    now: Timestamp,
    offset: Duration,
    max_initial_sleep: Duration,
)
    requires
        offset.spec_nanos() < max_initial_sleep.spec_nanos(),
        last_update matches Some(last) ==> last.instant() <= now.instant(),
    ensures
        0 <= initial_sleep_nanos(last_update, fetch_interval, now, offset)
            < max_initial_sleep.spec_nanos() + fetch_interval.spec_nanos(),
{
}

/// Whether a response with this HTTP status is read at all: only one that
/// reports success is.
pub fn response_accepted(status: u16) -> (r: bool)
    ensures
        r == (200 <= status <= 299),
{
    200 <= status && status <= 299
}

/// What a feed's task is doing.
#[derive(Debug, Clone, Copy, PartialEq, Eq, Structural)]
pub enum Phase {
    /// Finding out when to fetch first.
    Starting,
    /// Waiting for the next fetch.
    Sleeping,
    /// Fetching the page, extracting the entries and storing them.
    Fetching,
    /// Done for good.
    Stopped,
}

/// The task of one feed.
#[derive(Debug, Clone, Copy, PartialEq, Eq, Structural)]
pub struct Task {
    pub phase: Phase,
    /// Whether an update was asked for while one was running.
    pub forced: bool,
    /// Whether the task was told to stop while it could not.
    pub cancelled: bool,
    /// The time between two fetches.
    pub fetch_interval: Duration,
}

/// What can happen to a task.
#[derive(Debug, Clone, Copy, PartialEq, Eq, Structural)]
pub enum Event {
    /// The last update was read from the store and the random delay drawn.
    Ready { last_update: Option<Timestamp>, now: Timestamp, offset: Duration },
    /// The service is shutting down.
    Cancelled,
    /// An update was asked for.
    ForceUpdate,
    /// The wait is over.
    TimerFired,
    /// The fetch is over, well or badly.
    TickFinished,
}

/// What a task is to do next.
#[derive(Debug, Clone, Copy, PartialEq, Eq, Structural)]
pub enum Action {
    /// Wait this long, counted from now, unless something else happens first.
    Sleep(Duration),
    /// Fetch now.
    Fetch,
    /// End the task.
    Exit,
    /// Go on with what is being done.
    Continue,
}

impl Task {
    /// What becomes of the task on an event, and what it is to do.
    ///
    /// A starting task stops at once if it was cancelled, else sleeps for the
    /// initial delay. A sleeping task stops when cancelled and fetches when the
    /// timer fires or an update is forced. A fetching task finishes its fetch
    /// whatever happens, and remembers at most one forced update and the
    /// cancellation; when the fetch is over it stops if cancelled, fetches once
    /// more if an update was forced, and else sleeps for the fetch interval
    /// counted from that moment. A stopped task stays stopped.
    pub open spec fn next(self, event: Event) -> (Task, Action) {
        match self.phase {
            Phase::Stopped => (self, Action::Exit),
            Phase::Starting => match event {
                Event::Ready { last_update, now, offset } => if self.cancelled {
                    (Task { phase: Phase::Stopped, ..self }, Action::Exit)
                } else {
                    (
                        Task { phase: Phase::Sleeping, ..self },
                        Action::Sleep(
                            Duration::of_nanos(
                                initial_sleep_nanos(last_update, self.fetch_interval, now, offset),
                            ),
                        ),
                    )
                },
                Event::Cancelled => (Task { cancelled: true, ..self }, Action::Continue),
                _ => (self, Action::Continue),
            },
            Phase::Sleeping => match event {
                Event::Cancelled => (
                    Task { phase: Phase::Stopped, cancelled: true, ..self },
                    Action::Exit,
                ),
                Event::ForceUpdate => (
                    Task { phase: Phase::Fetching, forced: false, ..self },
                    Action::Fetch,
                ),
                Event::TimerFired => (Task { phase: Phase::Fetching, ..self }, Action::Fetch),
                _ => (self, Action::Continue),
            },
            Phase::Fetching => match event {
                Event::Cancelled => (Task { cancelled: true, ..self }, Action::Continue),
                Event::ForceUpdate => (Task { forced: true, ..self }, Action::Continue),
                Event::TickFinished => if self.cancelled {
                    (Task { phase: Phase::Stopped, ..self }, Action::Exit)
                } else if self.forced {
                    (Task { phase: Phase::Fetching, forced: false, ..self }, Action::Fetch)
                } else {
                    (Task { phase: Phase::Sleeping, ..self }, Action::Sleep(self.fetch_interval))
                },
                _ => (self, Action::Continue),
            },
        }
    }

    /// The task of a feed that is fetched every `fetch_interval`, about to start.
    pub fn new(fetch_interval: Duration) -> (r: Task)
        ensures
            r == (Task { phase: Phase::Starting, forced: false, cancelled: false, fetch_interval }),
    {
        Task { phase: Phase::Starting, forced: false, cancelled: false, fetch_interval }
    }

    /// Takes the task through an event and says what it is to do: the new state
    /// and the action are those of `next`.
    pub fn step(&mut self, event: Event) -> (action: Action)
        ensures
            (*final(self), action) == old(self).next(event),
    {
        match self.phase {
            Phase::Stopped => Action::Exit,
            Phase::Starting => match event {
                Event::Ready { last_update, now, offset } => {
                    if self.cancelled {
                        self.phase = Phase::Stopped;
                        Action::Exit
                    } else {
                        self.phase = Phase::Sleeping;
                        Action::Sleep(initial_sleep(last_update, self.fetch_interval, now, offset))
                    }
                },
                Event::Cancelled => {
                    self.cancelled = true;
                    Action::Continue
                },
                _ => Action::Continue,
            },
            Phase::Sleeping => match event {
                Event::Cancelled => {
                    self.phase = Phase::Stopped;
                    self.cancelled = true;
                    Action::Exit
                },
                Event::ForceUpdate => {
                    self.phase = Phase::Fetching;
                    self.forced = false;
                    Action::Fetch
                },
                Event::TimerFired => {
                    self.phase = Phase::Fetching;
                    Action::Fetch
                },
                _ => Action::Continue,
            },
            Phase::Fetching => match event {
                Event::Cancelled => {
                    self.cancelled = true;
                    Action::Continue
                },
                Event::ForceUpdate => {
                    self.forced = true;
                    Action::Continue
                },
                Event::TickFinished => {
                    if self.cancelled {
                        self.phase = Phase::Stopped;
                        Action::Exit
                    } else if self.forced {
                        self.forced = false;
                        Action::Fetch
                    } else {
                        self.phase = Phase::Sleeping;
                        Action::Sleep(self.fetch_interval)
                    }
                },
                _ => Action::Continue,
            },
        }
    }
}

/// The task after `n` updates were asked for in a row.
pub open spec fn after_forced(task: Task, n: nat) -> Task
    decreases n,
{
    if n == 0 {
        task
    } else {
        after_forced(task, (n - 1) as nat).next(Event::ForceUpdate).0
    }
}

/// However many updates are asked for while a fetch is running, one more fetch
/// follows it and no second: when the running fetch is over the task fetches
/// again, and when that fetch is over it sleeps for the fetch interval.
pub proof fn lemma_forced_updates_coalesce(task: Task, n: nat)
    requires
        task.phase == Phase::Fetching,
        !task.cancelled,
        n >= 1,
    ensures
        after_forced(task, n).next(Event::TickFinished).1 == Action::Fetch,
        after_forced(task, n).next(Event::TickFinished).0.next(Event::TickFinished).1
            == Action::Sleep(task.fetch_interval),
        after_forced(task, n).next(Event::TickFinished).0.next(Event::TickFinished).0.phase
            == Phase::Sleeping,
    decreases n,
{
    lemma_forced_while_fetching(task, n);
}

/// While a fetch is running, updates that are asked for change nothing but the
/// one mark that says so.
pub proof fn lemma_forced_while_fetching(task: Task, n: nat)
    requires
        task.phase == Phase::Fetching,
    ensures
        after_forced(task, n) == (Task { forced: task.forced || n >= 1, ..task }),
    decreases n,
{
    if n > 0 {
        lemma_forced_while_fetching(task, (n - 1) as nat);
    }
}

/// Without a forced update no extra fetch follows a fetch: the task sleeps for
/// the fetch interval.
pub proof fn lemma_no_fetch_unforced(task: Task)
    requires
        task.phase == Phase::Fetching,
        !task.cancelled,
        !task.forced,
    ensures
        task.next(Event::TickFinished) == (
            Task { phase: Phase::Sleeping, ..task },
            Action::Sleep(task.fetch_interval),
        ),
{
}

} // verus!
