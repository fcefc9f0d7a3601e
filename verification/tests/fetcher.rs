use feedgen::config::types::Duration;
use feedgen::fetch::{
    initial_offset, initial_sleep, response_accepted, Action, CachePlan, Event, Fetcher, Phase,
    Task, CONNECT_TIMEOUT_SECS, MEMORY_CACHE_CAPACITY, READ_TIMEOUT_SECS, TOTAL_TIMEOUT_SECS,
};
use feedgen::names::NameMap;
use feedgen::state::Feed;
use feedgen::timestamp::Timestamp;
use feedgen::url::Url;

fn feed(enabled: bool) -> Feed {
    Feed {
        request_url: Url::parse("https://ex.test/page").unwrap(),
        fetch_interval: Duration::from_secs(3600),
        enabled,
    }
}

fn at(seconds: i64) -> Timestamp {
    Timestamp::from_unix_seconds(seconds)
}

#[test]
fn a_feed_that_was_never_updated_waits_for_the_offset() {
    let offset = Duration::new(12, 500).unwrap();
    assert_eq!(initial_sleep(None, Duration::from_secs(3600), at(1000), offset), offset);
}

#[test]
fn a_feed_waits_for_the_rest_of_its_interval_and_the_offset() {
    let sleep = initial_sleep(Some(at(1000)), Duration::from_secs(3600), at(1600), Duration::from_secs(7));
    assert_eq!(sleep, Duration::from_secs(3007));
    let last = Timestamp::new(1000, 250_000_000, 0).unwrap();
    let now = Timestamp::new(1000, 750_000_000, 7200).unwrap();
    let sleep = initial_sleep(Some(last), Duration::from_secs(2), now, Duration::new(0, 1).unwrap());
    assert_eq!(sleep, Duration::new(1, 500_000_001).unwrap());
}

#[test]
fn a_feed_that_is_overdue_waits_for_the_offset() {
    let sleep = initial_sleep(Some(at(1000)), Duration::from_secs(3600), at(10_000), Duration::from_secs(7));
    assert_eq!(sleep, Duration::from_secs(7));
    let sleep = initial_sleep(Some(at(1000)), Duration::from_secs(3600), at(4600), Duration::from_secs(7));
    assert_eq!(sleep, Duration::from_secs(7));
}

#[test]
fn a_wait_that_cannot_be_told_falls_back_to_the_offset() {
    let offset = Duration::from_secs(u64::MAX);
    let sleep = initial_sleep(Some(at(i64::MAX)), Duration::from_secs(u64::MAX), at(i64::MIN), offset);
    assert_eq!(sleep, offset);
    let offset = Duration::from_secs(3);
    let sleep = initial_sleep(Some(at(0)), Duration::from_secs(u64::MAX), at(-10), offset);
    assert_eq!(sleep, offset);
}

#[test]
fn the_initial_sleep_stays_below_bound_plus_interval() {
    let bound = Duration::from_secs(45);
    let interval = Duration::from_secs(7200);
    let limit = bound.as_nanos() + interval.as_nanos();
    for last in [None, Some(at(0)), Some(at(5000)), Some(at(9999)), Some(at(10_000))] {
        for offset in [Duration::from_secs(0), Duration::new(44, 999_999_999).unwrap()] {
            let sleep = initial_sleep(last, interval, at(10_000), offset);
            assert!(sleep.as_nanos() < limit);
        }
    }
}

#[test]
fn the_random_offset_stays_below_its_bound() {
    let tight = Duration::new(0, 1).unwrap();
    for _ in 0..50 {
        assert_eq!(initial_offset(&tight), Duration::from_secs(0));
    }
    let bound = Duration::from_secs(45);
    let mut seen = std::collections::HashSet::new();
    for _ in 0..50 {
        let offset = initial_offset(&bound);
        assert!(offset.as_nanos() < bound.as_nanos());
        seen.insert(offset.as_nanos());
    }
    assert!(seen.len() > 1);
}

#[test]
fn only_enabled_feeds_get_a_task() {
    let mut feeds = NameMap::new();
    feeds.insert("news".to_string(), feed(true));
    feeds.insert("archive".to_string(), feed(false));
    feeds.insert("blog".to_string(), feed(true));
    let fetcher = Fetcher::new(feeds, None, Duration::from_secs(45));
    assert_eq!(fetcher.run(), vec!["blog".to_string(), "news".to_string()]);
    assert!(fetcher.feed("archive").is_some());
    assert!(fetcher.feed("missing").is_none());
    assert_eq!(fetcher.initial_sleep_bound(), Duration::from_secs(45));
}

#[test]
fn the_cache_is_on_disk_only_where_a_directory_is_configured() {
    let fetcher = Fetcher::new(NameMap::new(), Some("/var/cache/feedgen".to_string()), Duration::from_secs(1));
    assert!(matches!(fetcher.cache_plan(), CachePlan::Directory(dir) if dir == "/var/cache/feedgen"));
    let fetcher = Fetcher::new(NameMap::new(), None, Duration::from_secs(1));
    assert!(matches!(fetcher.cache_plan(), CachePlan::Memory(8192)));
    assert_eq!(MEMORY_CACHE_CAPACITY, 8192);
    assert_eq!((CONNECT_TIMEOUT_SECS, READ_TIMEOUT_SECS, TOTAL_TIMEOUT_SECS), (30, 10, 300));
}

#[test]
fn only_successful_responses_are_read() {
    assert!(response_accepted(200));
    assert!(response_accepted(204));
    assert!(response_accepted(299));
    assert!(!response_accepted(199));
    assert!(!response_accepted(300));
    assert!(!response_accepted(404));
    assert!(!response_accepted(500));
}

#[test]
fn a_task_goes_from_starting_to_sleeping_to_fetching() {
    let mut task = Task::new(Duration::from_secs(3600));
    assert_eq!(task.phase, Phase::Starting);
    let ready = Event::Ready { last_update: Some(at(1000)), now: at(1600), offset: Duration::from_secs(7) };
    assert_eq!(task.step(ready), Action::Sleep(Duration::from_secs(3007)));
    assert_eq!(task.phase, Phase::Sleeping);
    assert_eq!(task.step(Event::TimerFired), Action::Fetch);
    assert_eq!(task.phase, Phase::Fetching);
    assert_eq!(task.step(Event::TickFinished), Action::Sleep(Duration::from_secs(3600)));
    assert_eq!(task.phase, Phase::Sleeping);
    assert_eq!(task.step(Event::Cancelled), Action::Exit);
    assert_eq!(task.phase, Phase::Stopped);
    assert_eq!(task.step(Event::TimerFired), Action::Exit);
    assert_eq!(task.step(Event::ForceUpdate), Action::Exit);
    assert_eq!(task.phase, Phase::Stopped);
}

#[test]
fn force_update_preemption() {
    // A feed with an interval of one hour has just ticked and sleeps.
    let mut task = Task::new(Duration::from_secs(3600));
    task.step(Event::Ready { last_update: None, now: at(0), offset: Duration::from_secs(0) });
    task.step(Event::TimerFired);
    assert_eq!(task.step(Event::TickFinished), Action::Sleep(Duration::from_secs(3600)));
    // An update is forced: the task fetches at once.
    assert_eq!(task.step(Event::ForceUpdate), Action::Fetch);
    assert_eq!(task.phase, Phase::Fetching);
    // The next scheduled tick is one hour after the forced one is over.
    assert_eq!(task.step(Event::TickFinished), Action::Sleep(Duration::from_secs(3600)));
    assert_eq!(task.phase, Phase::Sleeping);
    assert!(!task.forced);
}

#[test]
fn forced_updates_during_a_fetch_cause_one_more_fetch() {
    for n in 1..6 {
        let mut task = Task::new(Duration::from_secs(60));
        task.step(Event::Ready { last_update: None, now: at(0), offset: Duration::from_secs(1) });
        task.step(Event::TimerFired);
        for _ in 0..n {
            assert_eq!(task.step(Event::ForceUpdate), Action::Continue);
        }
        assert_eq!(task.step(Event::TickFinished), Action::Fetch);
        assert_eq!(task.step(Event::TickFinished), Action::Sleep(Duration::from_secs(60)));
        assert_eq!(task.phase, Phase::Sleeping);
    }
}

#[test]
fn a_fetch_is_finished_before_a_task_stops() {
    let mut task = Task::new(Duration::from_secs(60));
    task.step(Event::Ready { last_update: None, now: at(0), offset: Duration::from_secs(1) });
    task.step(Event::TimerFired);
    assert_eq!(task.step(Event::Cancelled), Action::Continue);
    assert_eq!(task.step(Event::ForceUpdate), Action::Continue);
    assert_eq!(task.phase, Phase::Fetching);
    assert_eq!(task.step(Event::TickFinished), Action::Exit);
    assert_eq!(task.phase, Phase::Stopped);
}

#[test]
fn a_task_that_is_cancelled_while_starting_never_sleeps() {
    let mut task = Task::new(Duration::from_secs(60));
    assert_eq!(task.step(Event::ForceUpdate), Action::Continue);
    assert!(!task.forced);
    assert_eq!(task.step(Event::Cancelled), Action::Continue);
    let ready = Event::Ready { last_update: None, now: at(0), offset: Duration::from_secs(1) };
    assert_eq!(task.step(ready), Action::Exit);
    assert_eq!(task.phase, Phase::Stopped);
}
