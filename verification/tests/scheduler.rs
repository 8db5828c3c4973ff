use search_engine::crawler::scheduler::CrawlScheduler;
use search_engine::crawler::types::UrlTask;

fn task(url: &str, host: &str, depth: u16, priority: i32) -> UrlTask {
    UrlTask { url: url.to_string(), host: host.to_string(), depth, priority }
}

#[test]
fn scheduler_serves_highest_priority_first() {
    let mut s = CrawlScheduler::new(1000);
    let a = s.push_task(task("https://docs.rs/a", "docs.rs", 1, 10), 0);
    assert!(a.accepted);
    assert!(a.notify_one);
    assert_eq!(a.wake_after_ms, None);
    let b = s.push_task(task("https://docs.rs/b", "docs.rs", 1, 50), 0);
    assert!(b.accepted);
    assert!(!b.notify_one);
    let out = s.next_task(0);
    assert_eq!(out.task.unwrap().url, "https://docs.rs/b");
    assert!(out.timers.is_empty());
    assert!(!out.finished);
    assert_eq!(s.stats(), (1, 1, 1));
}

#[test]
fn scheduler_refuses_duplicates() {
    let mut s = CrawlScheduler::new(1000);
    assert!(s.push_task(task("https://docs.rs/a", "docs.rs", 0, 1), 0).accepted);
    let again = s.push_task(task("https://docs.rs/a", "docs.rs", 2, 99), 0);
    assert!(!again.accepted);
    assert!(!again.notify_one);
    assert_eq!(s.stats(), (1, 0, 1));
}

#[test]
fn scheduler_one_request_per_host_and_crawl_delay() {
    let mut s = CrawlScheduler::new(1000);
    s.push_task(task("https://docs.rs/a", "docs.rs", 0, 10), 0);
    s.push_task(task("https://docs.rs/b", "docs.rs", 0, 5), 0);
    let first = s.next_task(0);
    assert_eq!(first.task.unwrap().url, "https://docs.rs/a");
    // the host is in flight: nothing more to hand out
    let none = s.next_task(0);
    assert!(none.task.is_none());
    assert!(!none.finished);
    // completion at t=100 asks for a timer of the crawl delay
    assert_eq!(s.complete_host("docs.rs", 100), Some(1000));
    // too early: the host stays out of the ready queue
    assert!(!s.requeue_host("docs.rs", 500));
    // the delay has passed
    assert!(s.requeue_host("docs.rs", 1100));
    let second = s.next_task(1100);
    assert_eq!(second.task.unwrap().url, "https://docs.rs/b");
}

#[test]
fn scheduler_wikipedia_waits_longer() {
    let mut s = CrawlScheduler::new(100);
    s.push_task(task("https://en.wikipedia.org/wiki/A", "en.wikipedia.org", 0, 1), 0);
    s.push_task(task("https://en.wikipedia.org/wiki/B", "en.wikipedia.org", 0, 1), 0);
    assert!(s.next_task(0).task.is_some());
    assert_eq!(s.complete_host("en.wikipedia.org", 0), Some(1200));
}

#[test]
fn scheduler_hosts_are_independent() {
    let mut s = CrawlScheduler::new(1000);
    s.push_task(task("https://docs.rs/a", "docs.rs", 0, 1), 0);
    s.push_task(task("https://go.dev/a", "go.dev", 0, 1), 0);
    let a = s.next_task(0).task.unwrap();
    let b = s.next_task(0).task.unwrap();
    assert_ne!(a.host, b.host);
    assert_eq!(s.stats(), (0, 2, 2));
}

#[test]
fn scheduler_push_during_delay_arms_timer() {
    let mut s = CrawlScheduler::new(1000);
    s.push_task(task("https://docs.rs/a", "docs.rs", 0, 1), 0);
    assert!(s.next_task(0).task.is_some());
    assert_eq!(s.complete_host("docs.rs", 0), None);
    let out = s.push_task(task("https://docs.rs/b", "docs.rs", 0, 1), 10);
    assert!(out.accepted);
    assert!(!out.notify_one);
    assert_eq!(out.wake_after_ms, Some(990));
}

#[test]
fn scheduler_early_timer_serves_nothing() {
    let mut s = CrawlScheduler::new(1000);
    s.push_task(task("https://docs.rs/a", "docs.rs", 0, 1), 0);
    s.push_task(task("https://docs.rs/b", "docs.rs", 0, 1), 0);
    assert!(s.next_task(0).task.is_some());
    assert_eq!(s.complete_host("docs.rs", 0), Some(1000));
    // a timer fires early after another wake-up: nothing is served, no new timer either
    assert!(!s.requeue_host("docs.rs", 999));
    let out = s.next_task(999);
    assert!(out.task.is_none());
}

#[test]
fn scheduler_close_refuses_and_finishes() {
    let mut s = CrawlScheduler::new(1000);
    s.push_task(task("https://docs.rs/a", "docs.rs", 0, 1), 0);
    s.close();
    assert!(!s.push_task(task("https://docs.rs/b", "docs.rs", 0, 1), 0).accepted);
    let t = s.next_task(0);
    assert!(t.task.is_some());
    assert!(!t.finished);
    s.complete_host("docs.rs", 0);
    let end = s.next_task(0);
    assert!(end.task.is_none());
    assert!(end.finished);
}

#[test]
fn scheduler_host_in_flight_through_other_calls() {
    let mut s = CrawlScheduler::new(1000);
    s.push_task(task("https://docs.rs/a", "docs.rs", 0, 10), 0);
    s.push_task(task("https://docs.rs/b", "docs.rs", 0, 5), 0);
    assert_eq!(s.next_task(0).task.unwrap().url, "https://docs.rs/a");
    s.push_task(task("https://go.dev/c", "go.dev", 0, 1), 10);
    s.push_task(task("https://docs.rs/d", "docs.rs", 0, 99), 10);
    assert!(!s.requeue_host("docs.rs", 20));
    assert_eq!(s.next_task(30).task.unwrap().host, "go.dev");
    let out = s.next_task(5000);
    assert!(out.task.is_none());
    assert!(!out.finished);
    assert_eq!(s.complete_host("docs.rs", 5000), Some(1000));
    assert!(s.requeue_host("docs.rs", 6000));
    assert_eq!(s.next_task(6000).task.unwrap().url, "https://docs.rs/d");
}
