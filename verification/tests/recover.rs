use search_engine::crawler::recover::{
    content_host, interval_days, last_fetch_of, recrawl_candidate, recrawl_due, recrawl_interval_ms,
    recrawl_task, RecrawlSkip,
};

#[test]
fn recrawl_candidates() {
    assert!(recrawl_candidate("https://docs.rs/tokio").is_ok());
    assert_eq!(recrawl_candidate("https://evil.com/").err(), Some(RecrawlSkip::Disallowed));
    assert_eq!(recrawl_candidate("nope").err(), Some(RecrawlSkip::InvalidUrl));
}

#[test]
fn recrawl_intervals() {
    assert_eq!(interval_days(86_400_000 * 3 + 5), 3);
    assert_eq!(interval_days(-86_400_000 * 2 - 1), -2);
    assert_eq!(recrawl_interval_ms(2, 5), 172_800_000);
    assert_eq!(recrawl_interval_ms(0, 5), 5);
}

#[test]
fn recrawl_due_dates() {
    assert_eq!(last_fetch_of(Some((10, 20))), 20);
    assert_eq!(last_fetch_of(Some((30, 20))), 30);
    assert_eq!(last_fetch_of(None), 0);
    assert!(recrawl_due(100, 0, 50));
    assert!(!recrawl_due(100, 60, 50));
    assert!(recrawl_due(200, 100, 50));
    assert!(recrawl_due(150, 100, 50));
    assert!(!recrawl_due(i64::MIN, 1, 50));
}

#[test]
fn recrawl_tasks_keep_the_stored_url() {
    let u = recrawl_candidate("https://docs.rs/tokio").unwrap();
    let t = recrawl_task("https://docs.rs/tokio", &u);
    assert_eq!(t.url, "https://docs.rs/tokio");
    assert_eq!(t.host, "docs.rs");
    assert_eq!(t.depth, 0);
    assert_eq!(t.priority, 130);
}

#[test]
fn content_hosts() {
    assert_eq!(content_host("https://docs.rs/x"), Some("docs.rs".to_string()));
    assert_eq!(content_host("nope"), None);
}
