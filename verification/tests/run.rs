use search_engine::crawler::run::{
    crawl_finished, fetch_aliases, page_aliases, recrawl_after_ms, reject_host, target_new_pages,
};

#[test]
fn crawl_targets() {
    assert_eq!(target_new_pages(100, 30), 70);
    assert_eq!(target_new_pages(10, 30), 0);
}

#[test]
fn crawl_end() {
    assert!(crawl_finished(0, 0, 0, 0, 0));
    assert!(!crawl_finished(0, 1, 0, 0, 0));
    assert!(crawl_finished(1, 0, 0, 5, 5));
    assert!(!crawl_finished(1, 0, 0, 0, 100));
}

#[test]
fn rejection_hosts_and_intervals() {
    assert_eq!(reject_host("a.org", ""), "a.org");
    assert_eq!(reject_host("a.org", "b.org"), "b.org");
    assert_eq!(recrawl_after_ms(30), 2_592_000_000);
}

#[test]
fn aliases_of_fetched_pages() {
    assert_eq!(page_aliases("u", "f", "f", "", "u"), vec!["u".to_string(), "f".to_string()]);
    assert_eq!(fetch_aliases("u", "u"), vec!["u".to_string()]);
    assert_eq!(fetch_aliases("u", ""), vec!["u".to_string()]);
}
