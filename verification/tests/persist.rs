use search_engine::crawler::persist::{
    distinct_outlinks, finish_task, now_ms, seed_urls_from_text, task_candidate,
    timestamp_from_millis, unique_aliases, SeedError, MAX_DEPTH,
};

fn strings(v: &[&str]) -> Vec<String> {
    v.iter().map(|s| s.to_string()).collect()
}

#[test]
fn candidates_respect_depth_and_policy() {
    let u = task_candidate("https://docs.rs/tokio/", 0).unwrap();
    assert_eq!(u.as_str(), "https://docs.rs/tokio");
    assert!(task_candidate("https://docs.rs/tokio", MAX_DEPTH + 1).is_none());
    assert!(task_candidate("https://evil.com/x", 0).is_none());
    assert!(task_candidate("http://docs.rs/tokio", 0).is_none());
}

#[test]
fn finishing_a_task_scores_it() {
    let u = task_candidate("https://docs.rs/tokio", 2).unwrap();
    let t = finish_task(u, 2, 0, false, false, None).unwrap();
    assert_eq!(t.url, "https://docs.rs/tokio");
    assert_eq!(t.host, "docs.rs");
    assert_eq!(t.depth, 2);
    // 100 - 20 for depth 2, +30 for an S-tier host
    assert_eq!(t.priority, 110);
}

#[test]
fn finishing_refuses_capped_seen_stored_and_robots_blocked() {
    let cand = || task_candidate("https://docs.rs/tokio", 0).unwrap();
    assert!(finish_task(cand(), 0, 30_000, false, false, None).is_none());
    assert!(finish_task(cand(), 0, 29_999, false, false, None).is_some());
    assert!(finish_task(cand(), 0, 0, true, false, None).is_none());
    assert!(finish_task(cand(), 0, 0, false, true, None).is_none());
    let rules = strings(&["/tok"]);
    assert!(finish_task(cand(), 0, 0, false, false, Some(&rules)).is_none());
    let other = strings(&["/serde"]);
    assert!(finish_task(cand(), 0, 0, false, false, Some(&other)).is_some());
}

#[test]
fn aliases_drop_empty_and_repeats() {
    assert_eq!(unique_aliases(strings(&["a", "", "b", "a", "b"])), strings(&["a", "b"]));
    assert_eq!(unique_aliases(Vec::new()), Vec::<String>::new());
}

#[test]
fn outlinks_drop_repeats_only() {
    assert_eq!(distinct_outlinks(strings(&["a", "", "a", ""])), strings(&["a", ""]));
}

#[test]
fn seeds_are_found_trimmed_and_deduplicated() {
    let text = "See https://docs.rs/tokio. and (https://go.dev/doc), again https://docs.rs/tokio";
    let seeds = seed_urls_from_text(text).unwrap();
    assert_eq!(seeds, strings(&["https://docs.rs/tokio", "https://go.dev/doc"]));
}

#[test]
fn seeds_missing_is_an_error() {
    assert_eq!(seed_urls_from_text("no links here, only http://plain.example"), Err(SeedError::NoSeeds));
}

#[test]
fn timestamps() {
    assert_eq!(timestamp_from_millis(Some(1_700_000_000_123)), 1_700_000_000_123);
    assert_eq!(timestamp_from_millis(None), 0);
    assert!(now_ms() > 1_600_000_000_000);
}
