use search_engine::config::{
    config_path_from, default_bulk_intra_threads, default_bulk_workers, default_ef_search_identifier,
    default_ef_search_long, default_ef_search_short, default_host_allowlist, default_host_cap_divisor,
    default_host_cap_max, default_host_cap_min, default_host_hard_cap, default_host_penalty_list,
    default_lexical_only_fallback_enabled, default_lexical_only_pool_cap,
    default_lexical_only_pool_mult, default_lexical_relaxed_extra_k,
    default_lexical_relaxed_fallback_enabled, default_lexical_relaxed_min_hits, default_recrawl_days,
    default_rerank_enabled, default_rerank_pool_size, default_seeds_path, default_vector_delta_path,
    default_window_overlap, default_window_size,
};
use search_engine::crawler::types::{RejectReason, UrlTask};
use std::cmp::Ordering;

#[test]
fn config_defaults() {
    assert_eq!(default_bulk_workers(), 2);
    assert_eq!(default_bulk_intra_threads(), 4);
    assert_eq!(default_window_size(), 3);
    assert_eq!(default_window_overlap(), 1);
    assert_eq!(default_recrawl_days(), 30);
    assert_eq!(default_host_cap_divisor(), 4);
    assert_eq!(default_host_cap_min(), 2);
    assert_eq!(default_host_cap_max(), 3);
    assert!(default_lexical_only_fallback_enabled());
    assert_eq!(default_lexical_only_pool_mult(), 20);
    assert_eq!(default_lexical_only_pool_cap(), 1_000);
    assert!(default_lexical_relaxed_fallback_enabled());
    assert_eq!(default_lexical_relaxed_min_hits(), 4);
    assert_eq!(default_lexical_relaxed_extra_k(), 200);
    assert_eq!(default_ef_search_short(), 120);
    assert_eq!(default_ef_search_long(), 80);
    assert_eq!(default_ef_search_identifier(), 150);
    assert_eq!(default_host_hard_cap(), None);
    assert!(default_host_allowlist().is_empty());
    assert!(default_host_penalty_list().is_empty());
    assert!(!default_rerank_enabled());
    assert_eq!(default_rerank_pool_size(), 20);
    assert_eq!(default_vector_delta_path(), "./hnsw_delta.bin");
    assert_eq!(default_seeds_path(), "./seeds.md");
}

#[test]
fn config_path_choice() {
    assert_eq!(config_path_from(None), "config.toml");
    assert_eq!(config_path_from(Some("/etc/se.toml".to_string())), "/etc/se.toml");
}

#[test]
fn reject_reason_labels() {
    assert_eq!(RejectReason::BadUrl.as_str(), "bad_url");
    assert_eq!(RejectReason::DnsFailed.as_str(), "dns_fail");
    assert_eq!(RejectReason::Http5xx.as_str(), "http_5xx");
    assert_eq!(RejectReason::RedirectDisallowed.as_str(), "redirect_disallowed");
}

#[test]
fn task_order() {
    let a = UrlTask { url: "a".into(), host: "h".into(), depth: 1, priority: 10 };
    let b = UrlTask { url: "b".into(), host: "h".into(), depth: 2, priority: 10 };
    let c = UrlTask { url: "c".into(), host: "h".into(), depth: 0, priority: 5 };
    assert_eq!(a.cmp_priority(&b), Ordering::Greater);
    assert_eq!(b.cmp_priority(&a), Ordering::Less);
    assert_eq!(a.cmp_priority(&c), Ordering::Greater);
    assert_eq!(a.cmp_priority(&a.duplicate()), Ordering::Equal);
}

#[test]
fn reject_reason_labels_are_distinct() {
    let all = [
        RejectReason::BadUrl,
        RejectReason::ScopeFiltered,
        RejectReason::RobotsBlocked,
        RejectReason::RedirectFiltered,
        RejectReason::RedirectRobotsBlocked,
        RejectReason::DnsFailed,
        RejectReason::Timeout,
        RejectReason::Http4xx,
        RejectReason::Http5xx,
        RejectReason::NotHtml,
        RejectReason::NoIndex,
        RejectReason::LowText,
        RejectReason::Duplicate,
        RejectReason::AlreadyStored,
        RejectReason::ParsePanic,
        RejectReason::BodyReadErr,
        RejectReason::RedirectBadUrl,
        RejectReason::RedirectNoHost,
        RejectReason::RedirectDisallowed,
    ];
    let labels: std::collections::HashSet<&str> = all.iter().map(|r| r.as_str()).collect();
    assert_eq!(labels.len(), all.len());
}
