use search_engine::prune::{classify_url, PruneReason, PruneTally};

#[test]
fn prune_labels() {
    assert_eq!(PruneReason::InvalidUrl.label(), "invalid_url");
    assert_eq!(PruneReason::DisallowedByPolicy.label(), "disallowed_by_policy");
    assert_eq!(PruneReason::NonHighQualityHost.label(), "non_high_quality_host");
}

#[test]
fn prune_classification() {
    let any = |_: &str| true;
    assert_eq!(classify_url("not a url", false, any), Some(("<invalid-url>".to_string(), PruneReason::InvalidUrl)));
    assert_eq!(
        classify_url("https://evil.com/x", false, any),
        Some(("evil.com".to_string(), PruneReason::DisallowedByPolicy))
    );
    assert_eq!(classify_url("https://docs.rs/tokio", false, any), None);
}

#[test]
fn prune_non_high_quality_hosts_when_asked() {
    let only_python = |h: &str| h == "docs.python.org";
    assert_eq!(
        classify_url("https://docs.rs/tokio", true, only_python),
        Some(("docs.rs".to_string(), PruneReason::NonHighQualityHost))
    );
    assert_eq!(classify_url("https://docs.rs/tokio", false, only_python), None);
    assert_eq!(classify_url("https://docs.python.org/3/", true, only_python), None);
    assert_eq!(
        classify_url("not a url", true, only_python),
        Some(("<invalid-url>".to_string(), PruneReason::InvalidUrl))
    );
}

#[test]
fn prune_tallies() {
    let mut t = PruneTally::new();
    t.note_reason("evil.com", PruneReason::DisallowedByPolicy);
    t.note_reason("<invalid-url>", PruneReason::InvalidUrl);
    t.note_reason("evil.com", PruneReason::DisallowedByPolicy);
    assert_eq!(t.reason_counts(), (1, 2, 0));
    assert_eq!(
        t.host_counts(),
        &vec![("evil.com".to_string(), 2), ("<invalid-url>".to_string(), 1)]
    );
}
