use search_engine::crawler::canon::canonicalize;
use search_engine::crawler::policy::{
    chunk_limit_for_host, discovery_limit_for_host, domain_cap, domain_rate_limit_ms,
    host_allowed, host_matches_rule, path_has_locale_segment, path_looks_binary, score_url,
    url_allowed, wiki_topic_allowed,
};

#[test]
fn host_rules_strip_www_and_match_subdomains() {
    assert!(host_matches_rule("www.docs.rs", "docs.rs"));
    assert!(host_matches_rule("sub.docs.rs", "docs.rs"));
    assert!(!host_matches_rule("notdocs.rs", "docs.rs"));
}

#[test]
fn rate_limit_is_raised_for_wikipedia() {
    assert_eq!(domain_rate_limit_ms(500, "en.wikipedia.org"), 1200);
    assert_eq!(domain_rate_limit_ms(2000, "en.wikipedia.org"), 2000);
    assert_eq!(domain_rate_limit_ms(500, "docs.rs"), 500);
}

#[test]
fn per_host_limits() {
    assert_eq!(discovery_limit_for_host("de.wikipedia.org"), 60);
    assert_eq!(discovery_limit_for_host("docs.rs"), 200);
    assert_eq!(chunk_limit_for_host("llvm.org"), 140);
    assert_eq!(chunk_limit_for_host("docs.rs"), 120);
    assert_eq!(chunk_limit_for_host("go.dev"), 220);
}

#[test]
fn domain_caps_exact_then_rules_then_default() {
    assert_eq!(domain_cap("docs.rs"), 30_000);
    assert_eq!(domain_cap("www.infoq.com"), 5_000);
    assert_eq!(domain_cap("infoq.com"), 5_000);
    assert_eq!(domain_cap("downloads.haskell.org"), 10_000);
    assert_eq!(domain_cap("unknown.example"), 2_000);
}

#[test]
fn allowlist_and_paths() {
    assert!(host_allowed("docs.rs"));
    assert!(host_allowed("www.docs.rs"));
    assert!(!host_allowed("evil.com"));
    assert!(path_looks_binary("/files/Archive.TAR.GZ"));
    assert!(!path_looks_binary("/guide/intro"));
    assert!(path_has_locale_segment("/docs/DE/intro"));
    assert!(!path_has_locale_segment("/docs/design"));
    assert!(wiki_topic_allowed("compiler_construction"));
    assert!(!wiki_topic_allowed("football"));
}

#[test]
fn url_policy() {
    let ok = canonicalize("https://en.wikipedia.org/wiki/Compiler").unwrap();
    assert!(url_allowed(&ok));
    let off_topic = canonicalize("https://en.wikipedia.org/wiki/Football").unwrap();
    assert!(!url_allowed(&off_topic));
    let with_tracking = canonicalize("https://docs.rs/tokio?utm_source=x").unwrap();
    assert!(!url_allowed(&with_tracking));
    let so = canonicalize("https://stackoverflow.com/users/1").unwrap();
    assert!(!url_allowed(&so));
    let so_q = canonicalize("https://stackoverflow.com/questions/1").unwrap();
    assert!(url_allowed(&so_q));
}

#[test]
fn url_scores() {
    let u = canonicalize("https://docs.rs/tokio/latest/tokio/guide/x").unwrap();
    // 100 at depth 0, +50 for /guide/, +30 for an S-tier host
    assert_eq!(score_url(&u, 0), 180);
    assert_eq!(score_url(&u, 3), 150);
    let q = canonicalize("https://go.dev/blob/x?a=1").unwrap();
    // 100 - 70 (/blob/) - 20 (query)
    assert_eq!(score_url(&q, 0), 10);
}

#[test]
fn allowlist_ignores_www_and_takes_subdomains() {
    for h in ["docs.rs", "go.dev", "example.com", "jvns.ca"] {
        assert_eq!(host_allowed(&format!("www.{h}")), host_allowed(h));
        if host_allowed(h) {
            assert!(host_allowed(&format!("api.{h}")));
        }
    }
    assert!(host_allowed("api.docs.rs"));
    assert!(!host_allowed("example.com"));
}
