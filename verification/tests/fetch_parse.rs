use search_engine::crawler::canon::canonicalize;
use search_engine::crawler::fetch::{
    classify_status, is_html_content_type, parse_task_url, screen_redirect, x_robots_has_noindex,
    StatusVerdict,
};
use search_engine::crawler::parse::{assess_page, extract_links, links_from_hrefs, resolve_page_canonical};
use search_engine::crawler::types::RejectReason;

#[test]
fn status_codes() {
    assert_eq!(classify_status(200), StatusVerdict::Proceed);
    assert_eq!(classify_status(204), StatusVerdict::Proceed);
    assert_eq!(classify_status(304), StatusVerdict::NotModified);
    assert_eq!(classify_status(404), StatusVerdict::Reject(RejectReason::Http4xx));
    assert_eq!(classify_status(403), StatusVerdict::Reject(RejectReason::Http4xx));
    assert_eq!(classify_status(301), StatusVerdict::Reject(RejectReason::Http4xx));
    assert_eq!(classify_status(429), StatusVerdict::Reject(RejectReason::Http5xx));
    assert_eq!(classify_status(503), StatusVerdict::Reject(RejectReason::Http5xx));
}

#[test]
fn task_urls_must_parse() {
    assert_eq!(parse_task_url("not a url").err(), Some(RejectReason::BadUrl));
    assert!(parse_task_url("https://docs.rs/tokio").is_ok());
}

#[test]
fn redirects_are_screened() {
    let ok = screen_redirect("https://docs.rs/tokio/").unwrap();
    assert_eq!(ok.as_str(), "https://docs.rs/tokio");
    assert_eq!(screen_redirect("http://docs.rs/").err(), Some(RejectReason::RedirectBadUrl));
    assert_eq!(screen_redirect("https://example.com/").err(), Some(RejectReason::RedirectDisallowed));
    assert_eq!(screen_redirect("https://docs.rs/a.pdf").err(), Some(RejectReason::RedirectFiltered));
}

#[test]
fn content_types_and_robots_headers() {
    assert!(is_html_content_type("Text/HTML; charset=utf-8"));
    assert!(is_html_content_type("application/xhtml+xml"));
    assert!(!is_html_content_type("application/json"));
    assert!(x_robots_has_noindex(&["NOINDEX, nofollow".to_string()]));
    assert!(x_robots_has_noindex(&["all".to_string(), "none".to_string()]));
    assert!(!x_robots_has_noindex(&["all".to_string()]));
    assert!(!x_robots_has_noindex(&[]));
}

#[test]
fn links_are_joined_canonical_allowed_and_unique() {
    let base = canonicalize("https://docs.rs/crates").unwrap();
    let hrefs = vec![
        Some("/tokio/".to_string()),
        Some("https://go.dev/doc".to_string()),
        None,
        Some("/tokio".to_string()),
        Some("https://example.com/".to_string()),
        Some("/file.zip".to_string()),
    ];
    let links = links_from_hrefs(&base, &hrefs);
    assert_eq!(links, vec!["https://docs.rs/tokio".to_string(), "https://go.dev/doc".to_string()]);
}

#[test]
fn links_stop_at_discovery_limit() {
    let base = canonicalize("https://en.wikipedia.org/wiki/Computer").unwrap();
    let hrefs: Vec<Option<String>> = (0..70).map(|i| Some(format!("/wiki/Computer_{i}"))).collect();
    let links = links_from_hrefs(&base, &hrefs);
    assert_eq!(links.len(), 60);
    assert_eq!(links[0], "https://en.wikipedia.org/wiki/Computer_0");
}

#[test]
fn links_from_html() {
    let base = canonicalize("https://docs.rs/crates").unwrap();
    let html = r#"<html><body><a href="/serde">s</a><a name="x">n</a><a href="https://go.dev/doc">g</a></body></html>"#;
    let links = extract_links(&base, html);
    assert_eq!(links, vec!["https://docs.rs/serde".to_string(), "https://go.dev/doc".to_string()]);
}

#[test]
fn declared_canonical_urls() {
    let base = canonicalize("https://docs.rs/crates").unwrap();
    assert_eq!(resolve_page_canonical(&base, Some("  /serde  ")), Some("https://docs.rs/serde".to_string()));
    assert_eq!(resolve_page_canonical(&base, Some("   ")), None);
    assert_eq!(resolve_page_canonical(&base, None), None);
    assert_eq!(resolve_page_canonical(&base, Some("https://example.com/")), None);
}

#[test]
fn page_quality() {
    assert_eq!(assess_page(false, false, &[300, 200]), Ok((500, 2)));
    assert_eq!(assess_page(true, false, &[300, 200]), Err(RejectReason::NoIndex));
    assert_eq!(assess_page(false, true, &[]), Err(RejectReason::NoIndex));
    assert_eq!(assess_page(false, false, &[500]), Err(RejectReason::LowText));
    assert_eq!(assess_page(false, false, &[100, 100]), Err(RejectReason::LowText));
}
