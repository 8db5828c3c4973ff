use search_engine::crawler::fetch::{begin_fetch, fetch_step, FetchAction, FetchEvent, FetchState, ResponseHead, Validators};
use search_engine::crawler::types::{FetchResult, RejectReason, UrlTask};

fn task(url: &str, host: &str) -> UrlTask {
    UrlTask { url: url.to_string(), host: host.to_string(), depth: 0, priority: 0 }
}

fn head(status: u16, url: &str, host: &str, content_type: &str) -> ResponseHead {
    ResponseHead {
        status,
        url: url.to_string(),
        host: Some(host.to_string()),
        etag: None,
        last_modified: None,
        x_robots_tags: Vec::new(),
        content_type: content_type.to_string(),
    }
}

fn finished(a: FetchAction) -> Result<FetchResult, RejectReason> {
    match a {
        FetchAction::Finish(outcome) => outcome,
        _ => panic!("the fetch should be over"),
    }
}

/// Runs a fetch of docs.rs up to the response.
fn up_to_response(stored: Option<Validators>) -> FetchState {
    let (s, a) = begin_fetch(task("https://docs.rs/tokio", "docs.rs"));
    assert!(matches!(a, FetchAction::CheckDns));
    let (s, a) = fetch_step(s, FetchEvent::DnsChecked(true));
    assert!(matches!(a, FetchAction::FetchRules));
    let (s, a) = fetch_step(s, FetchEvent::Rules(vec!["/private".to_string()]));
    assert!(matches!(a, FetchAction::LoadStored));
    let (s, a) = fetch_step(s, FetchEvent::Stored(stored));
    assert!(matches!(a, FetchAction::Send));
    s
}

#[test]
fn fetch_of_bad_url_ends_at_once() {
    let (s, a) = begin_fetch(task("not a url", "x"));
    assert!(matches!(s, FetchState::Finished));
    assert_eq!(finished(a).err(), Some(RejectReason::BadUrl));
}

#[test]
fn fetch_rejects_on_dns_and_robots() {
    let (s, _) = begin_fetch(task("https://docs.rs/tokio", "docs.rs"));
    assert_eq!(finished(fetch_step(s, FetchEvent::DnsChecked(false)).1).err(), Some(RejectReason::DnsFailed));
    let (s, _) = begin_fetch(task("https://docs.rs/tokio", "docs.rs"));
    let (s, _) = fetch_step(s, FetchEvent::DnsChecked(true));
    let (_, a) = fetch_step(s, FetchEvent::Rules(vec!["/tok".to_string()]));
    assert_eq!(finished(a).err(), Some(RejectReason::RobotsBlocked));
}

#[test]
fn fetch_reads_html_page_on_same_host() {
    let s = up_to_response(None);
    let mut h = head(200, "https://docs.rs/tokio", "docs.rs", "text/html; charset=utf-8");
    h.etag = Some("\"v2\"".to_string());
    h.x_robots_tags = vec!["NOINDEX".to_string()];
    let (s, a) = fetch_step(s, FetchEvent::Response(h));
    assert!(matches!(a, FetchAction::ReadBody));
    let (s, a) = fetch_step(s, FetchEvent::Body(Some("<html></html>".to_string())));
    assert!(matches!(s, FetchState::Finished));
    let res = finished(a).unwrap();
    assert_eq!(res.final_url, "https://docs.rs/tokio");
    assert_eq!(res.final_host, "docs.rs");
    assert_eq!(res.html, "<html></html>");
    assert!(res.x_robots_noindex);
    assert_eq!(res.etag.as_deref(), Some("\"v2\""));
    assert_eq!(res.last_modified, None);
    assert!(!res.not_modified);
}

#[test]
fn fetch_not_modified_keeps_stored_validators() {
    let stored = Validators { etag: Some("\"v1\"".to_string()), last_modified: Some("Mon".to_string()) };
    let s = up_to_response(Some(stored));
    let mut h = head(304, "https://docs.rs/tokio", "docs.rs", "");
    h.last_modified = Some("Tue".to_string());
    let (_, a) = fetch_step(s, FetchEvent::Response(h));
    let res = finished(a).unwrap();
    assert!(res.not_modified);
    assert_eq!(res.html, "");
    assert_eq!(res.etag.as_deref(), Some("\"v1\""));
    assert_eq!(res.last_modified.as_deref(), Some("Tue"));
}

#[test]
fn fetch_rejections_after_response() {
    let s = up_to_response(None);
    assert_eq!(finished(fetch_step(s, FetchEvent::SendFailed).1).err(), Some(RejectReason::Http5xx));
    let s = up_to_response(None);
    let (_, a) = fetch_step(s, FetchEvent::Response(head(404, "https://docs.rs/tokio", "docs.rs", "text/html")));
    assert_eq!(finished(a).err(), Some(RejectReason::Http4xx));
    let s = up_to_response(None);
    let (_, a) = fetch_step(s, FetchEvent::Response(head(200, "https://docs.rs/tokio", "docs.rs", "image/png")));
    assert_eq!(finished(a).err(), Some(RejectReason::NotHtml));
    let s = up_to_response(None);
    let (_, a) = fetch_step(s, FetchEvent::Response(head(200, "https://example.com/", "example.com", "text/html")));
    assert_eq!(finished(a).err(), Some(RejectReason::RedirectDisallowed));
    let s = up_to_response(None);
    let (s, _) = fetch_step(s, FetchEvent::Response(head(200, "https://docs.rs/tokio", "docs.rs", "text/html")));
    assert_eq!(finished(fetch_step(s, FetchEvent::Body(None)).1).err(), Some(RejectReason::BodyReadErr));
}

#[test]
fn fetch_redirect_to_other_host_asks_its_rules() {
    let s = up_to_response(None);
    let (s, a) = fetch_step(
        s,
        FetchEvent::Response(head(200, "https://doc.rust-lang.org/book/", "doc.rust-lang.org", "text/html")),
    );
    assert!(matches!(a, FetchAction::FetchFinalRules));
    match &s {
        FetchState::AwaitFinalRules { final_host, .. } => assert_eq!(final_host, "doc.rust-lang.org"),
        _ => panic!("the fetch should wait for the final host's rules"),
    }
    let (_, a) = fetch_step(s, FetchEvent::Rules(vec!["/book".to_string()]));
    assert_eq!(finished(a).err(), Some(RejectReason::RedirectRobotsBlocked));
}
