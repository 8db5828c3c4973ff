use search_engine::harvest::{
    harvest_domain_allowed, hn_continue, hn_numeric_filters, hn_page, lobsters_page, merge_harvested,
    path_looks_binary, tildes_page, url_worth_harvesting,
};

fn strings(v: &[&str]) -> Vec<String> {
    v.iter().map(|s| s.to_string()).collect()
}

#[test]
fn harvest_domains() {
    assert!(harvest_domain_allowed("www.github.com"));
    assert!(harvest_domain_allowed("gist.github.com"));
    assert!(harvest_domain_allowed("lwn.net"));
    assert!(!harvest_domain_allowed("evil.com"));
    assert!(!harvest_domain_allowed("notgithub.com"));
}

#[test]
fn harvest_binary_paths() {
    assert!(path_looks_binary("/a/B.PDF"));
    assert!(path_looks_binary("/font.woff2"));
    assert!(!path_looks_binary("/post/1"));
}

#[test]
fn harvest_worthiness() {
    assert!(url_worth_harvesting("http://github.com/x"));
    assert!(url_worth_harvesting("https://lwn.net/Articles/1/"));
    assert!(!url_worth_harvesting("ftp://github.com/x"));
    assert!(!url_worth_harvesting("https://github.com/a.zip"));
    assert!(!url_worth_harvesting("https://evil.com/"));
    assert!(!url_worth_harvesting("not a url"));
}

#[test]
fn hn_pages() {
    let hits = vec![
        ("https://github.com/a".to_string(), 50),
        (String::new(), 20),
        ("https://evil.com/".to_string(), 0),
        ("https://lwn.net/b".to_string(), 30),
    ];
    let (urls, cursor) = hn_page(&hits);
    assert_eq!(urls, strings(&["https://github.com/a", "https://lwn.net/b"]));
    assert_eq!(cursor, Some(20));
    let (none, no_cursor) = hn_page(&[]);
    assert!(none.is_empty());
    assert_eq!(no_cursor, None);
}

#[test]
fn hn_paging() {
    assert!(hn_continue(0, 1000, Some(5)));
    assert!(!hn_continue(0, 999, Some(5)));
    assert!(!hn_continue(0, 1000, None));
    assert!(!hn_continue(499, 1000, Some(5)));
    assert_eq!(hn_numeric_filters(None), "points>100");
    assert_eq!(hn_numeric_filters(Some(1_700_000_000)), "points>100,created_at_i<1700000000");
    assert_eq!(hn_numeric_filters(Some(0)), "points>100,created_at_i<0");
}

#[test]
fn lobsters_pages() {
    let items = vec![
        (12, "https://lwn.net/x".to_string()),
        (9, "https://lwn.net/y".to_string()),
        (10, String::new()),
        (10, "https://lwn.net/z".to_string()),
    ];
    assert_eq!(lobsters_page(&items), strings(&["https://lwn.net/x", "https://lwn.net/z"]));
}

#[test]
fn tildes_pages() {
    let body = r#"<a href="https://lwn.net/a">a</a> <a href="https://tildes.net/~comp">t</a> <a href="http://github.com/b">b</a> <a href="/local">l</a>"#;
    let (urls, more) = tildes_page(body);
    assert_eq!(urls, strings(&["https://lwn.net/a", "http://github.com/b"]));
    assert!(more);
    let (none, stop) = tildes_page("No topics here");
    assert!(none.is_empty());
    assert!(!stop);
}

#[test]
fn merging_sorts_and_deduplicates() {
    let merged = merge_harvested(strings(&["b", "a"]), strings(&["a", "c"]), strings(&["b"]));
    assert_eq!(merged, strings(&["a", "b", "c"]));
    assert!(merge_harvested(Vec::new(), Vec::new(), Vec::new()).is_empty());
}

#[test]
fn www_listed_domains_match_their_hosts() {
    assert!(harvest_domain_allowed("www.hillelwayne.com"));
    assert!(harvest_domain_allowed("hillelwayne.com"));
    assert!(harvest_domain_allowed("www.aosabook.org"));
    assert!(harvest_domain_allowed("news.theregister.com"));
}

#[test]
fn harvest_ignores_www_and_takes_subdomains() {
    for h in ["hillelwayne.com", "aosabook.org", "example.com"] {
        assert_eq!(harvest_domain_allowed(&format!("www.{h}")), harvest_domain_allowed(h));
        if harvest_domain_allowed(h) {
            assert!(harvest_domain_allowed(&format!("blog.{h}")));
        }
    }
    assert!(!harvest_domain_allowed("example.com"));
}
