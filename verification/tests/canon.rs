use search_engine::crawler::canon::canonicalize;

#[test]
fn rejects_non_https() {
    assert!(canonicalize("ftp://example.com/file").is_none());
    assert!(canonicalize("javascript:void(0)").is_none());
}

#[test]
fn lowercases_host() {
    let result = canonicalize("https://Docs.RS/tokio").unwrap();
    assert_eq!(result.host_str().unwrap(), "docs.rs");
}

#[test]
fn strips_trailing_slash() {
    let a = canonicalize("https://example.com/path/").unwrap();
    let b = canonicalize("https://example.com/path").unwrap();
    assert_eq!(a.as_str(), b.as_str());
}

#[test]
fn sorts_query_parameters() {
    let u = canonicalize("https://example.com/search?z=9&a=1").unwrap();
    assert_eq!(u.as_str(), "https://example.com/search?a=1&z=9");
}

#[test]
fn drops_fragment_port_and_credentials() {
    let u = canonicalize("https://user:pw@example.com:8443/a/b#frag").unwrap();
    assert_eq!(u.as_str(), "https://example.com/a/b");
}

#[test]
fn rejects_localhost_and_dotless_hosts() {
    assert!(canonicalize("https://localhost/x").is_none());
    assert!(canonicalize("https://intranet/x").is_none());
}

#[test]
fn rejects_empty_and_control_characters() {
    assert!(canonicalize("").is_none());
    assert!(canonicalize("https://example.com/a\u{7}b").is_none());
}

#[test]
fn empty_query_is_dropped() {
    let u = canonicalize("https://example.com/p?").unwrap();
    assert_eq!(u.as_str(), "https://example.com/p");
}

#[test]
fn root_path_keeps_its_slash() {
    let u = canonicalize("https://example.com//").unwrap();
    assert_eq!(u.as_str(), "https://example.com/");
}

#[test]
fn canonical_query_is_form_encoded() {
    let u = canonicalize("https://docs.rs/x?q=%C3%89t%C3%A9+x&a=1*").unwrap();
    assert_eq!(u.as_str(), "https://docs.rs/x?a=1*&q=%C3%89t%C3%A9+x");
    let u = canonicalize("https://docs.rs/x?k=a%2Fb%26c").unwrap();
    assert_eq!(u.as_str(), "https://docs.rs/x?k=a%2Fb%26c");
}
