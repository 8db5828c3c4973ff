use search_engine::crawler::robots::{is_allowed, parse_robots_txt, parse_stored_rules, store_rules};

#[test]
fn robots_wildcard_group_only() {
    let txt = "User-agent: *\nDisallow: /private\n# comment\nDisallow:\n\nUser-agent: bot\nDisallow: /x\nUser-agent: *\nDISALLOW : /tmp \n";
    assert_eq!(parse_robots_txt(txt), vec!["/private".to_string(), "/tmp".to_string()]);
    assert!(parse_robots_txt("").is_empty());
}

#[test]
fn robots_paths() {
    let rules = vec!["/private".to_string(), String::new()];
    assert!(!is_allowed("/private/x", &rules));
    assert!(is_allowed("/public", &rules));
    assert!(is_allowed("/anything", &[]));
}

#[test]
fn robots_rules_round_trip_through_the_store() {
    let rules = parse_robots_txt("User-agent: *\r\nDisallow: /a\r\nDisallow: /b c\r\n");
    assert_eq!(rules, vec!["/a".to_string(), "/b c".to_string()]);
    let stored = store_rules(&rules);
    assert_eq!(stored, "/a\n/b c");
    assert_eq!(parse_stored_rules(&stored), rules);
    assert!(parse_stored_rules(&store_rules(&[])).is_empty());
    assert_eq!(parse_stored_rules("  /x  \n\n /y\n"), vec!["/x".to_string(), "/y".to_string()]);
}

#[test]
fn joined_rules_allow_only_what_both_allow() {
    let a = vec!["/private".to_string()];
    let b = vec!["/tmp".to_string(), "".to_string()];
    let ab: Vec<String> = [a.clone(), b.clone()].concat();
    for p in ["/private/x", "/tmp/y", "/public", "/"] {
        assert_eq!(is_allowed(p, &ab), is_allowed(p, &a) && is_allowed(p, &b));
    }
    assert!(is_allowed("/anything", &[]));
}
