use search_engine::chunking::context::{with_context, with_context_depth, with_embed_context};

#[test]
fn embed_context_drops_heading_equal_to_title() {
    let chain = vec!["Guide".to_string(), "Install".to_string()];
    assert_eq!(with_embed_context(Some("Guide"), &chain, "Run it.", 2), "Guide\nInstall\nRun it.");
}

#[test]
fn embed_context_without_title_keeps_repeated_headings() {
    let chain = vec!["H".to_string(), "H".to_string()];
    assert_eq!(with_embed_context(None, &chain, "b", 2), "H\nH\nb");
    assert_eq!(with_embed_context(Some(""), &chain, "b", 2), "H\nH\nb");
}

#[test]
fn embed_context_depth_limits_headings() {
    let chain = vec!["A".to_string(), "B".to_string(), "C".to_string()];
    assert_eq!(with_embed_context(Some("T"), &chain, "x", 1), "T\nC\nx");
    assert_eq!(with_embed_context(Some("T"), &chain, "x", 0), "T\nx");
}

#[test]
fn context_lines() {
    let chain = vec!["A".to_string(), "B".to_string()];
    assert_eq!(with_context(&chain, "s"), "A\nB\ns");
    assert_eq!(with_context_depth(&chain, "s", 1), "B\ns");
    assert_eq!(with_context(&[], "s"), "s");
}
