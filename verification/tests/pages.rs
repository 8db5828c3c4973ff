use search_engine::chunking::pages::{
    build_chunks, chunk_limit_for_page, make_chunk_id, optional_text, page_content_hash,
    page_from_record, record_body, text_to_blocks, PageBlock, PageDoc,
};
use search_engine::config::ChunkingConfig;

fn block(headings: &[&str], text: &str) -> PageBlock {
    PageBlock { heading_chain: headings.iter().map(|h| h.to_string()).collect(), text: text.to_string() }
}

#[test]
fn content_hash_is_sha256_hex() {
    assert_eq!(
        page_content_hash(b"abc"),
        "ba7816bf8f01cfea414140de5dae2223b00361a396177a9cb410ff61f20015ad"
    );
}

#[test]
fn chunk_ids_hash_url_content_and_position() {
    assert_eq!(
        make_chunk_id("u", "h", 12),
        "b77942ceee6d93a69c8cac3b65cbb3961c970047631604ad124833da2354b474"
    );
    assert_ne!(make_chunk_id("u", "h", 1), make_chunk_id("u", "h", 2));
}

#[test]
fn chunk_limits_per_page() {
    assert_eq!(chunk_limit_for_page("https://en.wikipedia.org/wiki/X"), 120);
    assert_eq!(chunk_limit_for_page("https://go.dev/doc"), 220);
    assert_eq!(chunk_limit_for_page("not a url"), 220);
}

#[test]
fn pages_become_chained_contextual_chunks() {
    let cfg = ChunkingConfig { context_depth: 2, window_size: 3, window_overlap: 1 };
    let page = PageDoc {
        url: "https://docs.rs/x".to_string(),
        title: "Rust".to_string(),
        description: None,
        blocks: vec![
            block(&["Rust", "Intro"], "Rust is fast. It is safe."),
            block(&[], "This matters. Here are steps:"),
            block(&["Usage"], "It works."),
        ],
    };
    let chunks = build_chunks(&cfg, &page, "h1");
    assert_eq!(chunks.len(), 3);

    assert_eq!(chunks[0].id, "f18d7c50a02cc2c9f77dbedda1cb700ef4d1bc52ec7863b1f84a4358cd3592dd");
    assert_eq!(chunks[0].text, "Rust\nIntro\nRust is fast. It is safe.");
    assert_eq!(chunks[0].embed_text.as_deref(), Some("Rust\nIntro\nRust is fast. It is safe."));
    assert!(chunks[0].is_leaf);
    assert_eq!(chunks[0].source_url, "https://docs.rs/x");
    assert_eq!(chunks[0].page_title.as_deref(), Some("Rust"));

    assert_eq!(chunks[1].id, "f4f695c0a739213257a0f989a051296e1d466cb6e88282f78dd313ea3744d741");
    assert_eq!(chunks[1].text, "This matters. Here are steps:");
    assert!(!chunks[1].is_leaf);

    assert_eq!(chunks[2].text, "Usage\nThis matters. Here are steps: It works.");
    assert_eq!(chunks[2].embed_text.as_deref(), Some("Rust\nUsage\nThis matters. Here are steps: It works."));
    assert!(chunks[2].is_leaf);
    assert_eq!(chunks[2].heading_chain, vec!["Usage".to_string()]);
}

#[test]
fn chunking_stops_at_the_page_limit() {
    let cfg = ChunkingConfig { context_depth: 0, window_size: 1, window_overlap: 0 };
    let text: String = (0..130).map(|i| format!("Sentence number {i} here.\n")).collect();
    let page = PageDoc {
        url: "https://en.wikipedia.org/wiki/Compiler".to_string(),
        title: String::new(),
        description: None,
        blocks: vec![block(&[], &text), block(&[], "More text.")],
    };
    let chunks = build_chunks(&cfg, &page, "h");
    assert_eq!(chunks.len(), 120);
    assert_eq!(chunks[0].text, "Sentence number 0 here.");
    assert_eq!(chunks[119].embed_text.as_deref(), Some("Sentence number 119 here."));
}

#[test]
fn plain_text_becomes_paragraph_blocks() {
    let blocks = text_to_blocks("  First para.\n\n\n\nSecond\nline.\n\n   \n\nThird.  ");
    let texts: Vec<&str> = blocks.iter().map(|b| b.text.as_str()).collect();
    assert_eq!(texts, vec!["First para.", "Second\nline.", "Third."]);
    assert!(blocks.iter().all(|b| b.heading_chain.is_empty()));
    assert!(text_to_blocks("").is_empty());
    assert!(text_to_blocks("\n\n").is_empty());
}

#[test]
fn record_fields() {
    assert_eq!(optional_text(Some("  x ")), Some("x".to_string()));
    assert_eq!(optional_text(Some("   ")), None);
    assert_eq!(optional_text(None), None);
    assert_eq!(record_body(&[None, Some("  "), Some(" body "), Some("later")]), Some("body".to_string()));
    assert_eq!(record_body(&[None, Some("")]), None);
}

#[test]
fn records_become_pages() {
    let page = page_from_record(Some(" https://x.org/a "), None, Some(" d "), None, &[None, Some("One.\n\nTwo.")]).unwrap();
    assert_eq!(page.url, "https://x.org/a");
    assert_eq!(page.title, "https://x.org/a");
    assert_eq!(page.description, Some("d".to_string()));
    assert_eq!(page.blocks.len(), 2);
    assert!(page_from_record(None, Some("t"), None, None, &[Some("text")]).is_none());
    assert!(page_from_record(Some("u"), None, None, None, &[Some("   ")]).is_none());
    assert!(page_from_record(Some("u"), None, None, Some(Vec::new()), &[Some("text")]).is_none());
    let given = page_from_record(Some("u"), Some("T"), None, Some(vec![block(&["H"], "x")]), &[]).unwrap();
    assert_eq!(given.title, "T");
    assert_eq!(given.blocks[0].heading_chain, vec!["H".to_string()]);
}
