use search_engine::chunking::sentencizer::{merge_windows, split_sentences};

#[test]
fn splits_basic_text() {
    let s = "Rust is memory-safe. It is fast! Is it ergonomic?";
    let chunks = split_sentences(s);
    assert_eq!(chunks.len(), 3);
    assert_eq!(chunks[0], "Rust is memory-safe.");
    assert_eq!(chunks[1], "It is fast!");
    assert_eq!(chunks[2], "Is it ergonomic?");
}

#[test]
fn preserves_abbreviations() {
    let s = "For example, e.g. this should not split. But this is new.";
    let chunks = split_sentences(s);
    assert_eq!(chunks.len(), 2);
    assert!(chunks[0].contains("e.g."));
}

#[test]
fn preserves_decimal_numbers() {
    let s = "The value is 3.14 approximately. Done.";
    let chunks = split_sentences(s);
    assert_eq!(chunks.len(), 2);
    assert!(chunks[0].contains("3.14"));
}

#[test]
fn preserves_urls() {
    let s = "Visit http://example.com for more. Another sentence.";
    let chunks = split_sentences(s);
    assert_eq!(chunks.len(), 2);
    assert!(chunks[0].contains("http://example.com"));
}

#[test]
fn handles_ellipsis() {
    let s = "Wait for it... The answer is here.";
    let chunks = split_sentences(s);
    assert_eq!(chunks.len(), 2);
}

#[test]
fn handles_initials() {
    let s = "Written by J. K. Rowling. The book is great.";
    let chunks = split_sentences(s);
    assert_eq!(chunks.len(), 2);
    assert!(chunks[0].contains("J. K. Rowling."));
}

#[test]
fn handles_newlines_as_splits() {
    let s = "First line\nSecond line\nThird line";
    let chunks = split_sentences(s);
    assert_eq!(chunks.len(), 3);
}

#[test]
fn empty_input() {
    let chunks = split_sentences("");
    assert!(chunks.is_empty());
}

#[test]
fn whitespace_only() {
    let chunks = split_sentences("   \n  \n  ");
    assert!(chunks.is_empty());
}

#[test]
fn handles_et_al() {
    let s = "According to Smith et al. the results were significant. More details follow.";
    let chunks = split_sentences(s);
    assert_eq!(chunks.len(), 2);
    assert!(chunks[0].contains("et al."));
}

#[test]
fn handles_lowercase_continuation() {
    let s = "Use fn. to define functions in Rust. Structs are different.";
    let chunks = split_sentences(s);
    // "fn. to" should NOT split because 'to' is lowercase
    assert_eq!(chunks.len(), 2);
    assert!(chunks[0].contains("fn. to"));
}

#[test]
fn merge_windows_basic() {
    let s: Vec<String> = vec!["A.".into(), "B.".into(), "C.".into(), "D.".into(), "E.".into()];
    let windows = merge_windows(&s, 3, 1);
    assert_eq!(windows.len(), 3);
    assert_eq!(windows[0], "A. B. C.");
    assert_eq!(windows[1], "C. D. E.");
}

#[test]
fn merge_windows_small_input() {
    let s: Vec<String> = vec!["A.".into(), "B.".into()];
    let windows = merge_windows(&s, 3, 1);
    assert_eq!(windows.len(), 1);
    assert_eq!(windows[0], "A. B.");
}

#[test]
fn merge_windows_single() {
    let s: Vec<String> = vec!["A.".into()];
    let windows = merge_windows(&s, 3, 1);
    assert_eq!(windows.len(), 1);
    assert_eq!(windows[0], "A.");
}

#[test]
fn merge_windows_third_window_holds_tail() {
    let s: Vec<String> = vec!["A.".into(), "B.".into(), "C.".into(), "D.".into(), "E.".into()];
    let windows = merge_windows(&s, 3, 1);
    assert_eq!(windows[2], "E.");
}

#[test]
fn merge_windows_no_sentences() {
    let s: Vec<String> = Vec::new();
    assert!(merge_windows(&s, 3, 1).is_empty());
}

#[test]
fn merge_windows_zero_window_is_one_sentence() {
    let s: Vec<String> = vec!["A.".into(), "B.".into()];
    let windows = merge_windows(&s, 0, 5);
    assert_eq!(windows, vec!["A.".to_string(), "B.".to_string()]);
}

#[test]
fn split_collapses_inner_whitespace() {
    let chunks = split_sentences("  Many   spaces\there.  Next one. ");
    assert_eq!(chunks, vec!["Many spaces here.".to_string(), "Next one.".to_string()]);
}

#[test]
fn merge_windows_layout_follows_stride() {
    let s: Vec<String> = ["A.", "B.", "C.", "D.", "E.", "F."].iter().map(|x| x.to_string()).collect();
    let windows = merge_windows(&s, 4, 1);
    assert_eq!(windows, vec!["A. B. C. D.".to_string(), "D. E. F.".to_string()]);
    let windows = merge_windows(&s, 2, 0);
    assert_eq!(windows, vec!["A. B.".to_string(), "C. D.".to_string(), "E. F.".to_string()]);
}
