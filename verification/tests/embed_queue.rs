use search_engine::embeddings::queue::{
    embed_queue_step, full_scan_step, interval_due, is_leaf_fast, queue_flush_due, QueueStep,
    ScanStep, ScanTally,
};

#[test]
fn leaf_flag_is_read_from_raw_bytes() {
    assert!(is_leaf_fast(br#"{"id":"x","is_leaf":true,"text":"t"}"#));
    assert!(is_leaf_fast(br#"{"is_leaf" :  : true}"#));
    assert!(!is_leaf_fast(br#"{"is_leaf":false}"#));
    assert!(!is_leaf_fast(br#"{"is_leaf":tru"#));
    assert!(!is_leaf_fast(br#"{"leaf":true}"#));
    assert!(!is_leaf_fast(b""));
    // only the first occurrence counts
    assert!(!is_leaf_fast(br#"{"is_leaf":false,"is_leaf":true}"#));
}

#[test]
fn full_scan_steps() {
    assert_eq!(full_scan_step(true, true, true, true), ScanStep::SkipExisting);
    assert_eq!(full_scan_step(false, true, true, true), ScanStep::Embed);
    assert_eq!(full_scan_step(false, false, false, true), ScanStep::SkipNonLeaf);
    assert_eq!(full_scan_step(false, false, true, false), ScanStep::SkipMalformed);
}

#[test]
fn queue_steps() {
    assert_eq!(embed_queue_step(true, false, false, false), QueueStep::RequeueExisting);
    assert_eq!(embed_queue_step(false, false, true, true), QueueStep::DropMissing);
    assert_eq!(embed_queue_step(false, true, false, true), QueueStep::DropMalformed);
    assert_eq!(embed_queue_step(false, true, true, false), QueueStep::DropNonLeaf);
    assert_eq!(embed_queue_step(false, true, true, true), QueueStep::Embed);
}

#[test]
fn flush_and_report_intervals() {
    assert!(queue_flush_due(20_000));
    assert!(queue_flush_due(40_000));
    assert!(!queue_flush_due(0));
    assert!(!queue_flush_due(20_001));
    assert!(interval_due(10_000, 4_000, 5_000));
    assert!(!interval_due(8_000, 4_000, 5_000));
}

#[test]
fn scan_tally_counts_each_chunk_once() {
    let mut t = ScanTally::new();
    t.record(ScanStep::Embed);
    t.record(ScanStep::SkipNonLeaf);
    t.record(ScanStep::Embed);
    assert_eq!(t.seen, 3);
    assert_eq!(t.queued_for_embedding, 2);
    assert_eq!(t.skipped_non_leaf, 1);
    assert_eq!(t.skipped_existing + t.skipped_malformed, 0);
}
