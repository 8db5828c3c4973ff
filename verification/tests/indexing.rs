use search_engine::indexing::{
    delta_needs_compaction, finish_rebuild, full_rebuild_needed, hnsw_artifact_paths,
    is_bruteforce_backend, is_raw_vector, vector_update_action, IndexOp, RebuildOutcome, VectorAction,
};

#[test]
fn snapshot_files() {
    assert_eq!(
        hnsw_artifact_paths("idx"),
        vec!["idx".to_string(), "idx.hnsw.graph".to_string(), "idx.hnsw.data".to_string()]
    );
}

#[test]
fn backends_and_rebuilds() {
    assert!(is_bruteforce_backend("BruteForce"));
    assert!(!is_bruteforce_backend("hnsw"));
    assert!(full_rebuild_needed(true, true));
    assert!(full_rebuild_needed(false, false));
    assert!(!full_rebuild_needed(false, true));
    assert_eq!(finish_rebuild(0, 3), RebuildOutcome::AllSkipped);
    assert_eq!(finish_rebuild(0, 0), RebuildOutcome::Empty);
    assert_eq!(finish_rebuild(5, 1), RebuildOutcome::Save);
}

#[test]
fn vector_updates() {
    assert_eq!(vector_update_action(Some(IndexOp::Upsert), Some(true)), VectorAction::Upsert);
    assert_eq!(vector_update_action(Some(IndexOp::Upsert), Some(false)), VectorAction::Remove);
    assert_eq!(vector_update_action(Some(IndexOp::Upsert), None), VectorAction::Remove);
    assert_eq!(vector_update_action(Some(IndexOp::Delete), Some(true)), VectorAction::Remove);
    assert_eq!(vector_update_action(None, Some(true)), VectorAction::Ignore);
    assert!(delta_needs_compaction(100_000));
    assert!(!delta_needs_compaction(99_999));
    assert!(is_raw_vector(12, 3));
    assert!(!is_raw_vector(13, 3));
    assert!(!is_raw_vector(0, usize::MAX));
}
