use search_engine::embeddings::{
    backend_info, check_embed_response, check_vector_dims, default_top_k, format_query_for_model,
    inner_batches, model_cache_folder, normalize_backend, parse_model_alias, parse_reranker_alias,
    rerank_slot, EmbedRequest, EmbedResponseError, EmbeddingModelName, RerankRequest,
    RerankerModelName,
};

#[test]
fn request_defaults() {
    assert_eq!(default_top_k(), 10);
    let r = RerankRequest { query: "q".into(), documents: vec!["d".into()], top_k: default_top_k() };
    assert_eq!(r.top_k, 10);
    let e = EmbedRequest { texts: vec!["t".into()], is_query: false };
    assert_eq!(e.texts.len(), 1);
}

#[test]
fn model_aliases() {
    assert_eq!(parse_model_alias(" BGE-Small-EN-v1.5 "), Some(EmbeddingModelName::BgeSmallEnV15));
    assert_eq!(parse_model_alias("all-minilm-l6-v2-q"), Some(EmbeddingModelName::AllMiniLmL6V2Q));
    assert_eq!(parse_model_alias("BAAI/bge-small-en-v1.5"), None);
    assert_eq!(parse_reranker_alias("Jina-Reranker-V1-Turbo-EN"), Some(RerankerModelName::JinaRerankerV1TurboEn));
    assert_eq!(parse_reranker_alias("other"), None);
}

#[test]
fn queries_are_phrased_per_model() {
    assert_eq!(
        format_query_for_model("BAAI/bge-base-en-v1.5", "  rust traits  "),
        "Represent this sentence for searching relevant passages: rust traits"
    );
    assert_eq!(
        format_query_for_model("BGE-small-en-v1.5", "x"),
        "Represent this sentence for searching relevant passages: x"
    );
    assert_eq!(format_query_for_model("all-minilm-l6-v2", "  q "), "q");
    assert_eq!(format_query_for_model("bge-small-en-v1.5", "   "), "");
}

#[test]
fn backend_description() {
    assert_eq!(normalize_backend("  CoreML "), "coreml");
    assert_eq!(backend_info("cpu", "all-minilm-l6-v2", 384), "backend=cpu model=all-minilm-l6-v2 dim=384");
    assert_eq!(backend_info("cuda", "m", 0), "backend=cuda model=m dim=0");
}

#[test]
fn batches_cover_all_texts() {
    assert_eq!(inner_batches(70, 32), vec![(0, 32), (32, 64), (64, 70)]);
    assert_eq!(inner_batches(64, 32), vec![(0, 32), (32, 64)]);
    assert_eq!(inner_batches(1, 32), vec![(0, 1)]);
    assert!(inner_batches(0, 32).is_empty());
}

#[test]
fn rerank_slots() {
    assert_eq!(rerank_slot(1, 3, 40), Some(35));
    assert_eq!(rerank_slot(1, 10, 40), None);
    assert_eq!(rerank_slot(usize::MAX, 1, 40), None);
}

#[test]
fn vector_dimension_checks() {
    assert_eq!(check_vector_dims(&[3, 3, 3], 3), Ok(()));
    assert_eq!(check_vector_dims(&[3, 3, 4, 5], 3), Err((2, 4)));
}

#[test]
fn remote_response_checks() {
    assert_eq!(check_embed_response("m", 3, 2, 3, "m", &[3, 3]), Ok(()));
    assert_eq!(
        check_embed_response("m", 3, 2, 4, "m", &[4, 4]),
        Err(EmbedResponseError::DimMismatch { expected: 3, got: 4 })
    );
    assert_eq!(
        check_embed_response("m", 3, 2, 3, "other", &[3, 3]),
        Err(EmbedResponseError::ModelMismatch { expected_model: "m".into(), got_model: "other".into() })
    );
    assert_eq!(
        check_embed_response("m", 3, 2, 3, "m", &[3]),
        Err(EmbedResponseError::BatchSizeMismatch { sent: 2, returned: 1 })
    );
    assert_eq!(
        check_embed_response("m", 3, 2, 3, "m", &[3, 2]),
        Err(EmbedResponseError::VectorDim { index: 1, len: 2, announced: 3 })
    );
}

#[test]
fn cache_folders() {
    assert_eq!(model_cache_folder("BAAI/bge-small-en-v1.5"), "models--BAAI--bge-small-en-v1.5");
    assert_eq!(model_cache_folder("plain"), "models--plain");
}
