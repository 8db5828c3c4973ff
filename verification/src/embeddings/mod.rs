//! The embedding side of the engine: the request bodies exchanged with a remote embedding
//! server, the model names it accepts, how queries are phrased for a model, and the checks
//! applied to what a model or a server hands back.
use crate::text::{
    chars_to_string, contains_lit, contains_sub, decimal, decimal_chars, ends_with, eq_lit, lower, lower_chars,
    starts_lit, starts_with, to_chars, trim, trim_chars,
};
use vstd::prelude::*;

pub mod queue;

verus! {

/// Request body for the remote embedding server.
#[derive(Debug, Clone)]
pub struct EmbedRequest {
    pub texts: Vec<String>,
    /// Default: false.
    pub is_query: bool,
}

/// Request body for the remote reranking server.
#[derive(Debug, Clone)]
pub struct RerankRequest {
    pub query: String,
    pub documents: Vec<String>,
    /// Default: `default_top_k`.
    pub top_k: usize,
}

/// The number of reranked documents returned when a request does not say.
pub fn default_top_k() -> (r: usize)
    ensures
        r == 10,
{
    10
}

/// The embedding models known by a short name.
#[derive(Debug, Clone, Copy, PartialEq, Eq, Structural)]
pub enum EmbeddingModelName {
    AllMiniLmL6V2,
    AllMiniLmL6V2Q,
    AllMiniLmL12V2,
    AllMiniLmL12V2Q,
    ParaphraseMpnetBaseV2,
    BgeSmallEnV15,
    BgeSmallEnV15Q,
    BgeBaseEnV15,
    BgeBaseEnV15Q,
    BgeLargeEnV15,
    BgeLargeEnV15Q,
}

/// The model a short name stands for, compared after trimming and ASCII lower-casing.
pub open spec fn model_alias(raw: Seq<char>) -> Option<EmbeddingModelName> {
    let n = lower(trim(raw));
    if n == "all-minilm-l6-v2"@ {
        Some(EmbeddingModelName::AllMiniLmL6V2)
    } else if n == "all-minilm-l6-v2-q"@ {
        Some(EmbeddingModelName::AllMiniLmL6V2Q)
    } else if n == "all-minilm-l12-v2"@ {
        Some(EmbeddingModelName::AllMiniLmL12V2)
    } else if n == "all-minilm-l12-v2-q"@ {
        Some(EmbeddingModelName::AllMiniLmL12V2Q)
    } else if n == "paraphrase-mpnet-base-v2"@ {
        Some(EmbeddingModelName::ParaphraseMpnetBaseV2)
    } else if n == "bge-small-en-v1.5"@ {
        Some(EmbeddingModelName::BgeSmallEnV15)
    } else if n == "bge-small-en-v1.5-q"@ {
        Some(EmbeddingModelName::BgeSmallEnV15Q)
    } else if n == "bge-base-en-v1.5"@ {
        Some(EmbeddingModelName::BgeBaseEnV15)
    } else if n == "bge-base-en-v1.5-q"@ {
        Some(EmbeddingModelName::BgeBaseEnV15Q)
    } else if n == "bge-large-en-v1.5"@ {
        Some(EmbeddingModelName::BgeLargeEnV15)
    } else if n == "bge-large-en-v1.5-q"@ {
        Some(EmbeddingModelName::BgeLargeEnV15Q)
    } else {
        None
    }
}

/// Look up a model by its short name (see `model_alias`). Names not in the table are
/// left to the model library's own parser.
pub fn parse_model_alias(raw: &str) -> (r: Option<EmbeddingModelName>)
    ensures
        r == model_alias(raw@),
{
    let n = lower_chars(trim_chars(to_chars(raw).as_slice()).as_slice());
    let n = n.as_slice();
    if eq_lit(n, "all-minilm-l6-v2") {
        Some(EmbeddingModelName::AllMiniLmL6V2)
    } else if eq_lit(n, "all-minilm-l6-v2-q") {
        Some(EmbeddingModelName::AllMiniLmL6V2Q)
    } else if eq_lit(n, "all-minilm-l12-v2") {
        Some(EmbeddingModelName::AllMiniLmL12V2)
    } else if eq_lit(n, "all-minilm-l12-v2-q") {
        Some(EmbeddingModelName::AllMiniLmL12V2Q)
    } else if eq_lit(n, "paraphrase-mpnet-base-v2") {
        Some(EmbeddingModelName::ParaphraseMpnetBaseV2)
    } else if eq_lit(n, "bge-small-en-v1.5") {
        Some(EmbeddingModelName::BgeSmallEnV15)
    } else if eq_lit(n, "bge-small-en-v1.5-q") {
        Some(EmbeddingModelName::BgeSmallEnV15Q)
    } else if eq_lit(n, "bge-base-en-v1.5") {
        Some(EmbeddingModelName::BgeBaseEnV15)
    } else if eq_lit(n, "bge-base-en-v1.5-q") {
        Some(EmbeddingModelName::BgeBaseEnV15Q)
    } else if eq_lit(n, "bge-large-en-v1.5") {
        Some(EmbeddingModelName::BgeLargeEnV15)
    } else if eq_lit(n, "bge-large-en-v1.5-q") {
        Some(EmbeddingModelName::BgeLargeEnV15Q)
    } else {
        None
    }
}

/// The reranking models known by a short name.
#[derive(Debug, Clone, Copy, PartialEq, Eq, Structural)]
pub enum RerankerModelName {
    BgeRerankerBase,
    BgeRerankerV2M3,
    JinaRerankerV1TurboEn,
    JinaRerankerV2BaseMultilingual,
}

pub open spec fn reranker_alias(raw: Seq<char>) -> Option<RerankerModelName> {
    let n = lower(trim(raw));
    if n == "bge-reranker-base"@ {
        Some(RerankerModelName::BgeRerankerBase)
    } else if n == "bge-reranker-v2-m3"@ {
        Some(RerankerModelName::BgeRerankerV2M3)
    } else if n == "jina-reranker-v1-turbo-en"@ {
        Some(RerankerModelName::JinaRerankerV1TurboEn)
    } else if n == "jina-reranker-v2-base-multilingual"@ {
        Some(RerankerModelName::JinaRerankerV2BaseMultilingual)
    } else {
        None
    }
}

/// Look up a reranking model by its short name, compared after trimming and ASCII
/// lower-casing.
pub fn parse_reranker_alias(raw: &str) -> (r: Option<RerankerModelName>)
    ensures
        r == reranker_alias(raw@),
{
    let n = lower_chars(trim_chars(to_chars(raw).as_slice()).as_slice());
    let n = n.as_slice();
    if eq_lit(n, "bge-reranker-base") {
        Some(RerankerModelName::BgeRerankerBase)
    } else if eq_lit(n, "bge-reranker-v2-m3") {
        Some(RerankerModelName::BgeRerankerV2M3)
    } else if eq_lit(n, "jina-reranker-v1-turbo-en") {
        Some(RerankerModelName::JinaRerankerV1TurboEn)
    } else if eq_lit(n, "jina-reranker-v2-base-multilingual") {
        Some(RerankerModelName::JinaRerankerV2BaseMultilingual)
    } else {
        None
    }
}

/// The instruction BGE models expect in front of a search query.
pub open spec fn bge_instruction() -> Seq<char> {
    "Represent this sentence for searching relevant passages: "@
}

/// The query text handed to a model: the trimmed query, with the BGE instruction in front
/// when the model is a BGE model (its name, lower-cased, starts with `bge-` or contains
/// `/bge-`); empty when the query is blank.
pub open spec fn query_for_model(model_name: Seq<char>, query: Seq<char>) -> Seq<char> {
    let t = trim(query);
    let m = lower(model_name);
    if t.len() == 0 {
        Seq::empty()
    } else if starts_with(m, "bge-"@) || contains_sub(m, "/bge-"@) {
        bge_instruction() + t
    } else {
        t
    }
}

/// Phrase a search query for the given model (see `query_for_model`).
pub fn format_query_for_model(model_name: &str, query: &str) -> (r: String)
    ensures
        r@ == query_for_model(model_name@, query@),
{
    let mut t = trim_chars(to_chars(query).as_slice());
    if t.len() == 0 {
        return String::new();
    }
    let m = lower_chars(to_chars(model_name).as_slice());
    if starts_lit(m.as_slice(), "bge-") || contains_lit(m.as_slice(), "/bge-") {
        let mut out = to_chars("Represent this sentence for searching relevant passages: ");
        out.append(&mut t);
        chars_to_string(out.as_slice())
    } else {
        chars_to_string(t.as_slice())
    }
}

/// The backend name as configured, trimmed and lower-cased (`cpu`, `coreml`, `cuda`...).
pub fn normalize_backend(raw: &str) -> (r: String)
    ensures
        r@ == lower(trim(raw@)),
{
    let t = trim_chars(to_chars(raw).as_slice());
    chars_to_string(lower_chars(t.as_slice()).as_slice())
}

/// The line describing the loaded embedding model: `backend=<b> model=<m> dim=<d>`.
pub open spec fn backend_line(backend: Seq<char>, model: Seq<char>, dim: nat) -> Seq<char> {
    "backend="@ + backend + " model="@ + model + " dim="@ + decimal(dim)
}

/// Describe the embedding backend in use (see `backend_line`).
pub fn backend_info(backend: &str, model_name: &str, dim: usize) -> (r: String)
    ensures
        r@ == backend_line(backend@, model_name@, dim as nat),
{
    let mut out = to_chars("backend=");
    let mut b = to_chars(backend);
    out.append(&mut b);
    let mut m1 = to_chars(" model=");
    out.append(&mut m1);
    let mut m = to_chars(model_name);
    out.append(&mut m);
    let mut d1 = to_chars(" dim=");
    out.append(&mut d1);
    let mut d = decimal_chars(dim);
    out.append(&mut d);
    chars_to_string(out.as_slice())
}

/// The most texts handed to a model in one call.
pub const MAX_INNER_BATCH: usize = 32;

/// The batches `n` texts are handed to a model in: consecutive ranges `[start, end)` of
/// `size` texts each, the last one possibly shorter.
pub fn inner_batches(n: usize, size: usize) -> (r: Vec<(usize, usize)>)
    requires
        size > 0,
    ensures
        r@.len() == (if n == 0 { 0 } else { (n - 1) / (size as int) + 1 }),
        forall|k: int|
            0 <= k < r@.len() ==> (#[trigger] r@[k]).0 == k * size && r@[k].1 == (if (k + 1) * size < n {
                (k + 1) * size
            } else {
                n as int
            }),
{
    let mut out: Vec<(usize, usize)> = Vec::new();
    let mut start: usize = 0;
    assert(out@.len() * size == 0) by (nonlinear_arith)
        requires
            out@.len() == 0,
    ;
    while start < n
        invariant
            size > 0,
            start <= n,
            start == (if out@.len() * size < n { out@.len() * size } else { n as int }),
            forall|k: int| 0 <= k < out@.len() ==> (#[trigger] out@[k]).0 < n,
            forall|k: int|
                0 <= k < out@.len() ==> (#[trigger] out@[k]).0 == k * size && out@[k].1 == (if (k + 1) * size
                    < n {
                    (k + 1) * size
                } else {
                    n as int
                }),
        decreases n - start,
    {
        let end = if n - start > size {
            start + size
        } else {
            n
        };
        proof {
            let k = out@.len() as int;
            assert((k + 1) * size == k * size + size) by (nonlinear_arith);
        }
        out.push((start, end));
        start = end;
    }
    proof {
        let len = out@.len() as int;
        if n == 0 {
            if len > 0 {
                assert(out@[0].0 < n);
            }
        } else {
            assert(len > 0);
            let last = out@[len - 1];
            assert(last.0 == (len - 1) * size);
            assert((len - 1) * size < n);
            assert(len * size >= n);
            assert((n - 1) / (size as int) == len - 1) by (nonlinear_arith)
                requires
                    (len - 1) * size < n,
                    len * size >= n,
                    size > 0,
                    n > 0,
            ;
        }
    }
    out
}

/// Where the score of result `index` of reranking batch `batch` goes among `total`
/// documents: `batch * MAX_INNER_BATCH + index`, when that is a document.
pub fn rerank_slot(batch: usize, index: usize, total: usize) -> (r: Option<usize>)
    ensures
        match r {
            Some(g) => g == batch * MAX_INNER_BATCH + index && g < total,
            None => batch * MAX_INNER_BATCH + index >= total,
        },
{
    match batch.checked_mul(MAX_INNER_BATCH) {
        None => None,
        Some(base) => match base.checked_add(index) {
            None => None,
            Some(g) => if g < total {
                Some(g)
            } else {
                None
            },
        },
    }
}

/// The first vector whose length is not `expected`, as (position, length).
pub open spec fn first_bad_dim(lens: Seq<usize>, expected: usize, from: int) -> Option<(int, usize)>
    decreases lens.len() - from,
{
    if from >= lens.len() || from < 0 {
        None
    } else if lens[from] != expected {
        Some((from, lens[from]))
    } else {
        first_bad_dim(lens, expected, from + 1)
    }
}

/// Check that every vector a model returned has the configured dimension; the error names
/// the first one that does not, by position and length.
pub fn check_vector_dims(lens: &[usize], expected: usize) -> (r: Result<(), (usize, usize)>)
    ensures
        match r {
            Ok(()) => first_bad_dim(lens@, expected, 0) is None,
            Err((i, got)) => first_bad_dim(lens@, expected, 0) == Some((i as int, got)),
        },
{
    let mut i: usize = 0;
    while i < lens.len()
        invariant
            i <= lens.len(),
            first_bad_dim(lens@, expected, 0) == first_bad_dim(lens@, expected, i as int),
        decreases lens.len() - i,
    {
        if lens[i] != expected {
            return Err((i, lens[i]));
        }
        i = i + 1;
    }
    Ok(())
}

/// What is wrong with a remote embedding response.
#[derive(Debug, Clone, PartialEq, Eq)]
pub enum EmbedResponseError {
    /// The server's model has another dimension than configured.
    DimMismatch { expected: usize, got: usize },
    /// The server runs another model than configured.
    ModelMismatch { expected_model: String, got_model: String },
    /// The server returned another number of vectors than texts were sent.
    BatchSizeMismatch { sent: usize, returned: usize },
    /// A vector's length differs from the dimension the server announced.
    VectorDim { index: usize, len: usize, announced: usize },
}

/// The verdict on a remote embedding response, checked in this order: the announced
/// dimension, the model name, the number of vectors, then each vector's length.
pub open spec fn embed_response_ok(
    expected_model: Seq<char>,
    expected_dim: usize,
    sent: usize,
    dim: usize,
    model: Seq<char>,
    lens: Seq<usize>,
) -> bool {
    dim == expected_dim && model == expected_model && lens.len() == sent && first_bad_dim(
        lens,
        dim,
        0,
    ) is None
}

/// Check a remote embedding response (see `embed_response_ok`) for `sent` texts: the
/// dimension and model the server announced, and the lengths of the vectors it returned.
pub fn check_embed_response(
    expected_model: &str,
    expected_dim: usize,
    sent: usize,
    dim: usize,
    model: &str,
    vector_lens: &[usize],
) -> (r: Result<(), EmbedResponseError>)
    ensures
        r is Ok <==> embed_response_ok(expected_model@, expected_dim, sent, dim, model@, vector_lens@),
        match r {
            Ok(()) => true,
            Err(EmbedResponseError::DimMismatch { expected, got }) => dim != expected_dim && expected
                == expected_dim && got == dim,
            Err(EmbedResponseError::ModelMismatch { expected_model: e, got_model: g }) => dim
                == expected_dim && model@ != expected_model@ && e@ == expected_model@ && g@ == model@,
            Err(EmbedResponseError::BatchSizeMismatch { sent: s, returned }) => dim == expected_dim
                && model@ == expected_model@ && vector_lens@.len() != sent && s == sent && returned
                == vector_lens@.len(),
            Err(EmbedResponseError::VectorDim { index, len, announced }) => dim == expected_dim
                && model@ == expected_model@ && vector_lens@.len() == sent && announced == dim
                && first_bad_dim(vector_lens@, dim, 0) == Some((index as int, len)),
        },
{
    if dim != expected_dim {
        return Err(EmbedResponseError::DimMismatch { expected: expected_dim, got: dim });
    }
    let m = to_chars(model);
    if !eq_lit(m.as_slice(), expected_model) {
        return Err(
            EmbedResponseError::ModelMismatch {
                expected_model: expected_model.to_owned(),
                got_model: model.to_owned(),
            },
        );
    }
    if vector_lens.len() != sent {
        return Err(EmbedResponseError::BatchSizeMismatch { sent, returned: vector_lens.len() });
    }
    match check_vector_dims(vector_lens, dim) {
        Ok(()) => Ok(()),
        Err((index, len)) => Err(EmbedResponseError::VectorDim { index, len, announced: dim }),
    }
}

/// The folder the model cache keeps a model in: `models--` and the model code with each
/// `/` written as `--`.
pub open spec fn cache_folder(code: Seq<char>) -> Seq<char>
    decreases code.len(),
{
    if code.len() == 0 {
        "models--"@
    } else {
        cache_folder(code.drop_last()) + (if code.last() == '/' {
            "--"@
        } else {
            seq![code.last()]
        })
    }
}

/// The cache folder of a model (see `cache_folder`).
pub fn model_cache_folder(model_code: &str) -> (r: String)
    ensures
        r@ == cache_folder(model_code@),
{
    let code = to_chars(model_code);
    let mut out = to_chars("models--");
    let mut i: usize = 0;
    while i < code.len()
        invariant
            i <= code.len(),
            out@ == cache_folder(code@.take(i as int)),
        decreases code.len() - i,
    {
        assert(code@.take(i + 1).drop_last() =~= code@.take(i as int));
        if code[i] == '/' {
            out.push('-');
            out.push('-');
            proof {
                reveal_strlit("--");
            }
        } else {
            out.push(code[i]);
        }
        assert(out@ =~= cache_folder(code@.take(i + 1)));
        i = i + 1;
    }
    assert(code@.take(code@.len() as int) =~= code@);
    chars_to_string(out.as_slice())
}


/// A blank query is sent as empty text to every model; any other query is sent trimmed,
/// after the BGE instruction for BGE models.
pub proof fn law_query_phrasing(model_name: Seq<char>, query: Seq<char>)
    ensures
        trim(query).len() == 0 ==> query_for_model(model_name, query).len() == 0,
        trim(query).len() > 0 ==> ends_with(query_for_model(model_name, query), trim(query)),
{
    let t = trim(query);
    let r = query_for_model(model_name, query);
    if t.len() > 0 {
        if r.len() > t.len() {
            assert(r.skip(r.len() - t.len()) =~= t);
        } else {
            assert(r.skip(0) =~= t);
        }
    }
}

} // verus!
