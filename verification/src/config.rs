//! The sections of `config.toml` that the crawler, the embedder and the indexer read, and
//! the defaults of the settings that may be left out.
use vstd::prelude::*;

verus! {

/// `[crawl]`
#[derive(Debug, Clone)]
pub struct CrawlConfig {
    pub max_pages: usize,
    pub concurrency: usize,
    pub rate_limit_ms: u64,
    /// Default: `default_recrawl_days`.
    pub recrawl_days: u64,
}

/// `[embedding]`
#[derive(Debug, Clone)]
pub struct EmbeddingConfig {
    pub backend: String,
    pub model: String,
    pub dim: usize,
    pub batch_size: usize,
    pub max_length: Option<usize>,
    /// Parallel inference sessions during bulk embedding. Default: `default_bulk_workers`.
    pub bulk_workers: usize,
    /// Intra-op threads per bulk session. Default: `default_bulk_intra_threads`.
    pub bulk_intra_threads: usize,
    /// A remote embedding server to forward inference to, when set.
    pub remote_url: Option<String>,
}

/// `[hnsw]`
#[derive(Debug, Clone)]
pub struct HnswConfig {
    pub backend: String,
    pub m: usize,
    pub ef_construction: usize,
    pub ef_search: usize,
    pub max_elements: usize,
}

/// `[chunking]`
#[derive(Debug, Clone)]
pub struct ChunkingConfig {
    pub context_depth: usize,
    /// Sentences per window. Default: `default_window_size`.
    pub window_size: usize,
    /// Sentences shared by consecutive windows. Default: `default_window_overlap`.
    pub window_overlap: usize,
}

/// `[rocksdb]`
#[derive(Debug, Clone)]
pub struct RocksDbConfig {
    pub block_cache_mb: usize,
}

/// `[server]`
#[derive(Debug, Clone)]
pub struct ServerConfig {
    pub port: u16,
}

/// `[paths]`
#[derive(Debug, Clone)]
pub struct PathsConfig {
    pub db_path: String,
    pub index_path: String,
    pub lexical_index_path: String,
    pub wiki_index_path: String,
    /// Default: `default_vector_delta_path`.
    pub vector_delta_path: String,
    /// Default: `default_seeds_path`.
    pub seeds_path: String,
}

pub fn default_bulk_workers() -> (r: usize)
    ensures
        r == 2,
{
    2
}

pub fn default_bulk_intra_threads() -> (r: usize)
    ensures
        r == 4,
{
    4
}

pub fn default_window_size() -> (r: usize)
    ensures
        r == 3,
{
    3
}

pub fn default_window_overlap() -> (r: usize)
    ensures
        r == 1,
{
    1
}

pub fn default_recrawl_days() -> (r: u64)
    ensures
        r == 30,
{
    30
}

pub fn default_host_cap_divisor() -> (r: usize)
    ensures
        r == 4,
{
    4
}

pub fn default_host_cap_min() -> (r: usize)
    ensures
        r == 2,
{
    2
}

pub fn default_host_cap_max() -> (r: usize)
    ensures
        r == 3,
{
    3
}

pub fn default_lexical_only_fallback_enabled() -> (r: bool)
    ensures
        r,
{
    true
}

pub fn default_lexical_only_pool_mult() -> (r: usize)
    ensures
        r == 20,
{
    20
}

pub fn default_lexical_only_pool_cap() -> (r: usize)
    ensures
        r == 1000,
{
    1_000
}

pub fn default_lexical_relaxed_fallback_enabled() -> (r: bool)
    ensures
        r,
{
    true
}

pub fn default_lexical_relaxed_min_hits() -> (r: usize)
    ensures
        r == 4,
{
    4
}

pub fn default_lexical_relaxed_extra_k() -> (r: usize)
    ensures
        r == 200,
{
    200
}

pub fn default_ef_search_short() -> (r: usize)
    ensures
        r == 120,
{
    120
}

pub fn default_ef_search_long() -> (r: usize)
    ensures
        r == 80,
{
    80
}

pub fn default_ef_search_identifier() -> (r: usize)
    ensures
        r == 150,
{
    150
}

/// No cap on results per host unless configured.
pub fn default_host_hard_cap() -> (r: Option<usize>)
    ensures
        r is None,
{
    None
}

pub fn default_host_allowlist() -> (r: Vec<String>)
    ensures
        r@.len() == 0,
{
    Vec::new()
}

pub fn default_host_penalty_list() -> (r: Vec<String>)
    ensures
        r@.len() == 0,
{
    Vec::new()
}

pub fn default_rerank_enabled() -> (r: bool)
    ensures
        !r,
{
    false
}

pub fn default_rerank_pool_size() -> (r: usize)
    ensures
        r == 20,
{
    20
}

pub fn default_vector_delta_path() -> (r: String)
    ensures
        r@ == "./hnsw_delta.bin"@,
{
    "./hnsw_delta.bin".to_owned()
}

pub fn default_seeds_path() -> (r: String)
    ensures
        r@ == "./seeds.md"@,
{
    "./seeds.md".to_owned()
}

/// The configuration file to read: the value of `SEARCH_ENGINE_CONFIG_PATH` when it is set
/// (as the caller read it from the environment), else `config.toml`.
pub fn config_path_from(env_value: Option<String>) -> (r: String)
    ensures
        r@ == match env_value {
            Some(v) => v@,
            None => "config.toml"@,
        },
{
    match env_value {
        Some(v) => v,
        None => "config.toml".to_owned(),
    }
}

} // verus!
