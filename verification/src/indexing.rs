//! The decisions of the vector index builds: which backend, how a queued update is
//! applied, how a rebuild ends, and which files belong to an index snapshot.
use crate::text::{chars_to_string, eq_lit, lower, lower_chars, to_chars};
use vstd::prelude::*;

verus! {

/// A delta index of this many entries should be compacted by a full rebuild.
pub const DELTA_REBUILD_HINT: usize = 100_000;

/// The files of an index snapshot at `path`: the path itself and its graph and data files.
pub open spec fn hnsw_artifacts(path: Seq<char>) -> Seq<Seq<char>> {
    seq![path, path + ".hnsw.graph"@, path + ".hnsw.data"@]
}

/// The files to remove when an index snapshot at `path` is stale (see `hnsw_artifacts`).
pub fn hnsw_artifact_paths(path: &str) -> (r: Vec<String>)
    ensures
        r@.len() == 3,
        r@[0]@ == hnsw_artifacts(path@)[0],
        r@[1]@ == hnsw_artifacts(path@)[1],
        r@[2]@ == hnsw_artifacts(path@)[2],
{
    let p = to_chars(path);
    let mut graph = to_chars(path);
    let mut g = to_chars(".hnsw.graph");
    graph.append(&mut g);
    let mut data = to_chars(path);
    let mut d = to_chars(".hnsw.data");
    data.append(&mut d);
    let mut r: Vec<String> = Vec::new();
    r.push(chars_to_string(p.as_slice()));
    r.push(chars_to_string(graph.as_slice()));
    r.push(chars_to_string(data.as_slice()));
    r
}

/// Whether the configured backend is the exhaustive one (`bruteforce`, in any case);
/// any other name builds an HNSW graph.
pub fn is_bruteforce_backend(backend: &str) -> (r: bool)
    ensures
        r == (lower(backend@) == "bruteforce"@),
{
    eq_lit(lower_chars(to_chars(backend).as_slice()).as_slice(), "bruteforce")
}

/// Whether the index is rebuilt in full: when asked to, or when no snapshot exists yet.
pub fn full_rebuild_needed(full_flag: bool, snapshot_exists: bool) -> (r: bool)
    ensures
        r == (full_flag || !snapshot_exists),
{
    full_flag || !snapshot_exists
}

/// How a full rebuild ends.
#[derive(Debug, Clone, Copy, PartialEq, Eq, Structural)]
pub enum RebuildOutcome {
    /// Every stored embedding had the wrong dimension: an error.
    AllSkipped,
    /// No embeddings at all: stale snapshot files are removed.
    Empty,
    /// Save the index built.
    Save,
}

pub open spec fn rebuild_outcome(inserted: usize, skipped: usize) -> RebuildOutcome {
    if inserted == 0 && skipped > 0 {
        RebuildOutcome::AllSkipped
    } else if inserted == 0 {
        RebuildOutcome::Empty
    } else {
        RebuildOutcome::Save
    }
}

/// Decide how a rebuild that inserted `inserted` vectors and skipped `skipped` ends.
pub fn finish_rebuild(inserted: usize, skipped: usize) -> (r: RebuildOutcome)
    ensures
        r == rebuild_outcome(inserted, skipped),
{
    if inserted == 0 && skipped > 0 {
        RebuildOutcome::AllSkipped
    } else if inserted == 0 {
        RebuildOutcome::Empty
    } else {
        RebuildOutcome::Save
    }
}

/// A queued change to the vector index.
#[derive(Debug, Clone, Copy, PartialEq, Eq, Structural)]
pub enum IndexOp {
    Upsert,
    Delete,
}

/// What an incremental update does to one chunk of the delta index.
#[derive(Debug, Clone, Copy, PartialEq, Eq, Structural)]
pub enum VectorAction {
    /// Insert or replace its vector and clear its tombstone.
    Upsert,
    /// Remove it and record a tombstone.
    Remove,
    /// Leave it (an unknown queue entry).
    Ignore,
}

pub open spec fn vector_action(op: Option<IndexOp>, stored: Option<bool>) -> VectorAction {
    match op {
        None => VectorAction::Ignore,
        Some(IndexOp::Delete) => VectorAction::Remove,
        Some(IndexOp::Upsert) => match stored {
            Some(true) => VectorAction::Upsert,
            _ => VectorAction::Remove,
        },
    }
}

/// Decide how a queued operation is applied, given whether the chunk's embedding is stored
/// (`None`) and whether it decodes to the configured dimension (`Some(decodes)`): an upsert
/// of a missing or undecodable vector becomes a removal.
pub fn vector_update_action(op: Option<IndexOp>, stored: Option<bool>) -> (r: VectorAction)
    ensures
        r == vector_action(op, stored),
{
    match op {
        None => VectorAction::Ignore,
        Some(IndexOp::Delete) => VectorAction::Remove,
        Some(IndexOp::Upsert) => match stored {
            Some(true) => VectorAction::Upsert,
            _ => VectorAction::Remove,
        },
    }
}

/// Whether the delta index has grown enough to suggest a full rebuild.
pub fn delta_needs_compaction(delta_len: usize) -> (r: bool)
    ensures
        r == (delta_len >= DELTA_REBUILD_HINT),
{
    delta_len >= DELTA_REBUILD_HINT
}

/// Whether a stored vector of `byte_len` bytes is a raw array of `dim` 32-bit floats.
pub fn is_raw_vector(byte_len: usize, dim: usize) -> (r: bool)
    ensures
        r == (byte_len == dim * 4),
{
    match dim.checked_mul(4) {
        Some(n) => byte_len == n,
        None => false,
    }
}

} // verus!
