//! The decisions of the embedding runs: which stored chunks are embedded, which are
//! skipped and why, when the written embeddings are flushed, and the tallies reported.
use vstd::prelude::*;

verus! {

/// The key under which a stored chunk says whether it is a leaf.
pub open spec fn leaf_key() -> Seq<u8> {
    seq![34u8, 105u8, 115u8, 95u8, 108u8, 101u8, 97u8, 102u8, 34u8]
}

/// The bytes `true`.
pub open spec fn true_bytes() -> Seq<u8> {
    seq![116u8, 114u8, 117u8, 101u8]
}

/// The key occurs in `v` at `i`.
pub open spec fn key_at(v: Seq<u8>, i: int) -> bool {
    0 <= i && i + 9 <= v.len() && v.subrange(i, i + 9) == leaf_key()
}

/// The index after the spaces and colons that follow position `i`.
pub open spec fn skip_sep(v: Seq<u8>, i: int) -> int
    decreases v.len() - i,
{
    if 0 <= i < v.len() && (v[i] == 32u8 || v[i] == 58u8) {
        skip_sep(v, i + 1)
    } else {
        i
    }
}

/// Whether a stored chunk, read as raw JSON bytes, is a leaf: at the first occurrence of
/// `"is_leaf"`, after any spaces and colons, the next four bytes are `true`.
pub open spec fn leaf_flag(v: Seq<u8>) -> bool {
    if exists|i: int| key_at(v, i) {
        let i = choose|i: int| key_at(v, i) && forall|j: int| 0 <= j < i ==> !key_at(v, j);
        let k = skip_sep(v, i + 9);
        k + 4 <= v.len() && v.subrange(k, k + 4) == true_bytes()
    } else {
        false
    }
}

fn key_at_exec(v: &[u8], i: usize) -> (r: bool)
    requires
        i + 9 <= v@.len(),
    ensures
        r == key_at(v@, i as int),
{
    let r = v[i] == 34 && v[i + 1] == 105 && v[i + 2] == 115 && v[i + 3] == 95 && v[i + 4] == 108
        && v[i + 5] == 101 && v[i + 6] == 97 && v[i + 7] == 102 && v[i + 8] == 34;
    proof {
        if r {
            assert(v@.subrange(i as int, i + 9) =~= leaf_key());
        } else {
            if v@.subrange(i as int, i + 9) == leaf_key() {
                assert(v@.subrange(i as int, i + 9)[0] == v@[i as int]);
                assert(v@.subrange(i as int, i + 9)[1] == v@[i + 1]);
                assert(v@.subrange(i as int, i + 9)[2] == v@[i + 2]);
                assert(v@.subrange(i as int, i + 9)[3] == v@[i + 3]);
                assert(v@.subrange(i as int, i + 9)[4] == v@[i + 4]);
                assert(v@.subrange(i as int, i + 9)[5] == v@[i + 5]);
                assert(v@.subrange(i as int, i + 9)[6] == v@[i + 6]);
                assert(v@.subrange(i as int, i + 9)[7] == v@[i + 7]);
                assert(v@.subrange(i as int, i + 9)[8] == v@[i + 8]);
            }
        }
    }
    r
}

/// Whether a stored chunk is a leaf, read from its raw bytes without parsing them (see
/// `leaf_flag`).
pub fn is_leaf_fast(value: &[u8]) -> (r: bool)
    ensures
        r == leaf_flag(value@),
{
    let v = value;
    let mut pos: usize = 0;
    let mut found = false;
    while v.len() >= 9 && pos <= v.len() - 9
        invariant_except_break
            !found,
        invariant
            pos <= v.len(),
            forall|j: int| 0 <= j < pos ==> !key_at(v@, j),
        ensures
            found ==> key_at(v@, pos as int) && forall|j: int| 0 <= j < pos ==> !key_at(v@, j),
            !found ==> forall|j: int| 0 <= j ==> !key_at(v@, j),
        decreases v.len() - pos,
    {
        if key_at_exec(v, pos) {
            found = true;
            break;
        }
        pos = pos + 1;
    }
    if !found {
        return false;
    }
    proof {
        let c = choose|i: int| key_at(v@, i) && forall|j: int| 0 <= j < i ==> !key_at(v@, j);
        assert(key_at(v@, pos as int) && forall|j: int| 0 <= j < pos ==> !key_at(v@, j));
        if c < pos {
        } else if c > pos {
        }
        assert(c == pos);
    }
    let mut k: usize = pos + 9;
    while k < v.len() && (v[k] == 32 || v[k] == 58)
        invariant
            pos + 9 <= k <= v.len(),
            skip_sep(v@, pos + 9) == skip_sep(v@, k as int),
        decreases v.len() - k,
    {
        k = k + 1;
    }
    if v.len() - k < 4 {
        return false;
    }
    let r = v[k] == 116 && v[k + 1] == 114 && v[k + 2] == 117 && v[k + 3] == 101;
    proof {
        let sub = v@.subrange(k as int, k + 4);
        if r {
            assert(sub =~= true_bytes());
        } else if sub == true_bytes() {
            assert(sub[0] == v@[k as int] && sub[1] == v@[k + 1] && sub[2] == v@[k + 2] && sub[3] == v@[k
                + 3]);
        }
    }
    r
}

/// What the full scan does with one stored chunk.
#[derive(Debug, Clone, Copy, PartialEq, Eq, Structural)]
pub enum ScanStep {
    /// Already embedded (incremental runs only).
    SkipExisting,
    /// Not a leaf chunk.
    SkipNonLeaf,
    /// The chunk does not parse.
    SkipMalformed,
    /// Embed its text.
    Embed,
}

pub open spec fn scan_step(incremental: bool, embedded: bool, leaf: bool, parses: bool) -> ScanStep {
    if incremental && embedded {
        ScanStep::SkipExisting
    } else if !leaf {
        ScanStep::SkipNonLeaf
    } else if !parses {
        ScanStep::SkipMalformed
    } else {
        ScanStep::Embed
    }
}

/// Decide on one stored chunk during a full scan: in an incremental run a chunk that
/// already has an embedding is skipped; then non-leaf and malformed chunks are skipped.
pub fn full_scan_step(incremental: bool, embedded: bool, leaf: bool, parses: bool) -> (r: ScanStep)
    ensures
        r == scan_step(incremental, embedded, leaf, parses),
{
    if incremental && embedded {
        ScanStep::SkipExisting
    } else if !leaf {
        ScanStep::SkipNonLeaf
    } else if !parses {
        ScanStep::SkipMalformed
    } else {
        ScanStep::Embed
    }
}

/// What the queue run does with one key of the embedding queue.
#[derive(Debug, Clone, Copy, PartialEq, Eq, Structural)]
pub enum QueueStep {
    /// Already embedded: hand it to the vector index and drop it from the queue.
    RequeueExisting,
    /// The chunk is gone: drop the key.
    DropMissing,
    /// The chunk does not parse: drop the key.
    DropMalformed,
    /// Not a leaf chunk: drop the key.
    DropNonLeaf,
    /// Embed its text.
    Embed,
}

pub open spec fn queue_step(embedded: bool, found: bool, parses: bool, leaf: bool) -> QueueStep {
    if embedded {
        QueueStep::RequeueExisting
    } else if !found {
        QueueStep::DropMissing
    } else if !parses {
        QueueStep::DropMalformed
    } else if !leaf {
        QueueStep::DropNonLeaf
    } else {
        QueueStep::Embed
    }
}

/// Decide on one queued key (see `queue_step`), checked in this order: an existing
/// embedding, a missing chunk, a malformed chunk, a non-leaf chunk.
pub fn embed_queue_step(embedded: bool, found: bool, parses: bool, leaf: bool) -> (r: QueueStep)
    ensures
        r == queue_step(embedded, found, parses, leaf),
{
    if embedded {
        QueueStep::RequeueExisting
    } else if !found {
        QueueStep::DropMissing
    } else if !parses {
        QueueStep::DropMalformed
    } else if !leaf {
        QueueStep::DropNonLeaf
    } else {
        QueueStep::Embed
    }
}

/// The embeddings are flushed to disk every this many embedded chunks.
pub const FLUSH_EVERY: usize = 20_000;

/// Progress is reported every this many embedded chunks.
pub const TIMING_REPORT_EVERY: usize = 5_000;

/// Whether the queue run flushes after reaching `embedded` chunks: at each multiple of
/// `FLUSH_EVERY`.
pub fn queue_flush_due(embedded: usize) -> (r: bool)
    ensures
        r == (embedded > 0 && embedded % FLUSH_EVERY == 0),
{
    embedded > 0 && embedded % FLUSH_EVERY == 0
}

/// Whether at least `every` more chunks were embedded since the count `since` (the last
/// flush or report).
pub fn interval_due(embedded: usize, since: usize, every: usize) -> (r: bool)
    requires
        since <= embedded,
    ensures
        r == (embedded - since >= every),
{
    embedded - since >= every
}

/// The counts of a full scan.
pub struct ScanTally {
    pub seen: usize,
    pub skipped_existing: usize,
    pub skipped_non_leaf: usize,
    pub skipped_malformed: usize,
    pub queued_for_embedding: usize,
}

impl ScanTally {
    pub fn new() -> (t: ScanTally)
        ensures
            t.seen == 0 && t.skipped_existing == 0 && t.skipped_non_leaf == 0 && t.skipped_malformed == 0
                && t.queued_for_embedding == 0,
    {
        ScanTally {
            seen: 0,
            skipped_existing: 0,
            skipped_non_leaf: 0,
            skipped_malformed: 0,
            queued_for_embedding: 0,
        }
    }

    /// Count one scanned chunk and the step taken on it. Every chunk seen is counted
    /// under exactly one step.
    pub fn record(&mut self, step: ScanStep)
        requires
            old(self).seen < usize::MAX,
            old(self).seen == old(self).skipped_existing + old(self).skipped_non_leaf
                + old(self).skipped_malformed + old(self).queued_for_embedding,
        ensures
            final(self).seen == old(self).seen + 1,
            final(self).seen == final(self).skipped_existing + final(self).skipped_non_leaf
                + final(self).skipped_malformed + final(self).queued_for_embedding,
            final(self).skipped_existing == old(self).skipped_existing + (if step == ScanStep::SkipExisting {
                1int
            } else {
                0
            }),
            final(self).skipped_non_leaf == old(self).skipped_non_leaf + (if step == ScanStep::SkipNonLeaf {
                1int
            } else {
                0
            }),
            final(self).skipped_malformed == old(self).skipped_malformed + (if step
                == ScanStep::SkipMalformed {
                1int
            } else {
                0
            }),
            final(self).queued_for_embedding == old(self).queued_for_embedding + (if step == ScanStep::Embed {
                1int
            } else {
                0
            }),
    {
        self.seen = self.seen + 1;
        match step {
            ScanStep::SkipExisting => self.skipped_existing = self.skipped_existing + 1,
            ScanStep::SkipNonLeaf => self.skipped_non_leaf = self.skipped_non_leaf + 1,
            ScanStep::SkipMalformed => self.skipped_malformed = self.skipped_malformed + 1,
            ScanStep::Embed => self.queued_for_embedding = self.queued_for_embedding + 1,
        }
    }
}

} // verus!
