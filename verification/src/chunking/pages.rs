//! Turning a stored page into chunks: its text blocks are split into sentence windows,
//! each window is chained to the windows before it, given its heading context, and named
//! by a hash of the page and its position.
use crate::chunking::chaining::{apply_statement_chaining, chained};
use crate::chunking::context::{contextual, embed_lines, last_headings, with_context_depth, with_embed_context};
use crate::chunking::sentencizer::{merge_windows, sentences, split_sentences, windows};
use crate::config::ChunkingConfig;
use crate::crawler::policy::{chunk_limit, chunk_limit_for_host, MAX_CHUNKS_PER_PAGE};
use crate::crawler::urlparts::{parse_url, parsed_url};
use crate::text::{chars_to_string, decimal, decimal_chars, join, to_chars, trim, trim_chars, views};
use sha2::Digest;
use vstd::prelude::*;

verus! {

/// The SHA-256 digest of `data`, as lower-case hexadecimal.
pub uninterp spec fn sha256_hex(data: Seq<u8>) -> Seq<char>;

/// Hashes `data` with `sha2::Sha256` and formats the digest with `{:x}`. The contract
/// claims only that the result is a function of the bytes (named `sha256_hex`).
#[verifier::external_body]
fn sha256_hex_of(data: &[u8]) -> (r: String)
    ensures
        r@ == sha256_hex(data@),
{
    let mut h = sha2::Sha256::new();
    h.update(data);
    format!("{:x}", h.finalize())
}

/// The hash a stored page's content is compared by: SHA-256 of its stored bytes.
pub fn page_content_hash(page_data: &[u8]) -> (r: String)
    ensures
        r@ == sha256_hex(page_data@),
{
    sha256_hex_of(page_data)
}

/// The bytes a chunk id is the hash of: the page URL, `#`, the page's content hash, `#`,
/// and the chunk's position in decimal.
pub open spec fn chunk_key(url: Seq<char>, content_hash: Seq<char>, pos: nat) -> Seq<u8> {
    vstd::utf8::encode_utf8(url) + seq![35u8] + vstd::utf8::encode_utf8(content_hash) + seq![35u8]
        + vstd::utf8::encode_utf8(decimal(pos))
}

fn push_bytes(v: &mut Vec<u8>, b: &[u8])
    ensures
        final(v)@ == old(v)@ + b@,
{
    let mut i: usize = 0;
    while i < b.len()
        invariant
            i <= b.len(),
            v@ == old(v)@ + b@.take(i as int),
        decreases b.len() - i,
    {
        v.push(b[i]);
        i = i + 1;
        assert(v@ =~= old(v)@ + b@.take(i as int));
    }
    assert(b@.take(b.len() as int) =~= b@);
}

/// The id of the chunk at `pos` of a page: SHA-256 of `chunk_key`, in hexadecimal.
pub fn make_chunk_id(url: &str, content_hash: &str, pos: usize) -> (r: String)
    ensures
        r@ == sha256_hex(chunk_key(url@, content_hash@, pos as nat)),
{
    let mut bytes: Vec<u8> = Vec::new();
    push_bytes(&mut bytes, url.as_bytes());
    bytes.push(35);
    push_bytes(&mut bytes, content_hash.as_bytes());
    bytes.push(35);
    let d = chars_to_string(decimal_chars(pos).as_slice());
    push_bytes(&mut bytes, d.as_str().as_bytes());
    assert(bytes@ =~= chunk_key(url@, content_hash@, pos as nat));
    sha256_hex_of(bytes.as_slice())
}

/// The most chunks taken from a page: its host's limit, or `MAX_CHUNKS_PER_PAGE` when the
/// URL does not parse or has no host.
pub open spec fn page_chunk_limit(url: Seq<char>) -> usize {
    match parsed_url(url) {
        Some(u) => match u.host {
            Some(h) => chunk_limit(h),
            None => MAX_CHUNKS_PER_PAGE,
        },
        None => MAX_CHUNKS_PER_PAGE,
    }
}

/// The chunk limit of the page at `url` (see `page_chunk_limit`).
pub fn chunk_limit_for_page(url: &str) -> (r: usize)
    ensures
        r == page_chunk_limit(url@),
{
    match parse_url(url) {
        Some(u) => match &u.host {
            Some(h) => chunk_limit_for_host(h.as_str()),
            None => MAX_CHUNKS_PER_PAGE,
        },
        None => MAX_CHUNKS_PER_PAGE,
    }
}

/// A text block of a page: the headings it stands under, outermost first, and its text.
pub struct PageBlock {
    pub heading_chain: Vec<String>,
    pub text: String,
}

pub struct BlockView {
    pub headings: Seq<Seq<char>>,
    pub text: Seq<char>,
}

impl View for PageBlock {
    type V = BlockView;

    open spec fn view(&self) -> BlockView {
        BlockView { headings: views(self.heading_chain@), text: self.text@ }
    }
}

/// A page as it is stored and chunked: its URL, title, description and text blocks.
pub struct PageDoc {
    pub url: String,
    pub title: String,
    pub description: Option<String>,
    pub blocks: Vec<PageBlock>,
}

/// A chunk of a page, ready to be stored, embedded and indexed.
pub struct ChunkRecord {
    pub id: String,
    pub source_url: String,
    pub heading_chain: Vec<String>,
    /// The text shown: the window, chained, under its headings.
    pub text: String,
    /// The text embedded: title, headings and chained window.
    pub embed_text: Option<String>,
    pub page_title: Option<String>,
    /// Whether the window stands on its own (it was not an introduction).
    pub is_leaf: bool,
}

pub struct ChunkView {
    pub id: Seq<char>,
    pub source_url: Seq<char>,
    pub headings: Seq<Seq<char>>,
    pub text: Seq<char>,
    pub embed_text: Option<Seq<char>>,
    pub page_title: Option<Seq<char>>,
    pub is_leaf: bool,
}

impl View for ChunkRecord {
    type V = ChunkView;

    open spec fn view(&self) -> ChunkView {
        ChunkView {
            id: self.id@,
            source_url: self.source_url@,
            headings: views(self.heading_chain@),
            text: self.text@,
            embed_text: match self.embed_text {
                Some(t) => Some(t@),
                None => None,
            },
            page_title: match self.page_title {
                Some(t) => Some(t@),
                None => None,
            },
            is_leaf: self.is_leaf,
        }
    }
}

pub open spec fn block_views(v: Seq<PageBlock>) -> Seq<BlockView> {
    v.map_values(|b: PageBlock| b@)
}

pub open spec fn chunk_views(v: Seq<ChunkRecord>) -> Seq<ChunkView> {
    v.map_values(|c: ChunkRecord| c@)
}

/// The sentence windows of a block.
pub open spec fn block_windows(b: BlockView, ws: nat, wo: nat) -> Seq<Seq<char>> {
    windows(sentences(b.text), ws, wo)
}

/// Every window of a page in order, each with the index of its block.
pub open spec fn page_windows(blocks: Seq<BlockView>, ws: nat, wo: nat) -> Seq<(int, Seq<char>)>
    decreases blocks.len(),
{
    if blocks.len() == 0 {
        Seq::empty()
    } else {
        let i = blocks.len() - 1;
        page_windows(blocks.drop_last(), ws, wo) + block_windows(blocks.last(), ws, wo).map_values(
            |w: Seq<char>| (i, w),
        )
    }
}

/// The windows a window is chained to: the (at most four) windows before it.
pub open spec fn preceding_windows(pw: Seq<(int, Seq<char>)>, k: int) -> Seq<Seq<char>> {
    pw.subrange(if k >= 4 { k - 4 } else { 0 }, k).map_values(|p: (int, Seq<char>)| p.1)
}

/// The chunk made of `window`, the window at position `k` of a page, under the headings
/// of its block, chained to the windows `preceding` it.
pub open spec fn chunk_from(
    url: Seq<char>,
    title: Seq<char>,
    headings: Seq<Seq<char>>,
    window: Seq<char>,
    preceding: Seq<Seq<char>>,
    k: nat,
    content_hash: Seq<char>,
    depth: nat,
) -> ChunkView {
    let (text, leaf) = chained(window, preceding);
    ChunkView {
        id: sha256_hex(chunk_key(url, content_hash, k)),
        source_url: url,
        headings,
        text: contextual(last_headings(headings, depth), text),
        embed_text: Some(join(embed_lines(Some(title), headings, text, depth), seq!['\n'])),
        page_title: Some(title),
        is_leaf: leaf,
    }
}

/// The chunk made of window `k` of a page.
pub open spec fn chunk_at(
    url: Seq<char>,
    title: Seq<char>,
    blocks: Seq<BlockView>,
    content_hash: Seq<char>,
    cfg: (nat, nat, nat),
    k: int,
) -> ChunkView {
    let (ws, wo, depth) = cfg;
    let pw = page_windows(blocks, ws, wo);
    chunk_from(
        url,
        title,
        blocks[pw[k].0].headings,
        pw[k].1,
        preceding_windows(pw, k),
        k as nat,
        content_hash,
        depth,
    )
}

fn make_chunk(
    url: &String,
    title: &String,
    heading_chain: &Vec<String>,
    window: &str,
    preceding: &[String],
    k: usize,
    content_hash: &str,
    depth: usize,
) -> (c: ChunkRecord)
    ensures
        c@ == chunk_from(
            url@,
            title@,
            views(heading_chain@),
            window@,
            views(preceding@),
            k as nat,
            content_hash@,
            depth as nat,
        ),
{
    let (chained_text, is_leaf) = apply_statement_chaining(window, preceding);
    assert(preceding@.map_values(|p: String| p@) =~= views(preceding@));
    let display = with_context_depth(heading_chain.as_slice(), chained_text.as_str(), depth);
    let embed = with_embed_context(
        Some(title.as_str()),
        heading_chain.as_slice(),
        chained_text.as_str(),
        depth,
    );
    let id = make_chunk_id(url.as_str(), content_hash, k);
    ChunkRecord {
        id,
        source_url: url.clone(),
        heading_chain: clone_strings(heading_chain),
        text: display,
        embed_text: Some(embed),
        page_title: Some(title.clone()),
        is_leaf,
    }
}

proof fn lemma_page_windows_step(blocks: Seq<BlockView>, ws: nat, wo: nat, i: int)
    requires
        0 <= i < blocks.len(),
    ensures
        page_windows(blocks.take(i + 1), ws, wo) == page_windows(blocks.take(i), ws, wo)
            + block_windows(blocks[i], ws, wo).map_values(|w: Seq<char>| (i, w)),
{
    assert(blocks.take(i + 1).drop_last() =~= blocks.take(i));
    assert(blocks.take(i + 1).last() == blocks[i]);
}

proof fn lemma_page_windows_prefix(blocks: Seq<BlockView>, ws: nat, wo: nat, i: int)
    requires
        0 <= i <= blocks.len(),
    ensures
        page_windows(blocks.take(i), ws, wo).len() <= page_windows(blocks, ws, wo).len(),
        page_windows(blocks, ws, wo).take(page_windows(blocks.take(i), ws, wo).len() as int)
            == page_windows(blocks.take(i), ws, wo),
    decreases blocks.len() - i,
{
    if i == blocks.len() {
        assert(blocks.take(i) =~= blocks);
        let p = page_windows(blocks, ws, wo);
        assert(p.take(p.len() as int) =~= p);
    } else {
        lemma_page_windows_prefix(blocks, ws, wo, i + 1);
        lemma_page_windows_step(blocks, ws, wo, i);
        let a = page_windows(blocks.take(i), ws, wo);
        let b = page_windows(blocks.take(i + 1), ws, wo);
        let p = page_windows(blocks, ws, wo);
        assert(p.take(a.len() as int) =~= b.take(a.len() as int));
        assert(b.take(a.len() as int) =~= a);
    }
}

fn clone_strings(v: &Vec<String>) -> (r: Vec<String>)
    ensures
        views(r@) == views(v@),
{
    let mut r: Vec<String> = Vec::new();
    let mut i: usize = 0;
    while i < v.len()
        invariant
            i <= v.len(),
            views(r@) == views(v@).take(i as int),
        decreases v.len() - i,
    {
        let ghost before = views(r@);
        r.push(v[i].clone());
        assert(views(r@) =~= before.push(v@[i as int]@));
        i = i + 1;
        assert(views(r@) =~= views(v@).take(i as int));
    }
    assert(views(v@).take(v.len() as int) =~= views(v@));
    r
}

/// Chunk a page: every sentence window of its blocks, in order, becomes a chunk (see
/// `chunk_at`), up to the page's chunk limit.
pub fn build_chunks(cfg: &ChunkingConfig, page: &PageDoc, content_hash: &str) -> (r: Vec<ChunkRecord>)
    ensures
        ({
            let blocks = block_views(page.blocks@);
            let pw = page_windows(blocks, cfg.window_size as nat, cfg.window_overlap as nat);
            let limit = page_chunk_limit(page.url@);
            &&& r@.len() == (if pw.len() < limit { pw.len() } else { limit as nat })
            &&& forall|k: int|
                0 <= k < r@.len() ==> (#[trigger] r@[k])@ == chunk_at(
                    page.url@,
                    page.title@,
                    blocks,
                    content_hash@,
                    (cfg.window_size as nat, cfg.window_overlap as nat, cfg.context_depth as nat),
                    k,
                )
        }),
{
    let ghost blocks = block_views(page.blocks@);
    let ghost ws = cfg.window_size as nat;
    let ghost wo = cfg.window_overlap as nat;
    let ghost c3 = (cfg.window_size as nat, cfg.window_overlap as nat, cfg.context_depth as nat);
    let ghost pw = page_windows(blocks, ws, wo);
    let limit = chunk_limit_for_page(page.url.as_str());
    let mut chunks: Vec<ChunkRecord> = Vec::new();
    let mut preceding: Vec<String> = Vec::new();
    let mut bi: usize = 0;
    loop
        invariant
            bi <= page.blocks.len(),
            blocks == block_views(page.blocks@),
            ws == cfg.window_size as nat,
            wo == cfg.window_overlap as nat,
            c3 == (cfg.window_size as nat, cfg.window_overlap as nat, cfg.context_depth as nat),
            pw == page_windows(blocks, ws, wo),
            limit == page_chunk_limit(page.url@),
            chunks@.len() == (if page_windows(blocks.take(bi as int), ws, wo).len() < limit {
                page_windows(blocks.take(bi as int), ws, wo).len()
            } else {
                limit as nat
            }),
            forall|k: int|
                0 <= k < chunks@.len() ==> (#[trigger] chunks@[k])@ == chunk_at(
                    page.url@,
                    page.title@,
                    blocks,
                    content_hash@,
                    c3,
                    k,
                ),
            views(preceding@) == preceding_windows(pw, chunks@.len() as int),
        ensures
            chunks@.len() == (if pw.len() < limit { pw.len() } else { limit as nat }),
            forall|k: int|
                0 <= k < chunks@.len() ==> (#[trigger] chunks@[k])@ == chunk_at(
                    page.url@,
                    page.title@,
                    blocks,
                    content_hash@,
                    c3,
                    k,
                ),
        decreases page.blocks.len() - bi,
    {
        if bi >= page.blocks.len() {
            proof {
                assert(blocks.take(bi as int) =~= blocks);
            }
            break;
        }
        if chunks.len() >= limit {
            proof {
                lemma_page_windows_prefix(blocks, ws, wo, bi as int);
            }
            break;
        }
        let block = &page.blocks[bi];
        let ghost b = blocks[bi as int];
        assert(b == block@);
        let sents = split_sentences(block.text.as_str());
        let wins = merge_windows(sents.as_slice(), cfg.window_size, cfg.window_overlap);
        let ghost bw = block_windows(b, ws, wo);
        assert(views(wins@) == bw);
        let ghost base = page_windows(blocks.take(bi as int), ws, wo).len();
        proof {
            lemma_page_windows_step(blocks, ws, wo, bi as int);
            lemma_page_windows_prefix(blocks, ws, wo, bi + 1);
        }
        let ghost next = page_windows(blocks.take(bi + 1), ws, wo);
        assert(next.len() == base + bw.len());
        assert(chunks@.len() == base);
        let mut j: usize = 0;
        while j < wins.len()
            invariant_except_break
                chunks@.len() == base + j,
            invariant
                j <= wins.len(),
                blocks == block_views(page.blocks@),
                bi < page.blocks.len(),
                b == blocks[bi as int],
                b == page.blocks@[bi as int]@,
                block@ == b,
                views(wins@) == bw,
                bw == block_windows(b, ws, wo),
                ws == cfg.window_size as nat,
                wo == cfg.window_overlap as nat,
                c3 == (cfg.window_size as nat, cfg.window_overlap as nat, cfg.context_depth as nat),
                pw == page_windows(blocks, ws, wo),
                limit == page_chunk_limit(page.url@),
                next == page_windows(blocks.take(bi + 1), ws, wo),
                next.len() == base + bw.len(),
                next.len() <= pw.len(),
                pw.take(next.len() as int) == next,
                next == page_windows(blocks.take(bi as int), ws, wo) + bw.map_values(
                    |w: Seq<char>| (bi as int, w),
                ),
                base == page_windows(blocks.take(bi as int), ws, wo).len(),
                chunks@.len() <= limit,
                chunks@.len() <= base + j,
                forall|k: int|
                    0 <= k < chunks@.len() ==> (#[trigger] chunks@[k])@ == chunk_at(
                        page.url@,
                        page.title@,
                        blocks,
                        content_hash@,
                        c3,
                        k,
                    ),
                views(preceding@) == preceding_windows(pw, chunks@.len() as int),
            ensures
                chunks@.len() == (if next.len() < limit { next.len() } else { limit as nat }),
                forall|k: int|
                    0 <= k < chunks@.len() ==> (#[trigger] chunks@[k])@ == chunk_at(
                        page.url@,
                        page.title@,
                        blocks,
                        content_hash@,
                        c3,
                        k,
                    ),
                views(preceding@) == preceding_windows(pw, chunks@.len() as int),
            decreases wins.len() - j,
        {
            if chunks.len() >= limit {
                break;
            }
            let k = chunks.len();
            let ghost kk = k as int;
            let window = &wins[j];
            proof {
                assert(pw[kk] == next[kk]);
                assert(next[kk] == (bi as int, bw[j as int]));
                assert(bw[j as int] == window@);
            }
            let chunk = make_chunk(
                &page.url,
                &page.title,
                &block.heading_chain,
                window.as_str(),
                preceding.as_slice(),
                k,
                content_hash,
                cfg.context_depth,
            );
            proof {
                assert(blocks[pw[kk].0] == b);
                assert(b.headings == views(block.heading_chain@));
                assert(pw[kk].1 == window@);
                assert(views(preceding@) == preceding_windows(pw, kk));
                assert(c3.2 == cfg.context_depth as nat);
                assert(chunk@ == chunk_at(page.url@, page.title@, blocks, content_hash@, c3, kk));
            }
            chunks.push(chunk);
            let ghost before = views(preceding@);
            preceding.push(window.clone());
            if preceding.len() > 4 {
                preceding.remove(0);
            }
            proof {
                let p2 = preceding_windows(pw, kk + 1);
                if kk >= 4 {
                    assert(views(preceding@) =~= before.push(window@).drop_first());
                } else {
                    assert(views(preceding@) =~= before.push(window@));
                }
                assert(views(preceding@) =~= p2);
                assert forall|q: int| 0 <= q < chunks@.len() implies (#[trigger] chunks@[q])@ == chunk_at(
                    page.url@,
                    page.title@,
                    blocks,
                    content_hash@,
                    c3,
                    q,
                ) by {
                    if q < kk {
                    } else {
                        assert(chunks@[q] == chunk);
                    }
                }
            }
            j = j + 1;
        }
        bi = bi + 1;
    }
    chunks
}


// ---------------------------------------------------------------------------
// Imported pages
// ---------------------------------------------------------------------------
/// The pieces of `s[start..]` between blank-line separators (`"\n\n"`, found left to
/// right), the scan having reached `i`.
pub open spec fn paragraphs_from(s: Seq<char>, start: int, i: int) -> Seq<Seq<char>>
    decreases s.len() - i,
{
    if i < start || start < 0 || i + 1 >= s.len() {
        seq![s.subrange(start, s.len() as int)]
    } else if s[i] == '\n' && s[i + 1] == '\n' {
        seq![s.subrange(start, i)] + paragraphs_from(s, i + 2, i + 2)
    } else {
        paragraphs_from(s, start, i + 1)
    }
}

/// `text.split("\n\n")`.
pub open spec fn paragraphs(s: Seq<char>) -> Seq<Seq<char>> {
    paragraphs_from(s, 0, 0)
}

/// The trimmed paragraph, or nothing when it is blank.
pub open spec fn kept_paragraph(p: Seq<char>) -> Seq<Seq<char>> {
    if trim(p).len() == 0 {
        Seq::empty()
    } else {
        seq![trim(p)]
    }
}

pub open spec fn kept_paragraphs(ps: Seq<Seq<char>>) -> Seq<Seq<char>>
    decreases ps.len(),
{
    if ps.len() == 0 {
        Seq::empty()
    } else {
        kept_paragraph(ps[0]) + kept_paragraphs(ps.drop_first())
    }
}

proof fn lemma_kept_cons(p: Seq<char>, rest: Seq<Seq<char>>)
    ensures
        kept_paragraphs(seq![p] + rest) == kept_paragraph(p) + kept_paragraphs(rest),
{
    assert((seq![p] + rest).drop_first() =~= rest);
    assert((seq![p] + rest)[0] == p);
}

fn kept_paragraph_exec(out: &mut Vec<PageBlock>, chars: &[char], from: usize, to: usize)
    requires
        from <= to <= chars@.len(),
    ensures
        block_texts(final(out)@) == block_texts(old(out)@) + kept_paragraph(chars@.subrange(from as int, to as int)),
        forall|k: int| 0 <= k < final(out)@.len() ==> old(out)@.len() <= k ==> (#[trigger] final(out)@[k]).heading_chain@.len() == 0,
        forall|k: int| 0 <= k < old(out)@.len() ==> (#[trigger] final(out)@[k]) == old(out)@[k],
{
    let mut piece: Vec<char> = Vec::new();
    let mut j: usize = from;
    while j < to
        invariant
            from <= j <= to <= chars@.len(),
            piece@ == chars@.subrange(from as int, j as int),
        decreases to - j,
    {
        piece.push(chars[j]);
        j = j + 1;
        assert(piece@ =~= chars@.subrange(from as int, j as int));
    }
    let t = trim_chars(piece.as_slice());
    let ghost before = block_texts(out@);
    if t.len() > 0 {
        out.push(PageBlock { heading_chain: Vec::new(), text: chars_to_string(t.as_slice()) });
        assert(block_texts(out@) =~= before.push(t@));
    } else {
        assert(before + Seq::<Seq<char>>::empty() =~= before);
    }
}

pub open spec fn block_texts(v: Seq<PageBlock>) -> Seq<Seq<char>> {
    v.map_values(|b: PageBlock| b.text@)
}

/// The blocks of an imported page given as plain text: its blank-line separated
/// paragraphs, trimmed, blank ones dropped, each without headings.
pub fn text_to_blocks(text: &str) -> (r: Vec<PageBlock>)
    ensures
        block_texts(r@) == kept_paragraphs(paragraphs(text@)),
        forall|k: int| 0 <= k < r@.len() ==> (#[trigger] r@[k]).heading_chain@.len() == 0,
{
    let chars = to_chars(text);
    let ghost s = chars@;
    let len = chars.len();
    let mut out: Vec<PageBlock> = Vec::new();
    let mut start: usize = 0;
    let mut i: usize = 0;
    assert(block_texts(out@) =~= Seq::<Seq<char>>::empty());
    assert(Seq::<Seq<char>>::empty() + kept_paragraphs(paragraphs_from(s, 0, 0)) =~= kept_paragraphs(paragraphs_from(s, 0, 0)));
    while len > 0 && i < len - 1
        invariant
            s == chars@,
            s == text@,
            len == chars@.len(),
            start <= i <= len,
            block_texts(out@) + kept_paragraphs(paragraphs_from(s, start as int, i as int)) == kept_paragraphs(
                paragraphs(s),
            ),
            forall|k: int| 0 <= k < out@.len() ==> (#[trigger] out@[k]).heading_chain@.len() == 0,
        decreases len - i,
    {
        if chars[i] == '\n' && chars[i + 1] == '\n' {
            let ghost before = block_texts(out@);
            let ghost rest = paragraphs_from(s, i + 2, i + 2);
            proof {
                lemma_kept_cons(s.subrange(start as int, i as int), rest);
            }
            kept_paragraph_exec(&mut out, chars.as_slice(), start, i);
            proof {
                assert(block_texts(out@) + kept_paragraphs(rest) =~= before + (kept_paragraph(
                    s.subrange(start as int, i as int),
                ) + kept_paragraphs(rest)));
            }
            start = i + 2;
            i = i + 2;
        } else {
            i = i + 1;
        }
    }
    let ghost before = block_texts(out@);
    assert(paragraphs_from(s, start as int, i as int) == seq![s.subrange(start as int, len as int)]);
    proof {
        lemma_kept_cons(s.subrange(start as int, len as int), Seq::empty());
        assert(seq![s.subrange(start as int, len as int)] + Seq::<Seq<char>>::empty() =~= seq![s.subrange(start as int, len as int)]);
        assert(kept_paragraphs(Seq::<Seq<char>>::empty()) == Seq::<Seq<char>>::empty());
    }
    kept_paragraph_exec(&mut out, chars.as_slice(), start, len);
    proof {
        assert(kept_paragraph(s.subrange(start as int, len as int)) + Seq::<Seq<char>>::empty() =~= kept_paragraph(s.subrange(start as int, len as int)));
    }
    out
}

/// A text field of an imported record: trimmed, and absent when blank.
pub open spec fn field_text(raw: Option<Seq<char>>) -> Option<Seq<char>> {
    match raw {
        None => None,
        Some(s) => if trim(s).len() == 0 {
            None
        } else {
            Some(trim(s))
        },
    }
}

/// Read a text field of an imported record (see `field_text`).
pub fn optional_text(raw: Option<&str>) -> (r: Option<String>)
    ensures
        match r {
            Some(t) => field_text(match raw {
                Some(s) => Some(s@),
                None => None,
            }) == Some(t@),
            None => field_text(match raw {
                Some(s) => Some(s@),
                None => None,
            }) is None,
        },
{
    match raw {
        None => None,
        Some(s) => {
            let t = trim_chars(to_chars(s).as_slice());
            if t.len() == 0 {
                None
            } else {
                Some(chars_to_string(t.as_slice()))
            }
        },
    }
}

/// The first of the body fields that holds text, in the order given.
pub open spec fn first_text(fields: Seq<Option<Seq<char>>>) -> Option<Seq<char>>
    decreases fields.len(),
{
    if fields.len() == 0 {
        None
    } else if field_text(fields[0]) is Some {
        field_text(fields[0])
    } else {
        first_text(fields.drop_first())
    }
}

pub open spec fn opt_strs(v: Seq<Option<&str>>) -> Seq<Option<Seq<char>>> {
    v.map_values(|o: Option<&str>| match o {
        Some(s) => Some(s@),
        None => None,
    })
}

/// The body text of an imported record: the first non-blank of its text fields (`text`,
/// `body`, `content`, `summary`, `extract`, in that order as the caller passes them).
pub fn record_body(fields: &[Option<&str>]) -> (r: Option<String>)
    ensures
        match r {
            Some(t) => first_text(opt_strs(fields@)) == Some(t@),
            None => first_text(opt_strs(fields@)) is None,
        },
{
    let ghost fs = opt_strs(fields@);
    let mut k: usize = 0;
    assert(fs.skip(0) =~= fs);
    while k < fields.len()
        invariant
            k <= fields.len(),
            fs == opt_strs(fields@),
            first_text(fs) == first_text(fs.skip(k as int)),
        decreases fields.len() - k,
    {
        assert(fs.skip(k as int).drop_first() =~= fs.skip(k + 1));
        assert(fs.skip(k as int)[0] == fs[k as int]);
        match optional_text(fields[k]) {
            Some(t) => return Some(t),
            None => {},
        }
        k = k + 1;
    }
    assert(fs.skip(k as int) =~= Seq::<Option<Seq<char>>>::empty());
    None
}


/// Assemble an imported page record: it needs a URL; the title defaults to the URL; the
/// blocks are those given, or else the paragraphs of the first body field holding text; a
/// record that ends with no block at all is dropped.
pub fn page_from_record(
    url: Option<&str>,
    title: Option<&str>,
    description: Option<&str>,
    blocks: Option<Vec<PageBlock>>,
    body_fields: &[Option<&str>],
) -> (r: Option<PageDoc>)
    ensures
        ({
            let u = field_text(match url {
                Some(s) => Some(s@),
                None => None,
            });
            let t = field_text(match title {
                Some(s) => Some(s@),
                None => None,
            });
            let d = field_text(match description {
                Some(s) => Some(s@),
                None => None,
            });
            let body = first_text(opt_strs(body_fields@));
            match r {
                None => u is None || match blocks {
                    Some(b) => b@.len() == 0,
                    None => body is None || kept_paragraphs(paragraphs(body.unwrap())).len() == 0,
                },
                Some(page) => {
                    &&& u == Some(page.url@)
                    &&& page.title@ == (match t {
                        Some(x) => x,
                        None => u.unwrap(),
                    })
                    &&& match page.description {
                        Some(x) => d == Some(x@),
                        None => d is None,
                    }
                    &&& page.blocks@.len() > 0
                    &&& match blocks {
                        Some(b) => page.blocks@ == b@,
                        None => body is Some && block_texts(page.blocks@) == kept_paragraphs(
                            paragraphs(body.unwrap()),
                        ),
                    }
                },
            }
        }),
{
    let url = match optional_text(url) {
        Some(u) => u,
        None => return None,
    };
    let title = match optional_text(title) {
        Some(t) => t,
        None => url.clone(),
    };
    let description = optional_text(description);
    let blocks = match blocks {
        Some(b) => b,
        None => match record_body(body_fields) {
            Some(text) => text_to_blocks(text.as_str()),
            None => return None,
        },
    };
    if blocks.len() == 0 {
        return None;
    }
    Some(PageDoc { url, title, description, blocks })
}

} // verus!
