//! Heuristic sentence splitting and sliding-window merging of sentences.
use crate::text::{
    chars_to_string, is_upper, is_lower, is_whitespace, is_ws, join, join_range, lemma_join_push, lower,
    lower_chars, seq_eq, contains_char,
    to_chars, views,
};
use vstd::prelude::*;

verus! {

// ---------------------------------------------------------------------------
// Whitespace normalisation
// ---------------------------------------------------------------------------
/// The maximal runs of non-whitespace characters of `s`, left to right
/// (what `str::split_whitespace` yields).
pub open spec fn words(s: Seq<char>) -> Seq<Seq<char>>
    decreases s.len(),
{
    if s.len() == 0 {
        Seq::empty()
    } else {
        let w = words(s.drop_last());
        let c = s.last();
        if is_ws(c) {
            w
        } else if s.len() >= 2 && !is_ws(s[s.len() - 2]) && w.len() > 0 {
            w.update(w.len() - 1, w.last().push(c))
        } else {
            w.push(seq![c])
        }
    }
}

/// The words of `s` joined by single spaces: runs of whitespace collapse to one space and
/// leading and trailing whitespace is dropped.
pub open spec fn normalized(s: Seq<char>) -> Seq<char> {
    join(words(s), seq![' '])
}

proof fn lemma_words_nonempty(s: Seq<char>)
    ensures
        forall|k: int| 0 <= k < words(s).len() ==> #[trigger] words(s)[k].len() > 0,
        s.len() > 0 && !is_ws(s.last()) ==> words(s).len() > 0,
    decreases s.len(),
{
    if s.len() > 0 {
        let p = s.drop_last();
        lemma_words_nonempty(p);
        let w = words(p);
        let c = s.last();
        if !is_ws(c) && s.len() >= 2 && !is_ws(s[s.len() - 2]) && w.len() > 0 {
            let u = w.update(w.len() - 1, w.last().push(c));
            assert forall|k: int| 0 <= k < u.len() implies #[trigger] u[k].len() > 0 by {
                if k < w.len() - 1 {
                    assert(u[k] == w[k]);
                }
            }
        } else if !is_ws(c) {
            let u = w.push(seq![c]);
            assert forall|k: int| 0 <= k < u.len() implies #[trigger] u[k].len() > 0 by {
                if k < w.len() {
                    assert(u[k] == w[k]);
                }
            }
        }
    }
}

proof fn lemma_words_prev_nonws(s: Seq<char>)
    requires
        s.len() > 0,
        !is_ws(s.last()),
    ensures
        words(s).len() > 0,
    decreases s.len(),
{
    lemma_words_nonempty(s);
}

proof fn lemma_join_extend_last(parts: Seq<Seq<char>>, sep: Seq<char>, c: char)
    requires
        parts.len() > 0,
    ensures
        join(parts.update(parts.len() - 1, parts.last().push(c)), sep) == join(parts, sep).push(c),
{
    let q = parts.update(parts.len() - 1, parts.last().push(c));
    if parts.len() > 1 {
        assert(q.drop_last() =~= parts.drop_last());
        assert((join(parts.drop_last(), sep) + sep + parts.last()).push(c) =~= join(
            parts.drop_last(),
            sep,
        ) + sep + parts.last().push(c));
    }
}

proof fn lemma_join_empty_iff(parts: Seq<Seq<char>>, sep: Seq<char>)
    requires
        forall|k: int| 0 <= k < parts.len() ==> #[trigger] parts[k].len() > 0,
    ensures
        (join(parts, sep).len() == 0) == (parts.len() == 0),
    decreases parts.len(),
{
    if parts.len() > 1 {
        assert(parts.last().len() > 0);
    } else if parts.len() == 1 {
        assert(parts[0].len() > 0);
    }
}

/// `normalize_sentence`: the characters with whitespace runs collapsed to single spaces and
/// the ends trimmed.
pub fn normalize_sentence(chars: &[char]) -> (r: String)
    ensures
        r@ == normalized(chars@),
{
    let mut out: Vec<char> = Vec::new();
    let mut i: usize = 0;
    while i < chars.len()
        invariant
            i <= chars.len(),
            out@ == normalized(chars@.take(i as int)),
        decreases chars.len() - i,
    {
        let c = chars[i];
        let ghost pre = chars@.take(i as int);
        let ghost cur = chars@.take(i + 1);
        proof {
            assert(cur.drop_last() =~= pre);
            assert(cur.last() == c);
            lemma_words_nonempty(pre);
            lemma_join_empty_iff(words(pre), seq![' ']);
        }
        if is_whitespace(c) {
        } else if i > 0 && !is_whitespace(chars[i - 1]) {
            proof {
                assert(pre.last() == chars@[i - 1]);
                lemma_words_prev_nonws(pre);
                assert(cur[cur.len() - 2] == chars@[i - 1]);
                lemma_join_extend_last(words(pre), seq![' '], c);
            }
            out.push(c);
        } else {
            proof {
                if i > 0 {
                    assert(cur[cur.len() - 2] == chars@[i - 1]);
                }
                lemma_join_push(words(pre), seq![' '], seq![c]);
            }
            if out.len() > 0 {
                out.push(' ');
            }
            out.push(c);
            proof {
                if words(pre).len() > 0 {
                    assert(out@ =~= join(words(pre), seq![' ']) + seq![' '] + seq![c]);
                } else {
                    assert(out@ =~= seq![c]);
                }
            }
        }
        i = i + 1;
    }
    assert(chars@.take(chars@.len() as int) =~= chars@);
    chars_to_string(out.as_slice())
}

// ---------------------------------------------------------------------------
// Sentence boundaries
// ---------------------------------------------------------------------------
/// Lower-case abbreviations whose trailing period does not end a sentence.
pub open spec fn abbreviations() -> Seq<&'static str> {
    seq![
        "e.g", "i.e", "etc", "vs", "dr", "mr", "mrs", "ms", "prof", "sr", "jr", "al", "fig", "eq",
        "no", "vol", "rev", "dept", "approx", "incl", "est", "st", "ave", "blvd", "gen", "gov",
        "sgt", "cpl", "pvt", "capt", "lt", "col", "maj", "cmdr", "adm", "jan", "feb", "mar",
        "apr", "jun", "jul", "aug", "sep", "oct", "nov", "dec", "cf", "viz",
    ]
}

pub open spec fn is_abbreviation(w: Seq<char>) -> bool {
    exists|k: int| 0 <= k < abbreviations().len() && (#[trigger] abbreviations()[k])@ == w
}

#[verifier::rlimit(60)]
fn abbreviation_list() -> (v: Vec<&'static str>)
    ensures
        v@ == abbreviations(),
{
    let mut v: Vec<&'static str> = Vec::new();
    v.push("e.g"); v.push("i.e"); v.push("etc"); v.push("vs"); v.push("dr"); v.push("mr");
    v.push("mrs"); v.push("ms"); v.push("prof"); v.push("sr"); v.push("jr"); v.push("al");
    v.push("fig"); v.push("eq"); v.push("no"); v.push("vol"); v.push("rev"); v.push("dept");
    v.push("approx"); v.push("incl"); v.push("est"); v.push("st"); v.push("ave"); v.push("blvd");
    v.push("gen"); v.push("gov"); v.push("sgt"); v.push("cpl"); v.push("pvt"); v.push("capt");
    v.push("lt"); v.push("col"); v.push("maj"); v.push("cmdr"); v.push("adm"); v.push("jan");
    v.push("feb"); v.push("mar"); v.push("apr"); v.push("jun"); v.push("jul"); v.push("aug");
    v.push("sep"); v.push("oct"); v.push("nov"); v.push("dec"); v.push("cf"); v.push("viz");
    v
}

/// Whether `w` is one of the strings in `list`.
pub fn in_list(list: &Vec<&'static str>, w: &[char]) -> (r: bool)
    ensures
        r == exists|k: int| 0 <= k < list@.len() && (#[trigger] list@[k])@ == w@,
{
    let mut k: usize = 0;
    while k < list.len()
        invariant
            k <= list.len(),
            forall|j: int| 0 <= j < k ==> (#[trigger] list@[j])@ != w@,
        decreases list.len() - k,
    {
        let lit = to_chars(list[k]);
        if seq_eq(lit.as_slice(), w) {
            return true;
        }
        k = k + 1;
    }
    false
}

/// The first non-whitespace character at or after `from`.
pub open spec fn peek_after(s: Seq<char>, from: int) -> Option<char>
    decreases s.len() - from,
{
    if from < 0 || from >= s.len() {
        None
    } else if is_ws(s[from]) {
        peek_after(s, from + 1)
    } else {
        Some(s[from])
    }
}

/// The start of the whitespace-free run that ends just before `j`.
pub open spec fn word_start(s: Seq<char>, j: int) -> int
    decreases j,
{
    if j <= 0 {
        0
    } else if is_ws(s[j - 1]) {
        j
    } else {
        word_start(s, j - 1)
    }
}

/// The word immediately before index `pos`: the characters back to the previous whitespace.
pub open spec fn word_before(s: Seq<char>, pos: int) -> Seq<char> {
    s.subrange(word_start(s, pos), pos)
}

/// Whether the period at `pos` ends a sentence.
pub open spec fn period_ends_sentence(s: Seq<char>, pos: int) -> bool {
    if pos + 1 < s.len() && s[pos + 1] == '.' {
        // a non-final dot of an ellipsis
        false
    } else if pos > 0 && s[pos - 1] == '.' {
        // the final dot of an ellipsis: a boundary when a capital follows, or at the end
        match peek_after(s, pos + 1) {
            Some(a) => is_upper(a),
            None => true,
        }
    } else if pos + 1 >= s.len() {
        true
    } else if !is_ws(s[pos + 1]) {
        // mid-token: "3.14", "example.com"
        false
    } else {
        let w = word_before(s, pos);
        if w.len() == 1 && is_upper(w[0]) {
            false
        } else if is_abbreviation(lower(w)) {
            false
        } else if w.contains('.') {
            false
        } else {
            match peek_after(s, pos + 1) {
                Some(a) => !is_lower(a),
                None => true,
            }
        }
    }
}

fn peek_past_whitespace(chars: &[char], from: usize) -> (r: Option<char>)
    requires
        from <= chars.len(),
    ensures
        r == peek_after(chars@, from as int),
{
    let mut i = from;
    while i < chars.len()
        invariant
            from <= i <= chars.len(),
            peek_after(chars@, from as int) == peek_after(chars@, i as int),
        decreases chars.len() - i,
    {
        if !is_whitespace(chars[i]) {
            return Some(chars[i]);
        }
        i = i + 1;
    }
    None
}

fn word_before_period(chars: &[char], pos: usize) -> (r: Vec<char>)
    requires
        pos <= chars.len(),
    ensures
        r@ == word_before(chars@, pos as int),
{
    let mut j = pos;
    while j > 0 && !is_whitespace(chars[j - 1])
        invariant
            j <= pos <= chars.len(),
            word_start(chars@, j as int) == word_start(chars@, pos as int),
        decreases j,
    {
        j = j - 1;
    }
    let mut r: Vec<char> = Vec::new();
    let mut k = j;
    while k < pos
        invariant
            j <= k <= pos <= chars.len(),
            r@ == chars@.subrange(j as int, k as int),
        decreases pos - k,
    {
        r.push(chars[k]);
        k = k + 1;
        assert(r@ =~= chars@.subrange(j as int, k as int));
    }
    r
}


fn is_sentence_boundary(chars: &[char], pos: usize) -> (r: bool)
    requires
        pos < chars.len(),
    ensures
        r == period_ends_sentence(chars@, pos as int),
{
    let len = chars.len();
    if pos + 1 < len && chars[pos + 1] == '.' {
        return false;
    }
    if pos > 0 && chars[pos - 1] == '.' {
        return match peek_past_whitespace(chars, pos + 1) {
            Some(after) => 'A' <= after && after <= 'Z',
            None => true,
        };
    }
    if pos + 1 >= len {
        return true;
    }
    if !is_whitespace(chars[pos + 1]) {
        return false;
    }
    let w = word_before_period(chars, pos);
    if w.len() == 1 && 'A' <= w[0] && w[0] <= 'Z' {
        return false;
    }
    let lw = lower_chars(w.as_slice());
    if in_list(&abbreviation_list(), lw.as_slice()) {
        return false;
    }
    if contains_char(w.as_slice(), '.') {
        return false;
    }
    match peek_past_whitespace(chars, pos + 1) {
        Some(after) => !('a' <= after && after <= 'z'),
        None => true,
    }
}

// ---------------------------------------------------------------------------
// Splitting
// ---------------------------------------------------------------------------
/// Whether the character at `i` closes a sentence: a newline, `!`, `?`, or a period that
/// ends a sentence.
pub open spec fn is_cut(s: Seq<char>, i: int) -> bool {
    ||| s[i] == '\n'
    ||| s[i] == '!'
    ||| s[i] == '?'
    ||| (s[i] == '.' && period_ends_sentence(s, i))
}

/// A one-element sequence holding `x` unless `x` is empty.
pub open spec fn keep(x: Seq<char>) -> Seq<Seq<char>> {
    if x.len() == 0 {
        Seq::empty()
    } else {
        seq![x]
    }
}

/// The sentences of `s[start..]`, given that the sentence in progress began at `start` and
/// the scan has reached `i`.
pub open spec fn sentences_from(s: Seq<char>, start: int, i: int) -> Seq<Seq<char>>
    decreases s.len() - i,
{
    if i < 0 || i >= s.len() {
        if 0 <= start < s.len() {
            keep(normalized(s.subrange(start, s.len() as int)))
        } else {
            Seq::empty()
        }
    } else if is_cut(s, i) {
        keep(normalized(s.subrange(start, i + 1))) + sentences_from(s, i + 1, i + 1)
    } else {
        sentences_from(s, start, i + 1)
    }
}

/// The sentences of `s`: the text is cut after every sentence-closing character, each piece
/// has its whitespace normalised, and empty pieces are dropped.
pub open spec fn sentences(s: Seq<char>) -> Seq<Seq<char>> {
    sentences_from(s, 0, 0)
}

/// Split text into sentence-like chunks.
///
/// Heuristic splitter that handles common false boundaries: abbreviations (e.g., i.e., Dr.),
/// decimal numbers (3.14), URLs, ellipses (...) and single-letter initials (J. K. Rowling).
pub fn split_sentences(text: &str) -> (out: Vec<String>)
    ensures
        views(out@) == sentences(text@),
{
    let chars = to_chars(text);
    let len = chars.len();
    let mut out: Vec<String> = Vec::new();
    let mut start: usize = 0;
    let mut i: usize = 0;
    while i < len
        invariant
            len == chars@.len(),
            chars@ == text@,
            start <= i <= len,
            views(out@) + sentences_from(chars@, start as int, i as int) == sentences(text@),
        decreases len - i,
    {
        let ch = chars[i];
        let cut = if ch == '\n' || ch == '!' || ch == '?' {
            true
        } else if ch == '.' {
            is_sentence_boundary(chars.as_slice(), i)
        } else {
            false
        };
        if cut {
            let sentence = normalize_sentence(&chars.as_slice()[start..i + 1]);
            let ghost before = views(out@);
            if !sentence.as_str().is_empty() {
                out.push(sentence);
            }
            proof {
                assert(chars@.subrange(start as int, i + 1) == chars@.subrange(
                    start as int,
                    i + 1,
                ));
                if sentence@.len() > 0 {
                    assert(views(out@) =~= before.push(sentence@));
                    assert(keep(sentence@) =~= seq![sentence@]);
                } else {
                    assert(views(out@) =~= before);
                    assert(keep(sentence@) =~= Seq::<Seq<char>>::empty());
                }
                assert(before + keep(sentence@) + sentences_from(chars@, i + 1, i + 1) =~= before
                    + (keep(sentence@) + sentences_from(chars@, i + 1, i + 1)));
            }
            start = i + 1;
        }
        i = i + 1;
    }
    if start < len {
        let sentence = normalize_sentence(&chars.as_slice()[start..len]);
        let ghost before = views(out@);
        if !sentence.as_str().is_empty() {
            out.push(sentence);
        }
        proof {
            if sentence@.len() > 0 {
                assert(views(out@) =~= before.push(sentence@));
                assert(keep(sentence@) =~= seq![sentence@]);
            } else {
                assert(views(out@) =~= before);
                assert(keep(sentence@) =~= Seq::<Seq<char>>::empty());
            }
        }
    } else {
        assert(views(out@) + Seq::<Seq<char>>::empty() =~= views(out@));
    }
    out
}

} // verus!

verus! {

// ---------------------------------------------------------------------------
// Sliding windows
// ---------------------------------------------------------------------------
/// The window size actually used: at least one sentence.
pub open spec fn effective_window(window_size: nat) -> nat {
    if window_size == 0 {
        1
    } else {
        window_size
    }
}

/// The overlap actually used: less than the window.
pub open spec fn effective_overlap(window_size: nat, overlap: nat) -> nat {
    let w = effective_window(window_size);
    if overlap <= w - 1 {
        overlap
    } else {
        (w - 1) as nat
    }
}

/// The windows that start at `start`: each joins up to `w` sentences, the next begins
/// `stride` sentences later, and a tail too short for a full window is merged into one
/// final window.
pub open spec fn windows_from(s: Seq<Seq<char>>, start: int, w: int, stride: int) -> Seq<
    Seq<char>,
>
    decreases s.len() - start,
{
    if start < 0 || start >= s.len() || stride <= 0 {
        Seq::empty()
    } else {
        let end = if start + w <= s.len() {
            start + w
        } else {
            s.len() as int
        };
        let first = join(s.subrange(start, end), seq![' ']);
        let next = start + stride;
        if next >= s.len() {
            seq![first]
        } else if s.len() - next < w && end < s.len() {
            seq![first, join(s.subrange(next, s.len() as int), seq![' '])]
        } else {
            seq![first] + windows_from(s, next, w, stride)
        }
    }
}

/// The chunks `merge_windows` builds from `s`.
pub open spec fn windows(s: Seq<Seq<char>>, window_size: nat, overlap: nat) -> Seq<Seq<char>> {
    let w = effective_window(window_size);
    let o = effective_overlap(window_size, overlap);
    if s.len() == 0 {
        Seq::empty()
    } else if s.len() <= w {
        seq![join(s, seq![' '])]
    } else {
        windows_from(s, 0, w as int, (w - o) as int)
    }
}

/// Merge sentences into sliding-window chunks.
///
/// `window_size` controls how many sentences per chunk (default 3); `overlap` how many
/// sentences adjacent windows share (default 1). Fewer sentences than a window give one
/// chunk holding them all.
pub fn merge_windows(sentences: &[String], window_size: usize, overlap: usize) -> (r: Vec<
    String,
>)
    ensures
        views(r@) == windows(views(sentences@), window_size as nat, overlap as nat),
{
    let ghost s = views(sentences@);
    let ghost target = windows(s, window_size as nat, overlap as nat);
    proof {
        reveal_strlit(" ");
        assert(" "@ =~= seq![' ']);
    }
    if sentences.len() == 0 {
        return Vec::new();
    }
    let w = if window_size < 1 {
        1
    } else {
        window_size
    };
    let o = if overlap < w - 1 {
        overlap
    } else {
        w - 1
    };
    assert(w == effective_window(window_size as nat));
    assert(o == effective_overlap(window_size as nat, overlap as nat));
    let stride = w - o;
    let n = sentences.len();
    if n <= w {
        let all = join_range(sentences, 0, n, " ");
        proof {
            assert(sentences@.subrange(0, n as int) =~= sentences@);
        }
        let mut one: Vec<String> = Vec::new();
        one.push(all);
        assert(views(one@) =~= seq![all@]);
        return one;
    }
    let mut out: Vec<String> = Vec::new();
    let mut start: usize = 0;
    while start < n
        invariant
            n == sentences@.len(),
            s == views(sentences@),
            1 <= stride <= w,
            n > w,
            start < n,
            " "@ == seq![' '],
            windows_from(s, 0, w as int, stride as int) == target,
            target == windows(views(sentences@), window_size as nat, overlap as nat),
            views(out@) + windows_from(s, start as int, w as int, stride as int)
                == target,
        decreases n - start,
    {
        let end = if start <= n - w {
            start + w
        } else {
            n
        };
        let first = join_range(sentences, start, end, " ");
        let ghost before = views(out@);
        proof {
            assert(views(sentences@.subrange(start as int, end as int)) =~= s.subrange(
                start as int,
                end as int,
            ));
        }
        out.push(first);
        assert(views(out@) =~= before.push(first@));
        if stride >= n - start {
            assert(views(out@) =~= before + seq![first@]);
            return out;
        }
        let next = start + stride;
        if n - next < w && end < n {
            let tail = join_range(sentences, next, n, " ");
            proof {
                assert(views(sentences@.subrange(next as int, n as int)) =~= s.subrange(
                    next as int,
                    n as int,
                ));
            }
            let ghost mid = views(out@);
            out.push(tail);
            assert(views(out@) =~= before + seq![first@, tail@]);
            return out;
        }
        assert(before + (seq![first@] + windows_from(s, next as int, w as int, stride as int))
            =~= views(out@) + windows_from(s, next as int, w as int, stride as int));
        start = next;
    }
    out
}


// ---------------------------------------------------------------------------
// Laws
// ---------------------------------------------------------------------------
proof fn lemma_sentences_from_nonempty(s: Seq<char>, start: int, i: int)
    ensures
        forall|k: int|
            0 <= k < sentences_from(s, start, i).len() ==> (#[trigger] sentences_from(s, start, i)[k]).len() > 0,
    decreases s.len() - i,
{
    if i < 0 || i >= s.len() {
        if 0 <= start < s.len() {
            let x = normalized(s.subrange(start, s.len() as int));
            assert(sentences_from(s, start, i) == keep(x));
            if x.len() > 0 {
                assert(keep(x) =~= seq![x]);
            }
        }
    } else if is_cut(s, i) {
        lemma_sentences_from_nonempty(s, i + 1, i + 1);
        let x = normalized(s.subrange(start, i + 1));
        let a = keep(x);
        if x.len() > 0 {
            assert(a =~= seq![x]);
        }
        let b = sentences_from(s, i + 1, i + 1);
        assert forall|k: int| 0 <= k < (a + b).len() implies (#[trigger] (a + b)[k]).len() > 0 by {
            if k >= a.len() {
                assert((a + b)[k] == b[k - a.len()]);
            } else {
                assert((a + b)[k] == a[k]);
            }
        }
        assert(sentences_from(s, start, i) == a + b);
    } else {
        lemma_sentences_from_nonempty(s, start, i + 1);
        assert(sentences_from(s, start, i) == sentences_from(s, start, i + 1));
    }
}

/// No sentence is empty.
pub proof fn law_sentences_nonempty(s: Seq<char>)
    ensures
        forall|k: int| 0 <= k < sentences(s).len() ==> (#[trigger] sentences(s)[k]).len() > 0,
{
    lemma_sentences_from_nonempty(s, 0, 0);
}

/// No sentences give no windows; sentences that fit in one window give exactly one window,
/// holding them all joined by spaces; and any sentence at all gives at least one window.
pub proof fn law_window_counts(s: Seq<Seq<char>>, window_size: nat, overlap: nat)
    ensures
        s.len() == 0 ==> windows(s, window_size, overlap).len() == 0,
        0 < s.len() <= effective_window(window_size) ==> windows(s, window_size, overlap) == seq![
            join(s, seq![' ']),
        ],
        s.len() > 0 ==> windows(s, window_size, overlap).len() > 0,
{
    let w = effective_window(window_size);
    let o = effective_overlap(window_size, overlap);
    if s.len() > w {
        assert(w - o > 0);
    }
}

/// The end of the run of sentences that a window starting at `p` covers.
pub open spec fn window_end(n: int, p: int, w: int) -> int {
    if p + w <= n {
        p + w
    } else {
        n
    }
}

proof fn lemma_windows_from_layout(s: Seq<Seq<char>>, start: int, w: int, stride: int)
    requires
        0 <= start < s.len(),
        1 <= stride <= w,
    ensures
        windows_from(s, start, w, stride).len() > 0,
        forall|k: int|
            #![trigger windows_from(s, start, w, stride)[k]]
            0 <= k < windows_from(s, start, w, stride).len() ==> windows_from(s, start, w, stride)[k]
                == join(
                s.subrange(start + k * stride, window_end(s.len() as int, start + k * stride, w)),
                seq![' '],
            ) && start + k * stride < s.len(),
        start + (windows_from(s, start, w, stride).len() - 1) * stride + w >= s.len(),
    decreases s.len() - start,
{
    let n = s.len() as int;
    let r = windows_from(s, start, w, stride);
    let end = window_end(n, start, w);
    let next = start + stride;
    let first = join(s.subrange(start, end), seq![' ']);
    if next >= n {
        assert(r == seq![first]);
        assert forall|k: int| 0 <= k < r.len() implies {
            let p = start + k * stride;
            &&& p < s.len()
            &&& #[trigger] r[k] == join(s.subrange(p, window_end(n, p, w)), seq![' '])
        } by {
            assert(k == 0);
            assert(start + k * stride == start);
        }
    } else if n - next < w && end < n {
        let tail = join(s.subrange(next, n), seq![' ']);
        assert(r == seq![first, tail]);
        assert forall|k: int| 0 <= k < r.len() implies {
            let p = start + k * stride;
            &&& p < s.len()
            &&& #[trigger] r[k] == join(s.subrange(p, window_end(n, p, w)), seq![' '])
        } by {
            if k == 0 {
                assert(start + k * stride == start);
            } else {
                assert(k == 1);
                assert(start + k * stride == next);
                assert(window_end(n, next, w) == n);
            }
        }
        assert(start + (r.len() - 1) * stride == next);
    } else {
        lemma_windows_from_layout(s, next, w, stride);
        let rest = windows_from(s, next, w, stride);
        assert(r == seq![first] + rest);
        assert forall|k: int| 0 <= k < r.len() implies {
            let p = start + k * stride;
            &&& p < s.len()
            &&& #[trigger] r[k] == join(s.subrange(p, window_end(n, p, w)), seq![' '])
        } by {
            if k == 0 {
                assert(start + k * stride == start);
            } else {
                assert(r[k] == rest[k - 1]);
                assert(next + (k - 1) * stride == start + k * stride) by (nonlinear_arith)
                    requires
                        next == start + stride,
                ;
            }
        }
        assert(next + (rest.len() - 1) * stride == start + (r.len() - 1) * stride)
            by (nonlinear_arith)
            requires
                next == start + stride,
                r.len() == rest.len() + 1,
        ;
    }
}

/// How the windows lie over the sentences: with `stride` the window size less the overlap,
/// window `k` is the run of consecutive sentences that begins at sentence `k * stride` and
/// holds a full window of them, or as many as are left; the last window reaches the last
/// sentence, so every sentence lies in some window, and two adjacent windows share exactly
/// `overlap` sentences wherever the first of them is full.
pub proof fn law_window_layout(s: Seq<Seq<char>>, window_size: nat, overlap: nat)
    requires
        s.len() > 0,
    ensures
        ({
            let w = effective_window(window_size) as int;
            let stride = w - effective_overlap(window_size, overlap);
            let r = windows(s, window_size, overlap);
            &&& forall|k: int|
                #![trigger r[k]]
                0 <= k < r.len() ==> {
                    let p = k * stride;
                    &&& r[k] == join(s.subrange(p, window_end(s.len() as int, p, w)), seq![' '])
                    &&& p < s.len()
                }
            &&& (r.len() - 1) * stride + w >= s.len()
        }),
{
    let w = effective_window(window_size) as int;
    let stride = w - effective_overlap(window_size, overlap);
    let r = windows(s, window_size, overlap);
    let n = s.len() as int;
    if n <= w {
        assert(r == seq![join(s, seq![' '])]);
        assert(s.subrange(0 * stride, window_end(n, 0 * stride, w)) =~= s);
    } else {
        lemma_windows_from_layout(s, 0, w, stride);
        assert(r == windows_from(s, 0, w, stride));
        assert forall|k: int| 0 <= k < r.len() implies {
            let p = k * stride;
            &&& #[trigger] r[k] == join(s.subrange(p, window_end(n, p, w)), seq![' '])
            &&& p < s.len()
        } by {
            assert(r[k] == windows_from(s, 0, w, stride)[k]);
            assert(0 + k * stride == k * stride);
        }
    }
}

proof fn lemma_blank_words(s: Seq<char>)
    requires
        forall|k: int| 0 <= k < s.len() ==> is_ws(#[trigger] s[k]),
    ensures
        words(s).len() == 0,
    decreases s.len(),
{
    if s.len() > 0 {
        let p = s.drop_last();
        assert forall|k: int| 0 <= k < p.len() implies is_ws(#[trigger] p[k]) by {
            assert(p[k] == s[k]);
        }
        lemma_blank_words(p);
        assert(is_ws(s[s.len() - 1]));
    }
}

proof fn lemma_blank_sentences_from(s: Seq<char>, start: int, i: int)
    requires
        forall|k: int| 0 <= k < s.len() ==> is_ws(#[trigger] s[k]),
        0 <= start <= i,
    ensures
        sentences_from(s, start, i).len() == 0,
    decreases s.len() - i,
{
    if i < 0 || i >= s.len() {
        if 0 <= start < s.len() {
            let x = s.subrange(start, s.len() as int);
            assert forall|k: int| 0 <= k < x.len() implies is_ws(#[trigger] x[k]) by {
                assert(x[k] == s[start + k]);
            }
            lemma_blank_words(x);
            assert(normalized(x) == join(Seq::<Seq<char>>::empty(), seq![' ']));
        }
    } else if is_cut(s, i) {
        lemma_blank_sentences_from(s, i + 1, i + 1);
        let x = s.subrange(start, i + 1);
        assert forall|k: int| 0 <= k < x.len() implies is_ws(#[trigger] x[k]) by {
            assert(x[k] == s[start + k]);
        }
        lemma_blank_words(x);
        assert(normalized(x) == join(Seq::<Seq<char>>::empty(), seq![' ']));
        assert(keep(normalized(x)).len() == 0);
    } else {
        lemma_blank_sentences_from(s, start, i + 1);
    }
}

/// Text made only of whitespace (the empty text included) has no sentences.
pub proof fn law_blank_text_has_no_sentences(s: Seq<char>)
    requires
        forall|k: int| 0 <= k < s.len() ==> is_ws(#[trigger] s[k]),
    ensures
        sentences(s).len() == 0,
{
    lemma_blank_sentences_from(s, 0, 0);
}


/// No word of `s` holds a character that `s` does not hold.
proof fn lemma_words_avoid(s: Seq<char>, d: char)
    requires
        !s.contains(d),
    ensures
        forall|k: int, j: int|
            0 <= k < words(s).len() && 0 <= j < words(s)[k].len() ==> #[trigger] words(s)[k][j] != d,
    decreases s.len(),
{
    if s.len() > 0 {
        let p = s.drop_last();
        assert(!p.contains(d)) by {
            if p.contains(d) {
                let i = choose|i: int| 0 <= i < p.len() && p[i] == d;
                assert(s[i] == d);
            }
        }
        lemma_words_avoid(p, d);
        let w = words(p);
        let c = s.last();
        assert(s[s.len() - 1] == c);
        let ws = words(s);
        assert forall|k: int, j: int| 0 <= k < ws.len() && 0 <= j < ws[k].len() implies #[trigger] ws[k][j]
            != d by {
            if is_ws(c) {
            } else if s.len() >= 2 && !is_ws(s[s.len() - 2]) && w.len() > 0 {
                if k < w.len() - 1 {
                    assert(ws[k] == w[k]);
                } else {
                    assert(ws[k] == w.last().push(c));
                    if j < w.last().len() {
                        assert(w.last()[j] == w[w.len() - 1][j]);
                    }
                }
            } else {
                if k < w.len() {
                    assert(ws[k] == w[k]);
                }
            }
        }
    }
}

/// Joining parts that avoid `d` with a separator that avoids it gives text that avoids it.
proof fn lemma_join_avoid(parts: Seq<Seq<char>>, sep: Seq<char>, d: char)
    requires
        forall|k: int, j: int| 0 <= k < parts.len() && 0 <= j < parts[k].len() ==> #[trigger] parts[k][j] != d,
        !sep.contains(d),
    ensures
        !join(parts, sep).contains(d),
    decreases parts.len(),
{
    if parts.len() == 1 {
        assert forall|j: int| 0 <= j < parts[0].len() implies parts[0][j] != d by {
            assert(parts[0][j] != d);
        }
    } else if parts.len() > 1 {
        let p = parts.drop_last();
        assert forall|k: int, j: int| 0 <= k < p.len() && 0 <= j < p[k].len() implies #[trigger] p[k][j] != d by {
            assert(p[k] == parts[k]);
        }
        lemma_join_avoid(p, sep, d);
        let a = join(p, sep);
        let l = parts.last();
        let r = a + sep + l;
        assert forall|i: int| 0 <= i < r.len() implies r[i] != d by {
            if i < a.len() {
                assert(r[i] == a[i]);
            } else if i < a.len() + sep.len() {
                assert(r[i] == sep[i - a.len()]);
            } else {
                assert(r[i] == l[i - a.len() - sep.len()]);
                assert(l == parts[parts.len() - 1]);
            }
        }
    }
}

/// A piece that avoids `d` up to its last character normalizes to text that avoids `d` up
/// to its last character.
proof fn lemma_piece_avoid(q: Seq<char>, c: char, d: char)
    requires
        !q.contains(d),
        !is_ws(d),
    ensures
        forall|j: int| 0 <= j < normalized(q.push(c)).len() - 1 ==> #[trigger] normalized(q.push(c))[j] != d,
{
    let p = q.push(c);
    assert(p.drop_last() =~= q);
    assert(p.last() == c);
    let w = words(q);
    lemma_words_avoid(q, d);
    assert(!seq![' '].contains(d)) by {
        if seq![' '].contains(d) {
            assert(seq![' '][0] == d);
        }
    }
    lemma_join_avoid(w, seq![' '], d);
    let n = join(w, seq![' ']);
    let r = normalized(p);
    if is_ws(c) {
        assert(words(p) == w);
        assert forall|j: int| 0 <= j < r.len() - 1 implies #[trigger] r[j] != d by {
            assert(r[j] == n[j]);
        }
    } else if p.len() >= 2 && !is_ws(p[p.len() - 2]) && w.len() > 0 {
        lemma_join_extend_last(w, seq![' '], c);
        assert(r == n.push(c));
        assert forall|j: int| 0 <= j < r.len() - 1 implies #[trigger] r[j] != d by {
            assert(r[j] == n[j]);
        }
    } else {
        assert(words(p) == w.push(seq![c]));
        lemma_join_push(w, seq![' '], seq![c]);
        if w.len() == 0 {
            assert(r == seq![c]);
        } else {
            assert(r == n + seq![' '] + seq![c]);
            assert forall|j: int| 0 <= j < r.len() - 1 implies #[trigger] r[j] != d by {
                if j < n.len() {
                    assert(r[j] == n[j]);
                } else {
                    assert(r[j] == ' ');
                }
            }
        }
    }
}

proof fn lemma_tail_avoid(q: Seq<char>, d: char)
    requires
        !q.contains(d),
        !is_ws(d),
    ensures
        !normalized(q).contains(d),
{
    lemma_words_avoid(q, d);
    assert(!seq![' '].contains(d)) by {
        if seq![' '].contains(d) {
            assert(seq![' '][0] == d);
        }
    }
    lemma_join_avoid(words(q), seq![' '], d);
}

/// `?`, `!` and a newline each close the sentence they end.
pub proof fn law_marks_close_sentences(s: Seq<char>, i: int)
    requires
        0 <= i < s.len(),
        s[i] == '?' || s[i] == '!' || s[i] == '\n',
    ensures
        is_cut(s, i),
{
}

proof fn lemma_sentences_from_marks(s: Seq<char>, start: int, i: int, d: char)
    requires
        0 <= start <= i,
        d == '?' || d == '!',
        forall|j: int| start <= j < i && j < s.len() ==> s[j] != d,
    ensures
        forall|k: int, j: int|
            0 <= k < sentences_from(s, start, i).len() && 0 <= j < sentences_from(s, start, i)[k].len() - 1
                ==> #[trigger] sentences_from(s, start, i)[k][j] != d,
    decreases s.len() - i,
{
    let r = sentences_from(s, start, i);
    if i >= s.len() {
        if start < s.len() {
            let q = s.subrange(start, s.len() as int);
            assert(!q.contains(d)) by {
                if q.contains(d) {
                    let m = choose|m: int| 0 <= m < q.len() && q[m] == d;
                    assert(s[start + m] == d);
                }
            }
            lemma_tail_avoid(q, d);
            let x = normalized(q);
            assert(r == keep(x));
            if x.len() > 0 {
                assert(r == seq![x]);
                assert forall|k: int, j: int| 0 <= k < r.len() && 0 <= j < r[k].len() - 1 implies #[trigger] r[k][j]
                    != d by {
                    assert(r[k] == x);
                    assert(x[j] != d);
                }
            }
        }
    } else if is_cut(s, i) {
        lemma_sentences_from_marks(s, i + 1, i + 1, d);
        let q = s.subrange(start, i);
        assert(s.subrange(start, i + 1) =~= q.push(s[i]));
        assert(!q.contains(d)) by {
            if q.contains(d) {
                let m = choose|m: int| 0 <= m < q.len() && q[m] == d;
                assert(s[start + m] == d);
            }
        }
        lemma_piece_avoid(q, s[i], d);
        let x = normalized(q.push(s[i]));
        let a = keep(x);
        let b = sentences_from(s, i + 1, i + 1);
        assert(r == a + b);
        assert forall|k: int, j: int| 0 <= k < r.len() && 0 <= j < r[k].len() - 1 implies #[trigger] r[k][j]
            != d by {
            if k < a.len() {
                assert(a =~= seq![x]);
                assert(r[k] == x);
            } else {
                assert(r[k] == b[k - a.len()]);
                assert(b[k - a.len()][j] != d);
            }
        }
    } else {
        assert(s[i] != d);
        lemma_sentences_from_marks(s, start, i + 1, d);
        assert(r == sentences_from(s, start, i + 1));
    }
}

/// A question mark or an exclamation mark ends the sentence it is in: in every sentence,
/// `?` and `!` occur only as its last character. So a question followed by more text
/// gives two sentences.
pub proof fn law_marks_end_sentences(s: Seq<char>)
    ensures
        forall|k: int, j: int|
            0 <= k < sentences(s).len() && 0 <= j < sentences(s)[k].len() - 1 ==> #[trigger] sentences(s)[k][j]
                != '?' && sentences(s)[k][j] != '!',
{
    lemma_sentences_from_marks(s, 0, 0, '?');
    lemma_sentences_from_marks(s, 0, 0, '!');
}


/// A period at the very end of the text closes the last sentence.
pub proof fn law_final_period_cuts(s: Seq<char>)
    requires
        s.len() > 0,
        s.last() == '.',
    ensures
        is_cut(s, s.len() - 1),
{
}

/// A period inside a token (followed by a character other than whitespace, as in `3.14`,
/// `example.com` or the first dots of `...`) does not close a sentence, unless it is the
/// last dot of an ellipsis.
pub proof fn law_period_inside_token(s: Seq<char>, i: int)
    requires
        0 <= i < s.len() - 1,
        s[i] == '.',
        !is_ws(s[i + 1]),
        i == 0 || s[i - 1] != '.',
    ensures
        !is_cut(s, i),
{
}

/// A period after a known abbreviation (`e.g`, `i.e`, `etc`, `Dr`, `Mr`, `Fig`, `Jan`, ...,
/// in any case) followed by whitespace does not close a sentence.
pub proof fn law_abbreviation_period(s: Seq<char>, i: int)
    requires
        0 < i < s.len() - 1,
        s[i] == '.',
        s[i - 1] != '.',
        is_ws(s[i + 1]),
        ({
            let w = lower(word_before(s, i));
            ||| w == "e.g"@ || w == "i.e"@ || w == "etc"@ || w == "vs"@ || w == "dr"@ || w == "mr"@
            ||| w == "mrs"@ || w == "ms"@ || w == "prof"@ || w == "sr"@ || w == "jr"@ || w == "al"@
            ||| w == "fig"@ || w == "eq"@ || w == "no"@ || w == "vol"@ || w == "rev"@ || w == "dept"@
            ||| w == "approx"@ || w == "incl"@ || w == "est"@ || w == "st"@ || w == "ave"@ || w == "blvd"@
            ||| w == "gen"@ || w == "gov"@ || w == "sgt"@ || w == "cpl"@ || w == "pvt"@ || w == "capt"@
            ||| w == "lt"@ || w == "col"@ || w == "maj"@ || w == "cmdr"@ || w == "adm"@ || w == "jan"@
            ||| w == "feb"@ || w == "mar"@ || w == "apr"@ || w == "jun"@ || w == "jul"@ || w == "aug"@
            ||| w == "sep"@ || w == "oct"@ || w == "nov"@ || w == "dec"@ || w == "cf"@ || w == "viz"@
        }),
    ensures
        !is_cut(s, i),
{
    let a = abbreviations();
    assert(a[0] == "e.g" && a[1] == "i.e" && a[2] == "etc" && a[3] == "vs" && a[4] == "dr" && a[5] == "mr" && a[6] == "mrs" && a[7] == "ms" && a[8] == "prof" && a[9] == "sr" && a[10] == "jr" && a[11] == "al" && a[12] == "fig" && a[13] == "eq" && a[14] == "no" && a[15] == "vol" && a[16] == "rev" && a[17] == "dept" && a[18] == "approx" && a[19] == "incl" && a[20] == "est" && a[21] == "st" && a[22] == "ave" && a[23] == "blvd" && a[24] == "gen" && a[25] == "gov" && a[26] == "sgt" && a[27] == "cpl" && a[28] == "pvt" && a[29] == "capt" && a[30] == "lt" && a[31] == "col" && a[32] == "maj" && a[33] == "cmdr" && a[34] == "adm" && a[35] == "jan" && a[36] == "feb" && a[37] == "mar" && a[38] == "apr" && a[39] == "jun" && a[40] == "jul" && a[41] == "aug" && a[42] == "sep" && a[43] == "oct" && a[44] == "nov" && a[45] == "dec" && a[46] == "cf" && a[47] == "viz");
}

proof fn lemma_abbreviations_short()
    ensures
        forall|k: int| 0 <= k < abbreviations().len() ==> (#[trigger] abbreviations()[k])@.len() <= 6,
{
    reveal_strlit("e.g");
    reveal_strlit("i.e");
    reveal_strlit("etc");
    reveal_strlit("vs");
    reveal_strlit("dr");
    reveal_strlit("mr");
    reveal_strlit("mrs");
    reveal_strlit("ms");
    reveal_strlit("prof");
    reveal_strlit("sr");
    reveal_strlit("jr");
    reveal_strlit("al");
    reveal_strlit("fig");
    reveal_strlit("eq");
    reveal_strlit("no");
    reveal_strlit("vol");
    reveal_strlit("rev");
    reveal_strlit("dept");
    reveal_strlit("approx");
    reveal_strlit("incl");
    reveal_strlit("est");
    reveal_strlit("st");
    reveal_strlit("ave");
    reveal_strlit("blvd");
    reveal_strlit("gen");
    reveal_strlit("gov");
    reveal_strlit("sgt");
    reveal_strlit("cpl");
    reveal_strlit("pvt");
    reveal_strlit("capt");
    reveal_strlit("lt");
    reveal_strlit("col");
    reveal_strlit("maj");
    reveal_strlit("cmdr");
    reveal_strlit("adm");
    reveal_strlit("jan");
    reveal_strlit("feb");
    reveal_strlit("mar");
    reveal_strlit("apr");
    reveal_strlit("jun");
    reveal_strlit("jul");
    reveal_strlit("aug");
    reveal_strlit("sep");
    reveal_strlit("oct");
    reveal_strlit("nov");
    reveal_strlit("dec");
    reveal_strlit("cf");
    reveal_strlit("viz");
    let a = abbreviations();
    assert(a[0] == "e.g" && a[1] == "i.e" && a[2] == "etc" && a[3] == "vs" && a[4] == "dr" && a[5] == "mr" && a[6] == "mrs" && a[7] == "ms" && a[8] == "prof" && a[9] == "sr" && a[10] == "jr" && a[11] == "al" && a[12] == "fig" && a[13] == "eq" && a[14] == "no" && a[15] == "vol" && a[16] == "rev" && a[17] == "dept" && a[18] == "approx" && a[19] == "incl" && a[20] == "est" && a[21] == "st" && a[22] == "ave" && a[23] == "blvd" && a[24] == "gen" && a[25] == "gov" && a[26] == "sgt" && a[27] == "cpl" && a[28] == "pvt" && a[29] == "capt" && a[30] == "lt" && a[31] == "col" && a[32] == "maj" && a[33] == "cmdr" && a[34] == "adm" && a[35] == "jan" && a[36] == "feb" && a[37] == "mar" && a[38] == "apr" && a[39] == "jun" && a[40] == "jul" && a[41] == "aug" && a[42] == "sep" && a[43] == "oct" && a[44] == "nov" && a[45] == "dec" && a[46] == "cf" && a[47] == "viz");
}

proof fn lemma_word_start_bounds(s: Seq<char>, j: int)
    requires
        0 <= j <= s.len(),
    ensures
        0 <= word_start(s, j) <= j,
    decreases j,
{
    if j > 0 && !is_ws(s[j - 1]) {
        lemma_word_start_bounds(s, j - 1);
    }
}

/// A period after an ordinary long word (seven characters or more, without a dot), followed
/// by whitespace and a capital letter, closes a sentence.
pub proof fn law_period_before_capital_cuts(s: Seq<char>, i: int)
    requires
        0 < i,
        i + 2 < s.len(),
        s[i] == '.',
        is_ws(s[i + 1]),
        is_upper(s[i + 2]),
        word_before(s, i).len() >= 7,
        !word_before(s, i).contains('.'),
    ensures
        is_cut(s, i),
{
    lemma_word_start_bounds(s, i);
    let w = word_before(s, i);
    assert(w[w.len() - 1] == s[i - 1]);
    assert(s[i - 1] != '.');
    assert(!is_ws(s[i + 2]));
    assert(peek_after(s, i + 2) == Some(s[i + 2]));
    assert(peek_after(s, i + 1) == Some(s[i + 2]));
    lemma_abbreviations_short();
    assert(lower(w).len() == w.len());
    assert(!is_abbreviation(lower(w))) by {
        if is_abbreviation(lower(w)) {
            let k = choose|k: int| 0 <= k < abbreviations().len() && (#[trigger] abbreviations()[k])@ == lower(w);
            assert(abbreviations()[k]@.len() <= 6);
        }
    }
}

} // verus!
