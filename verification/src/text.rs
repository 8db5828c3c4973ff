//! Character-level helpers shared by the chunking and crawling code: whitespace and
//! ASCII case as `char` documents them, and searching within character sequences.
use vstd::prelude::*;

verus! {

/// Whether `c` is in the Unicode `White_Space` set, which is what `char::is_whitespace` tests.
pub open spec fn is_ws(c: char) -> bool {
    ||| ('\u{9}' <= c && c <= '\u{d}')
    ||| c == ' '
    ||| c == '\u{85}'
    ||| c == '\u{a0}'
    ||| c == '\u{1680}'
    ||| ('\u{2000}' <= c && c <= '\u{200a}')
    ||| c == '\u{2028}'
    ||| c == '\u{2029}'
    ||| c == '\u{202f}'
    ||| c == '\u{205f}'
    ||| c == '\u{3000}'
}

pub fn is_whitespace(c: char) -> (r: bool)
    ensures
        r == is_ws(c),
{
    ('\u{9}' <= c && c <= '\u{d}') || c == ' ' || c == '\u{85}' || c == '\u{a0}' || c
        == '\u{1680}' || ('\u{2000}' <= c && c <= '\u{200a}') || c == '\u{2028}' || c
        == '\u{2029}' || c == '\u{202f}' || c == '\u{205f}' || c == '\u{3000}'
}

pub open spec fn is_upper(c: char) -> bool {
    'A' <= c && c <= 'Z'
}

pub open spec fn is_lower(c: char) -> bool {
    'a' <= c && c <= 'z'
}

pub open spec fn is_digit(c: char) -> bool {
    '0' <= c && c <= '9'
}

/// ASCII lower-casing of one character; other characters are unchanged.
pub open spec fn lower_char(c: char) -> char {
    if is_upper(c) {
        ((c as u32) + 32) as char
    } else {
        c
    }
}

/// ASCII lower-casing of a character sequence.
pub open spec fn lower(s: Seq<char>) -> Seq<char> {
    s.map_values(|c: char| lower_char(c))
}

/// `char::to_ascii_lowercase`: maps 'A'..='Z' to 'a'..='z' and leaves every other
/// character as it is.
pub assume_specification[ char::to_ascii_lowercase ](c: &char) -> (r: char)
    ensures
        r == lower_char(*c),
;

pub open spec fn starts_with(s: Seq<char>, p: Seq<char>) -> bool {
    p.len() <= s.len() && s.take(p.len() as int) == p
}

pub open spec fn ends_with(s: Seq<char>, p: Seq<char>) -> bool {
    p.len() <= s.len() && s.skip(s.len() - p.len()) == p
}

/// `p` occurs in `s` starting at index `i`.
pub open spec fn occurs_at(s: Seq<char>, p: Seq<char>, i: int) -> bool {
    0 <= i && i + p.len() <= s.len() && s.subrange(i, i + p.len()) == p
}

pub open spec fn contains_sub(s: Seq<char>, p: Seq<char>) -> bool {
    exists|i: int| occurs_at(s, p, i)
}

/// The characters of a string, in order.
pub fn to_chars(s: &str) -> (v: Vec<char>)
    ensures
        v@ == s@,
{
    let mut v: Vec<char> = Vec::new();
    for c in it: s.chars()
        invariant
            v@ == it.seq().take(it.index() as int),
    {
        v.push(c);
    }
    v
}

/// The decimal digit for `d` (0 to 9).
pub open spec fn digit_char(d: nat) -> char {
    if d == 0 {
        '0'
    } else if d == 1 {
        '1'
    } else if d == 2 {
        '2'
    } else if d == 3 {
        '3'
    } else if d == 4 {
        '4'
    } else if d == 5 {
        '5'
    } else if d == 6 {
        '6'
    } else if d == 7 {
        '7'
    } else if d == 8 {
        '8'
    } else {
        '9'
    }
}

/// The decimal notation of `n`, without leading zeros, as `Display` writes an integer.
pub open spec fn decimal(n: nat) -> Seq<char>
    decreases n,
{
    if n < 10 {
        seq![digit_char(n)]
    } else {
        decimal(n / 10).push(digit_char(n % 10))
    }
}

pub(crate) fn digit_exec(d: usize) -> (c: char)
    requires
        d < 10,
    ensures
        c == digit_char(d as nat),
{
    if d == 0 {
        '0'
    } else if d == 1 {
        '1'
    } else if d == 2 {
        '2'
    } else if d == 3 {
        '3'
    } else if d == 4 {
        '4'
    } else if d == 5 {
        '5'
    } else if d == 6 {
        '6'
    } else if d == 7 {
        '7'
    } else if d == 8 {
        '8'
    } else {
        '9'
    }
}

/// The decimal digits of `n`.
pub fn decimal_chars(n: usize) -> (v: Vec<char>)
    ensures
        v@ == decimal(n as nat),
    decreases n,
{
    if n < 10 {
        let mut v: Vec<char> = Vec::new();
        v.push(digit_exec(n));
        assert(v@ =~= seq![digit_char(n as nat)]);
        v
    } else {
        let mut v = decimal_chars(n / 10);
        v.push(digit_exec(n % 10));
        v
    }
}

/// A `String` holding exactly the given characters.
#[verifier::external_body]
pub(crate) fn chars_to_string(v: &[char]) -> (s: String)
    ensures
        s@ == v@,
{
    v.iter().collect()
}

pub fn lower_chars(s: &[char]) -> (r: Vec<char>)
    ensures
        r@ == lower(s@),
{
    let mut r: Vec<char> = Vec::new();
    let mut i: usize = 0;
    while i < s.len()
        invariant
            i <= s.len(),
            r@ == lower(s@.take(i as int)),
        decreases s.len() - i,
    {
        let c = s[i].to_ascii_lowercase();
        r.push(c);
        i = i + 1;
        assert(lower(s@.take(i as int)) =~= lower(s@.take((i - 1) as int)).push(lower_char(s@[i - 1])));
    }
    assert(s@.take(s@.len() as int) =~= s@);
    r
}

pub fn seq_eq(a: &[char], b: &[char]) -> (r: bool)
    ensures
        r == (a@ == b@),
{
    if a.len() != b.len() {
        return false;
    }
    let mut i: usize = 0;
    while i < a.len()
        invariant
            a.len() == b.len(),
            i <= a.len(),
            forall|j: int| 0 <= j < i ==> a@[j] == b@[j],
        decreases a.len() - i,
    {
        if a[i] != b[i] {
            return false;
        }
        i = i + 1;
    }
    assert(a@ =~= b@);
    true
}

/// Whether `p` occurs in `s` at index `at`.
pub fn matches_at(s: &[char], p: &[char], at: usize) -> (r: bool)
    ensures
        r == occurs_at(s@, p@, at as int),
{
    if at > s.len() || p.len() > s.len() - at {
        return false;
    }
    let mut i: usize = 0;
    while i < p.len()
        invariant
            at + p.len() <= s.len(),
            i <= p.len(),
            forall|j: int| 0 <= j < i ==> s@[at + j] == p@[j],
        decreases p.len() - i,
    {
        if s[at + i] != p[i] {
            assert(s@.subrange(at as int, at + p.len())[i as int] != p@[i as int]);
            return false;
        }
        i = i + 1;
    }
    assert(s@.subrange(at as int, at + p.len()) =~= p@);
    true
}

pub fn has_prefix(s: &[char], p: &[char]) -> (r: bool)
    ensures
        r == starts_with(s@, p@),
{
    let r = matches_at(s, p, 0);
    proof {
        if p@.len() <= s@.len() {
            assert(s@.subrange(0, p@.len() as int) =~= s@.take(p@.len() as int));
        }
    }
    r
}

pub fn has_suffix(s: &[char], p: &[char]) -> (r: bool)
    ensures
        r == ends_with(s@, p@),
{
    if p.len() > s.len() {
        return false;
    }
    let r = matches_at(s, p, s.len() - p.len());
    proof {
        assert(s@.subrange(s@.len() - p@.len(), s@.len() as int) =~= s@.skip(s@.len() - p@.len()));
    }
    r
}

pub fn has_sub(s: &[char], p: &[char]) -> (r: bool)
    ensures
        r == contains_sub(s@, p@),
{
    if p.len() > s.len() {
        proof {
            assert forall|i: int| !occurs_at(s@, p@, i) by {}
        }
        return false;
    }
    if p.len() == 0 {
        assert(s@.subrange(0, 0) =~= p@);
        assert(occurs_at(s@, p@, 0));
        return true;
    }
    let mut i: usize = 0;
    while i <= s.len() - p.len()
        invariant
            1 <= p.len() <= s.len(),
            i <= s.len() - p.len() + 1,
            forall|j: int| 0 <= j < i ==> !occurs_at(s@, p@, j),
        decreases s.len() - p.len() + 1 - i,
    {
        if matches_at(s, p, i) {
            return true;
        }
        i = i + 1;
    }
    proof {
        assert forall|j: int| !occurs_at(s@, p@, j) by {
            if 0 <= j && j + p@.len() <= s@.len() {
                assert(j < i);
            }
        }
    }
    false
}

/// The characters of `s` with `p` in place of a prefix `p` removed, when `s` begins with `p`.
pub open spec fn strip_prefix(s: Seq<char>, p: Seq<char>) -> Seq<char> {
    if starts_with(s, p) {
        s.skip(p.len() as int)
    } else {
        s
    }
}

} // verus!

verus! {

/// `parts` joined with `sep` between neighbours, as `[T]::join` does.
pub open spec fn join(parts: Seq<Seq<char>>, sep: Seq<char>) -> Seq<char>
    decreases parts.len(),
{
    if parts.len() == 0 {
        Seq::empty()
    } else if parts.len() == 1 {
        parts[0]
    } else {
        join(parts.drop_last(), sep) + sep + parts.last()
    }
}

/// The character sequences of a slice of strings.
pub open spec fn views(v: Seq<String>) -> Seq<Seq<char>> {
    v.map_values(|s: String| s@)
}

pub proof fn lemma_join_push(parts: Seq<Seq<char>>, sep: Seq<char>, x: Seq<char>)
    ensures
        join(parts.push(x), sep) == (if parts.len() == 0 {
            x
        } else {
            join(parts, sep) + sep + x
        }),
{
    assert(parts.push(x).drop_last() =~= parts);
}

/// Joins `parts[from..to]` with `sep`.
pub fn join_range(parts: &[String], from: usize, to: usize, sep: &str) -> (r: String)
    requires
        from <= to <= parts.len(),
    ensures
        r@ == join(views(parts@.subrange(from as int, to as int)), sep@),
{
    let mut r = String::new();
    let mut i: usize = from;
    proof {
        assert(views(parts@.subrange(from as int, from as int)) =~= Seq::<Seq<char>>::empty());
    }
    while i < to
        invariant
            from <= i <= to <= parts.len(),
            r@ == join(views(parts@.subrange(from as int, i as int)), sep@),
        decreases to - i,
    {
        proof {
            lemma_join_push(views(parts@.subrange(from as int, i as int)), sep@, parts@[i as int]@);
            assert(views(parts@.subrange(from as int, i + 1)) =~= views(
                parts@.subrange(from as int, i as int),
            ).push(parts@[i as int]@));
        }
        if i > from {
            r.append(sep);
        }
        r.append(parts[i].as_str());
        i = i + 1;
    }
    r
}

} // verus!

verus! {

/// Index of the first non-whitespace character at or after `i` (`s.len()` if none).
pub open spec fn lead(s: Seq<char>, i: int) -> int
    decreases s.len() - i,
{
    if i < 0 || i >= s.len() {
        s.len() as int
    } else if is_ws(s[i]) {
        lead(s, i + 1)
    } else {
        i
    }
}

/// One past the last non-whitespace character before `j` (0 if none).
pub open spec fn trail(s: Seq<char>, j: int) -> int
    decreases j,
{
    if j <= 0 || j > s.len() {
        0
    } else if is_ws(s[j - 1]) {
        trail(s, j - 1)
    } else {
        j
    }
}

/// `s` without leading and trailing whitespace (`str::trim`).
pub open spec fn trim(s: Seq<char>) -> Seq<char> {
    if lead(s, 0) >= s.len() {
        Seq::empty()
    } else {
        s.subrange(lead(s, 0), trail(s, s.len() as int))
    }
}

proof fn lemma_trail_bounds(s: Seq<char>, j: int)
    requires
        0 <= j <= s.len(),
    ensures
        0 <= trail(s, j) <= j,
        trail(s, j) > 0 ==> !is_ws(s[trail(s, j) - 1]),
        forall|k: int| trail(s, j) <= k < j ==> is_ws(#[trigger] s[k]),
    decreases j,
{
    if j > 0 && is_ws(s[j - 1]) {
        lemma_trail_bounds(s, j - 1);
    }
}

pub proof fn lemma_lead_bounds(s: Seq<char>, i: int)
    requires
        0 <= i <= s.len(),
    ensures
        i <= lead(s, i) <= s.len(),
        lead(s, i) < s.len() ==> !is_ws(s[lead(s, i)]),
        forall|k: int| i <= k < lead(s, i) ==> is_ws(#[trigger] s[k]),
    decreases s.len() - i,
{
    if i < s.len() && is_ws(s[i]) {
        lemma_lead_bounds(s, i + 1);
    }
}

pub proof fn lemma_trim_bounds(s: Seq<char>)
    ensures
        lead(s, 0) < s.len() ==> lead(s, 0) < trail(s, s.len() as int) <= s.len(),
{
    lemma_lead_bounds(s, 0);
    lemma_trail_bounds(s, s.len() as int);
    if lead(s, 0) < s.len() && trail(s, s.len() as int) <= lead(s, 0) {
        assert(is_ws(s[lead(s, 0)]));
    }
}

/// Trimming twice trims no more than once, and keeps only characters of the input.
pub proof fn lemma_trim_idempotent(s: Seq<char>)
    ensures
        trim(trim(s)) == trim(s),
        forall|c: char| trim(s).contains(c) ==> s.contains(c),
{
    lemma_trim_bounds(s);
    lemma_lead_bounds(s, 0);
    lemma_trail_bounds(s, s.len() as int);
    let t = trim(s);
    if lead(s, 0) < s.len() {
        let a = lead(s, 0);
        let b = trail(s, s.len() as int);
        assert(t.len() > 0);
        assert(t[0] == s[a]);
        assert(!is_ws(t[0]));
        assert(lead(t, 0) == 0);
        assert(t[t.len() - 1] == s[b - 1]);
        assert(trail(t, t.len() as int) == t.len());
        assert(t.subrange(0, t.len() as int) =~= t);
        assert forall|c: char| t.contains(c) implies s.contains(c) by {
            let k = choose|k: int| 0 <= k < t.len() && t[k] == c;
            assert(s[a + k] == c);
        }
    } else {
        assert(t.len() == 0);
        assert(lead(t, 0) == 0);
    }
}

pub fn trim_chars(s: &[char]) -> (r: Vec<char>)
    ensures
        r@ == trim(s@),
{
    let mut i: usize = 0;
    while i < s.len() && is_whitespace(s[i])
        invariant
            i <= s.len(),
            lead(s@, 0) == lead(s@, i as int),
        decreases s.len() - i,
    {
        i = i + 1;
    }
    if i >= s.len() {
        return Vec::new();
    }
    let mut j: usize = s.len();
    while j > 0 && is_whitespace(s[j - 1])
        invariant
            j <= s.len(),
            trail(s@, s@.len() as int) == trail(s@, j as int),
        decreases j,
    {
        j = j - 1;
    }
    proof {
        lemma_trim_bounds(s@);
    }
    let mut r: Vec<char> = Vec::new();
    let mut k = i;
    while k < j
        invariant
            i <= k <= j <= s.len(),
            r@ == s@.subrange(i as int, k as int),
        decreases j - k,
    {
        r.push(s[k]);
        k = k + 1;
        assert(r@ =~= s@.subrange(i as int, k as int));
    }
    r
}

pub fn str_eq(a: &str, b: &str) -> (r: bool)
    ensures
        r == (a@ == b@),
{
    let x = to_chars(a);
    let y = to_chars(b);
    seq_eq(x.as_slice(), y.as_slice())
}

/// Whether `s` begins with one of the strings in `list`.
pub fn starts_with_any(s: &[char], list: &Vec<&'static str>) -> (r: bool)
    ensures
        r == exists|k: int| 0 <= k < list@.len() && starts_with(s@, (#[trigger] list@[k])@),
{
    let mut k: usize = 0;
    while k < list.len()
        invariant
            k <= list.len(),
            forall|j: int| 0 <= j < k ==> !starts_with(s@, (#[trigger] list@[j])@),
        decreases list.len() - k,
    {
        let p = to_chars(list[k]);
        if has_prefix(s, p.as_slice()) {
            return true;
        }
        k = k + 1;
    }
    false
}

/// Whether `s` ends with one of the strings in `list`.
pub fn ends_with_any(s: &[char], list: &Vec<&'static str>) -> (r: bool)
    ensures
        r == exists|k: int| 0 <= k < list@.len() && ends_with(s@, (#[trigger] list@[k])@),
{
    let mut k: usize = 0;
    while k < list.len()
        invariant
            k <= list.len(),
            forall|j: int| 0 <= j < k ==> !ends_with(s@, (#[trigger] list@[j])@),
        decreases list.len() - k,
    {
        let p = to_chars(list[k]);
        if has_suffix(s, p.as_slice()) {
            return true;
        }
        k = k + 1;
    }
    false
}

/// Whether `s` contains one of the strings in `list`.
pub fn contains_any(s: &[char], list: &Vec<&'static str>) -> (r: bool)
    ensures
        r == exists|k: int| 0 <= k < list@.len() && contains_sub(s@, (#[trigger] list@[k])@),
{
    let mut k: usize = 0;
    while k < list.len()
        invariant
            k <= list.len(),
            forall|j: int| 0 <= j < k ==> !contains_sub(s@, (#[trigger] list@[j])@),
        decreases list.len() - k,
    {
        let p = to_chars(list[k]);
        if has_sub(s, p.as_slice()) {
            return true;
        }
        k = k + 1;
    }
    false
}

} // verus!

verus! {

pub fn eq_lit(s: &[char], lit: &str) -> (r: bool)
    ensures
        r == (s@ == lit@),
{
    let l = to_chars(lit);
    seq_eq(s, l.as_slice())
}

pub fn starts_lit(s: &[char], lit: &str) -> (r: bool)
    ensures
        r == starts_with(s@, lit@),
{
    let l = to_chars(lit);
    has_prefix(s, l.as_slice())
}

pub fn ends_lit(s: &[char], lit: &str) -> (r: bool)
    ensures
        r == ends_with(s@, lit@),
{
    let l = to_chars(lit);
    has_suffix(s, l.as_slice())
}

pub fn contains_lit(s: &[char], lit: &str) -> (r: bool)
    ensures
        r == contains_sub(s@, lit@),
{
    let l = to_chars(lit);
    has_sub(s, l.as_slice())
}

/// Whether `s` equals one of the strings in `list`.
pub fn eq_any(s: &[char], list: &Vec<&'static str>) -> (r: bool)
    ensures
        r == exists|k: int| 0 <= k < list@.len() && (#[trigger] list@[k])@ == s@,
{
    let mut k: usize = 0;
    while k < list.len()
        invariant
            k <= list.len(),
            forall|j: int| 0 <= j < k ==> (#[trigger] list@[j])@ != s@,
        decreases list.len() - k,
    {
        if eq_lit(s, list[k]) {
            return true;
        }
        k = k + 1;
    }
    false
}

pub fn contains_char(s: &[char], c: char) -> (r: bool)
    ensures
        r == s@.contains(c),
{
    let mut i: usize = 0;
    while i < s.len()
        invariant
            i <= s.len(),
            forall|j: int| 0 <= j < i ==> s@[j] != c,
        decreases s.len() - i,
    {
        if s[i] == c {
            return true;
        }
        i = i + 1;
    }
    false
}

/// `s` with the prefix `p` removed when it has one.
pub fn strip_prefix_chars(s: &[char], p: &[char]) -> (r: Vec<char>)
    ensures
        r@ == strip_prefix(s@, p@),
{
    let start = if has_prefix(s, p) {
        p.len()
    } else {
        0
    };
    let mut r: Vec<char> = Vec::new();
    let mut i = start;
    while i < s.len()
        invariant
            start <= i <= s.len(),
            r@ == s@.subrange(start as int, i as int),
        decreases s.len() - i,
    {
        r.push(s[i]);
        i = i + 1;
        assert(r@ =~= s@.subrange(start as int, i as int));
    }
    assert(s@.subrange(start as int, s@.len() as int) =~= s@.skip(start as int));
    assert(s@.skip(0) =~= s@);
    r
}

} // verus!

verus! {

/// Lexicographic order on character sequences by code point, which is the order of their
/// UTF-8 encodings and so the order `Ord` gives `str`.
pub open spec fn seq_leq(a: Seq<char>, b: Seq<char>) -> bool
    decreases a.len(),
{
    if a.len() == 0 {
        true
    } else if b.len() == 0 {
        false
    } else if a[0] != b[0] {
        a[0] < b[0]
    } else {
        seq_leq(a.drop_first(), b.drop_first())
    }
}

pub proof fn lemma_seq_leq_refl(a: Seq<char>)
    ensures
        seq_leq(a, a),
    decreases a.len(),
{
    if a.len() > 0 {
        lemma_seq_leq_refl(a.drop_first());
    }
}

pub proof fn lemma_seq_leq_antisym(a: Seq<char>, b: Seq<char>)
    requires
        seq_leq(a, b),
        seq_leq(b, a),
    ensures
        a == b,
    decreases a.len(),
{
    if a.len() > 0 && b.len() > 0 {
        if a[0] == b[0] {
            lemma_seq_leq_antisym(a.drop_first(), b.drop_first());
            assert(a =~= seq![a[0]] + a.drop_first());
            assert(b =~= seq![b[0]] + b.drop_first());
        }
    } else {
        assert(a =~= b);
    }
}

pub proof fn lemma_seq_leq_trans(a: Seq<char>, b: Seq<char>, c: Seq<char>)
    requires
        seq_leq(a, b),
        seq_leq(b, c),
    ensures
        seq_leq(a, c),
    decreases a.len(),
{
    if a.len() > 0 && b.len() > 0 && c.len() > 0 {
        if a[0] == b[0] && b[0] == c[0] {
            lemma_seq_leq_trans(a.drop_first(), b.drop_first(), c.drop_first());
        }
    }
}

pub proof fn lemma_seq_leq_total(a: Seq<char>, b: Seq<char>)
    ensures
        seq_leq(a, b) || seq_leq(b, a),
    decreases a.len(),
{
    if a.len() > 0 && b.len() > 0 {
        if a[0] == b[0] {
            lemma_seq_leq_total(a.drop_first(), b.drop_first());
        }
    }
}

/// The order of `(String, String)` tuples: by the first component, then the second.
pub open spec fn pair_leq(p: (Seq<char>, Seq<char>), q: (Seq<char>, Seq<char>)) -> bool {
    if p.0 == q.0 {
        seq_leq(p.1, q.1)
    } else {
        seq_leq(p.0, q.0)
    }
}

pub proof fn lemma_pair_leq_total_ordering()
    ensures
        vstd::relations::total_ordering(|p: (Seq<char>, Seq<char>), q: (Seq<char>, Seq<char>)| pair_leq(p, q)),
        vstd::relations::total_ordering(crate::crawler::canon::pair_order()),
{
    let f = |p: (Seq<char>, Seq<char>), q: (Seq<char>, Seq<char>)| pair_leq(p, q);
    assert forall|x: (Seq<char>, Seq<char>)| #[trigger] f(x, x) by {
        lemma_seq_leq_refl(x.1);
    }
    assert forall|x: (Seq<char>, Seq<char>), y: (Seq<char>, Seq<char>)|
        #[trigger] f(x, y) && #[trigger] f(y, x) implies x == y by {
        if x.0 == y.0 {
            lemma_seq_leq_antisym(x.1, y.1);
        } else {
            lemma_seq_leq_antisym(x.0, y.0);
        }
    }
    assert forall|x: (Seq<char>, Seq<char>), y: (Seq<char>, Seq<char>), z: (Seq<char>, Seq<char>)|
        #[trigger] f(x, y) && #[trigger] f(y, z) implies f(x, z) by {
        if x.0 == y.0 && y.0 == z.0 {
            lemma_seq_leq_trans(x.1, y.1, z.1);
        } else if x.0 == y.0 || y.0 == z.0 {
        } else {
            lemma_seq_leq_trans(x.0, y.0, z.0);
            if x.0 == z.0 {
                lemma_seq_leq_antisym(x.0, y.0);
            }
        }
    }
    assert forall|x: (Seq<char>, Seq<char>), y: (Seq<char>, Seq<char>)| #[trigger] f(x, y) || #[trigger] f(y, x) by {
        lemma_seq_leq_total(x.0, y.0);
        lemma_seq_leq_total(x.1, y.1);
    }
    assert(vstd::relations::reflexive(f));
    assert(vstd::relations::antisymmetric(f));
    assert(vstd::relations::transitive(f));
    assert(vstd::relations::strongly_connected(f));
}

/// Whether `a` sorts before or equal to `b`.
pub fn chars_leq(a: &[char], b: &[char]) -> (r: bool)
    ensures
        r == seq_leq(a@, b@),
{
    let mut i: usize = 0;
    assert(a@.skip(0) =~= a@);
    assert(b@.skip(0) =~= b@);
    while i < a.len() && i < b.len() && a[i] == b[i]
        invariant
            i <= a.len(),
            i <= b.len(),
            seq_leq(a@, b@) == seq_leq(a@.skip(i as int), b@.skip(i as int)),
        decreases a.len() - i,
    {
        proof {
            assert(a@.skip(i as int).drop_first() =~= a@.skip(i + 1));
            assert(b@.skip(i as int).drop_first() =~= b@.skip(i + 1));
        }
        i = i + 1;
    }
    if i == a.len() {
        true
    } else if i == b.len() {
        false
    } else {
        proof {
            assert(a@.skip(i as int)[0] == a@[i as int]);
            assert(b@.skip(i as int)[0] == b@[i as int]);
        }
        a[i] < b[i]
    }
}

} // verus!
