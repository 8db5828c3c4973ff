//! Admission of URLs to the crawl frontier: which URLs become tasks, and the clean-up of
//! the URL lists a fetched page hands back.
use crate::crawler::canon::{canonical_url, canonicalize};
use crate::crawler::policy::{cap_for, domain_cap, score_url, url_allowed, url_ok, url_score};
use crate::crawler::robots::{is_allowed, path_allowed};
use crate::crawler::types::UrlTask;
use crate::crawler::urlparts::{UrlParts, UrlView};
use crate::pattern::{find_all, regex_find_all};
use crate::text::{chars_to_string, str_eq, to_chars, views};
use vstd::prelude::*;

verus! {

/// Links are followed at most this many hops from a seed.
pub const MAX_DEPTH: u16 = 6;

#[verifier::external_type_specification]
#[verifier::external_body]
pub struct ExSystemTime(std::time::SystemTime);

#[verifier::external_type_specification]
#[verifier::external_body]
pub struct ExSystemTimeError(std::time::SystemTimeError);

/// Calls `SystemTime::now`. Nothing is claimed of what it returns, which is the time.
#[verifier::external_body]
fn system_now() -> std::time::SystemTime {
    std::time::SystemTime::now()
}

/// Calls `SystemTime::duration_since` with `UNIX_EPOCH`: the time elapsed since the epoch,
/// or an error when `t` is before it. Nothing is claimed of which, since `t` is opaque.
#[verifier::external_body]
fn since_epoch(t: std::time::SystemTime) -> Result<std::time::Duration, std::time::SystemTimeError> {
    t.duration_since(std::time::UNIX_EPOCH)
}

/// Calls `Duration::as_millis`. Nothing is claimed of the value, since `d` is opaque.
#[verifier::external_body]
fn duration_millis(d: std::time::Duration) -> u128 {
    d.as_millis()
}

/// The timestamp stored for a read of the clock: the milliseconds as a signed 64-bit
/// number (truncating), or 0 when the clock was before the epoch.
pub fn timestamp_from_millis(ms: Option<u128>) -> (r: i64)
    ensures
        r == (match ms {
            Some(m) => m as i64,
            None => 0i64,
        }),
{
    match ms {
        Some(m) => m as i64,
        None => 0,
    }
}

/// Milliseconds since the Unix epoch, 0 if the clock is set before it. The value is the
/// time, so nothing is stated of it beyond `timestamp_from_millis`.
pub fn now_ms() -> i64 {
    let ms = match since_epoch(system_now()) {
        Ok(d) => Some(duration_millis(d)),
        Err(_) => None,
    };
    timestamp_from_millis(ms)
}

/// The URL a raw link becomes a task for, before the crawl state is consulted: within the
/// depth limit, canonical, allowed by the policy, with a host.
pub open spec fn candidate(raw: Seq<char>, depth: u16) -> Option<UrlView> {
    if depth > MAX_DEPTH {
        None
    } else {
        match canonical_url(raw) {
            None => None,
            Some(u) => if url_ok(u) && u.host is Some {
                Some(u)
            } else {
                None
            },
        }
    }
}

/// The first half of building a task for `raw_url` at `depth`: the canonical URL when it is
/// within the depth limit and allowed by the policy. The caller then looks up the crawl
/// state of its host and URL and calls `finish_task`.
pub fn task_candidate(raw_url: &str, depth: u16) -> (r: Option<UrlParts>)
    ensures
        match r {
            Some(u) => candidate(raw_url@, depth) == Some(u@),
            None => candidate(raw_url@, depth) is None,
        },
{
    if depth > MAX_DEPTH {
        return None;
    }
    let url = match canonicalize(raw_url) {
        Some(u) => u,
        None => return None,
    };
    if !url_allowed(&url) {
        return None;
    }
    if url.host.is_none() {
        return None;
    }
    Some(url)
}

/// Whether a candidate URL becomes a task: its host is under its page cap, it was not seen
/// nor stored before, and the host's robots rules (when known) allow its path.
pub open spec fn admitted(
    u: UrlView,
    processed: usize,
    seen: bool,
    stored: bool,
    rules: Option<Seq<Seq<char>>>,
) -> bool {
    &&& processed < cap_for(u.host.unwrap())
    &&& !seen
    &&& !stored
    &&& match rules {
        Some(r) => path_allowed(u.path, r),
        None => true,
    }
}

/// The second half of building a task: `processed` pages already stored for the host,
/// whether the URL was seen or its content stored, and the host's cached robots rules.
/// Returns the task, scored by the policy, when the URL is admitted.
pub fn finish_task(
    url: UrlParts,
    depth: u16,
    processed: usize,
    seen: bool,
    stored: bool,
    robots_rules: Option<&[String]>,
) -> (r: Option<UrlTask>)
    requires
        url.host is Some,
    ensures
        ({
            let rules = match robots_rules {
                Some(v) => Some(views(v@)),
                None => None,
            };
            match r {
                Some(t) => admitted(url@, processed, seen, stored, rules) && t@.url == url@.ser
                    && t@.host == url@.host.unwrap() && t@.depth == depth && t@.priority == url_score(
                    url@,
                    depth,
                ),
                None => !admitted(url@, processed, seen, stored, rules),
            }
        }),
{
    let host = match &url.host {
        Some(h) => h.clone(),
        None => return None,
    };
    if processed >= domain_cap(host.as_str()) {
        return None;
    }
    if seen || stored {
        return None;
    }
    match robots_rules {
        Some(rules) => {
            if !is_allowed(url.path.as_str(), rules) {
                return None;
            }
        },
        None => {},
    }
    let priority = score_url(&url, depth);
    Some(UrlTask { url: url.serialization.clone(), host, depth, priority })
}

/// The list with every entry after its first occurrence removed, and also every empty
/// entry when `drop_empty`.
pub open spec fn first_occurrences(s: Seq<Seq<char>>, drop_empty: bool) -> Seq<Seq<char>>
    decreases s.len(),
{
    if s.len() == 0 {
        Seq::empty()
    } else {
        let p = first_occurrences(s.drop_last(), drop_empty);
        let x = s.last();
        if (drop_empty && x.len() == 0) || p.contains(x) {
            p
        } else {
            p.push(x)
        }
    }
}

fn keep_first(urls: Vec<String>, drop_empty: bool) -> (r: Vec<String>)
    ensures
        views(r@) == first_occurrences(views(urls@), drop_empty),
{
    let ghost s = views(urls@);
    let mut out: Vec<String> = Vec::new();
    let mut i: usize = 0;
    while i < urls.len()
        invariant
            i <= urls.len(),
            s == views(urls@),
            views(out@) == first_occurrences(s.take(i as int), drop_empty),
        decreases urls.len() - i,
    {
        let u = &urls[i];
        assert(s.take(i + 1).drop_last() =~= s.take(i as int));
        assert(s.take(i + 1).last() == u@);
        let mut dup = false;
        let mut k: usize = 0;
        while k < out.len()
            invariant
                k <= out.len(),
                !dup ==> forall|j: int| 0 <= j < k ==> views(out@)[j] != u@,
                dup ==> views(out@).contains(u@),
            decreases out.len() - k,
        {
            if str_eq(out[k].as_str(), u.as_str()) {
                dup = true;
                assert(views(out@)[k as int] == u@);
            }
            k = k + 1;
        }
        if !((drop_empty && u.as_str().is_empty()) || dup) {
            let ghost before = views(out@);
            out.push(u.clone());
            assert(views(out@) =~= before.push(u@));
        }
        i = i + 1;
    }
    assert(s.take(urls.len() as int) =~= s);
    out
}

/// The aliases under which a page is recorded: the non-empty URLs, each once, in the order
/// of first appearance.
pub fn unique_aliases(urls: Vec<String>) -> (r: Vec<String>)
    ensures
        views(r@) == first_occurrences(views(urls@), true),
{
    keep_first(urls, true)
}

/// The outlinks of a page considered for the frontier: each URL once, in the order of first
/// appearance.
pub fn distinct_outlinks(urls: Vec<String>) -> (r: Vec<String>)
    ensures
        views(r@) == first_occurrences(views(urls@), false),
{
    keep_first(urls, false)
}

/// What a seed file yields URLs by: runs of `https://` followed by characters other than
/// whitespace, backquotes, bars, angle brackets, parentheses and double quotes.
pub const SEED_URL_PATTERN: &'static str = r#"https://[^\s`|<>()\"]+"#;

/// Punctuation that ends a sentence or a bracket after a URL rather than belonging to it.
pub open spec fn seed_trailing(c: char) -> bool {
    c == '.' || c == ',' || c == ';' || c == ')' || c == ']'
}

/// A matched URL with trailing punctuation removed.
pub open spec fn trim_seed_end(s: Seq<char>) -> Seq<char>
    decreases s.len(),
{
    if s.len() > 0 && seed_trailing(s.last()) {
        trim_seed_end(s.drop_last())
    } else {
        s
    }
}

/// Why a seed file gave no seeds.
#[derive(Debug, Clone, Copy, PartialEq, Eq, Structural)]
pub enum SeedError {
    /// The URL pattern was refused by the expression engine.
    BadPattern,
    /// The text holds no `https://` URL.
    NoSeeds,
}

/// The seed URLs found in a text: the matches of the seed pattern with trailing
/// punctuation removed, each once, in order of first appearance.
pub open spec fn seed_urls(text: Seq<char>) -> Option<Seq<Seq<char>>> {
    match regex_find_all(SEED_URL_PATTERN@, text) {
        None => None,
        Some(ms) => Some(first_occurrences(ms.map_values(|m: Seq<char>| trim_seed_end(m)), false)),
    }
}

fn trim_seed_end_exec(s: &str) -> (r: String)
    ensures
        r@ == trim_seed_end(s@),
{
    let v = to_chars(s);
    let mut n: usize = v.len();
    assert(v@.take(v@.len() as int) =~= v@);
    while n > 0 && (v[n - 1] == '.' || v[n - 1] == ',' || v[n - 1] == ';' || v[n - 1] == ')' || v[n
        - 1] == ']')
        invariant
            n <= v.len(),
            trim_seed_end(v@) == trim_seed_end(v@.take(n as int)),
        decreases n,
    {
        assert(v@.take(n as int).drop_last() =~= v@.take(n - 1));
        n = n - 1;
    }
    let mut out: Vec<char> = Vec::new();
    let mut i: usize = 0;
    while i < n
        invariant
            i <= n <= v.len(),
            out@ == v@.take(i as int),
        decreases n - i,
    {
        out.push(v[i]);
        i = i + 1;
        assert(out@ =~= v@.take(i as int));
    }
    assert(v@.take(v@.len() as int) =~= v@);
    chars_to_string(out.as_slice())
}

/// Read the seed URLs out of the text of a seed file (see `seed_urls`); an error when the
/// text holds none.
pub fn seed_urls_from_text(text: &str) -> (r: Result<Vec<String>, SeedError>)
    ensures
        match r {
            Ok(v) => seed_urls(text@) == Some(views(v@)) && v@.len() > 0,
            Err(SeedError::BadPattern) => seed_urls(text@) is None,
            Err(SeedError::NoSeeds) => seed_urls(text@) == Some(Seq::<Seq<char>>::empty()),
        },
{
    let matches = match find_all(SEED_URL_PATTERN, text) {
        Some(m) => m,
        None => return Err(SeedError::BadPattern),
    };
    let ghost ms = views(matches@);
    let mut trimmed: Vec<String> = Vec::new();
    let mut i: usize = 0;
    while i < matches.len()
        invariant
            i <= matches.len(),
            ms == views(matches@),
            views(trimmed@) == ms.take(i as int).map_values(|m: Seq<char>| trim_seed_end(m)),
        decreases matches.len() - i,
    {
        let t = trim_seed_end_exec(matches[i].as_str());
        let ghost before = views(trimmed@);
        assert(ms[i as int] == matches@[i as int]@);
        trimmed.push(t);
        assert(views(trimmed@) =~= before.push(t@));
        assert(views(trimmed@) =~= ms.take(i + 1).map_values(|m: Seq<char>| trim_seed_end(m)));
        i = i + 1;
    }
    assert(ms.take(matches.len() as int) =~= ms);
    let out = distinct_outlinks(trimmed);
    if out.len() == 0 {
        assert(views(out@) =~= Seq::<Seq<char>>::empty());
        return Err(SeedError::NoSeeds);
    }
    Ok(out)
}


/// The aliases and outlinks kept hold each entry once (and no empty entry when empty
/// entries are dropped), and they are exactly the entries of the input (the non-empty
/// ones, when empty entries are dropped).
pub proof fn law_first_occurrences(s: Seq<Seq<char>>, drop_empty: bool)
    ensures
        forall|a: int, b: int|
            0 <= a < b < first_occurrences(s, drop_empty).len() ==> (#[trigger] first_occurrences(
                s,
                drop_empty,
            )[a]) != (#[trigger] first_occurrences(s, drop_empty)[b]),
        forall|u: Seq<char>|
            #![trigger first_occurrences(s, drop_empty).contains(u)]
            first_occurrences(s, drop_empty).contains(u) <==> (s.contains(u) && !(drop_empty && u.len()
                == 0)),
    decreases s.len(),
{
    let r = first_occurrences(s, drop_empty);
    if s.len() == 0 {
        assert forall|u: Seq<char>| #[trigger] r.contains(u) <==> (s.contains(u) && !(drop_empty && u.len() == 0)) by {
            if s.contains(u) {
                let k = choose|k: int| 0 <= k < s.len() && s[k] == u;
            }
        }
    } else {
        let d = s.drop_last();
        let p = first_occurrences(d, drop_empty);
        law_first_occurrences(d, drop_empty);
        let x = s.last();
        let added = !((drop_empty && x.len() == 0) || p.contains(x));
        assert forall|u: Seq<char>| #[trigger] r.contains(u) <==> (s.contains(u) && !(drop_empty && u.len() == 0)) by {
            assert(p.contains(u) <==> (d.contains(u) && !(drop_empty && u.len() == 0)));
            assert(s.contains(u) <==> (d.contains(u) || u == x)) by {
                if s.contains(u) {
                    let k = choose|k: int| 0 <= k < s.len() && s[k] == u;
                    if k < s.len() - 1 {
                        assert(d[k] == u);
                    }
                }
                if d.contains(u) {
                    let k = choose|k: int| 0 <= k < d.len() && d[k] == u;
                    assert(s[k] == u);
                }
                if u == x {
                    assert(s[s.len() - 1] == u);
                }
            }
            if added {
                assert(r == p.push(x));
                assert(r.contains(u) <==> (p.contains(u) || u == x)) by {
                    if r.contains(u) {
                        let k = choose|k: int| 0 <= k < r.len() && r[k] == u;
                        if k < p.len() {
                            assert(p[k] == u);
                        }
                    }
                    if p.contains(u) {
                        let k = choose|k: int| 0 <= k < p.len() && p[k] == u;
                        assert(r[k] == u);
                    }
                    if u == x {
                        assert(r[p.len() as int] == u);
                    }
                }
            } else {
                assert(r == p);
            }
        }
        if added {
            assert forall|a: int, b: int| 0 <= a < b < r.len() implies (#[trigger] r[a]) != (#[trigger] r[b]) by {
                if b == p.len() {
                    assert(r[a] == p[a]);
                    assert(p.contains(p[a]));
                } else {
                    assert(r[a] == p[a] && r[b] == p[b]);
                }
            }
        }
    }
}

} // verus!
