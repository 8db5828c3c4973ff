//! Link harvesting from community sites (Hacker News, lobste.rs, tildes.net): which of the
//! links they list are worth adding to the crawl frontier, and how the listings are paged.
use crate::crawler::policy::{is_label, lemma_rule_www_and_subdomains, rule_matches, subdomain};
use crate::crawler::urlparts::{parse_url, parsed_url};
use crate::pattern::{first_groups, group_views, regex_first_groups};
use crate::text::{
    chars_to_string, contains_lit, contains_sub, decimal, ends_with, ends_with_any, eq_lit, has_suffix,
    chars_leq, lemma_seq_leq_total, lemma_seq_leq_trans, lower, lower_chars, seq_eq, seq_leq, str_eq,
    starts_with, strip_prefix, strip_prefix_chars, to_chars, views,
};
use vstd::prelude::*;

verus! {

/// Hacker News stories need more points than this.
pub const HN_MIN_SCORE: u32 = 100;

/// At most this many Hacker News result pages are read.
pub const HN_MAX_PAGES: usize = 500;

/// Hacker News results come in pages of this many hits; a shorter page is the last.
pub const HN_PAGE_SIZE: usize = 1000;

/// lobste.rs stories need at least this score.
pub const LOBSTERS_MIN_SCORE: i64 = 10;

/// At most this many lobste.rs pages are read per listing.
pub const LOBSTERS_MAX_PAGES: usize = 200;

/// lobste.rs listings come in pages of this many stories; a shorter page is the last.
pub const LOBSTERS_PAGE_SIZE: usize = 25;

/// A host is harvested from when, without a leading `www.`, it is one of the harvest
/// domains (also taken without a leading `www.`) or a subdomain of one.
pub open spec fn harvest_match(host: Seq<char>, domain: Seq<char>) -> bool {
    let h = strip_prefix(host, "www."@);
    let d = strip_prefix(domain, "www."@);
    h == d || ends_with(h, seq!['.'] + d)
}

pub open spec fn harvest_allowed(host: Seq<char>) -> bool {
    exists|k: int| 0 <= k < harvest_hosts().len() && harvest_match(host, (#[trigger] harvest_hosts()[k])@)
}

fn harvest_match_exec(h: &[char], domain: &str) -> (r: bool)
    ensures
        r == ({
            let d = strip_prefix(domain@, "www."@);
            h@ == d || ends_with(h@, seq!['.'] + d)
        }),
{
    let d = strip_prefix_chars(to_chars(domain).as_slice(), to_chars("www.").as_slice());
    if seq_eq(h, d.as_slice()) {
        return true;
    }
    let mut dotted: Vec<char> = Vec::new();
    dotted.push('.');
    let mut rest = d.clone();
    dotted.append(&mut rest);
    assert(dotted@ =~= seq!['.'] + d@);
    has_suffix(h, dotted.as_slice())
}

/// Whether links to `host` are harvested (see `harvest_allowed`).
pub fn harvest_domain_allowed(host: &str) -> (r: bool)
    ensures
        r == harvest_allowed(host@),
{
    let h = strip_prefix_chars(to_chars(host).as_slice(), to_chars("www.").as_slice());
    let table = harvest_hosts_list();
    let mut k: usize = 0;
    while k < table.len()
        invariant
            k <= table.len(),
            table@ == harvest_hosts(),
            h@ == strip_prefix(host@, "www."@),
            forall|j: int| 0 <= j < k ==> !harvest_match(host@, (#[trigger] harvest_hosts()[j])@),
        decreases table.len() - k,
    {
        if harvest_match_exec(h.as_slice(), table[k]) {
            return true;
        }
        k = k + 1;
    }
    false
}

/// File extensions of links that are not pages.
pub open spec fn binary_exts() -> Seq<&'static str> {
    seq![".pdf", ".png", ".jpg", ".jpeg", ".gif", ".zip", ".tar", ".gz", ".mp4", ".mp3", ".woff", ".woff2", ".ttf", ".svg"]
}

pub open spec fn binary_link_path(path: Seq<char>) -> bool {
    exists|k: int| 0 <= k < binary_exts().len() && ends_with(lower(path), (#[trigger] binary_exts()[k])@)
}

/// Whether a link path names a file that is not a page (by its extension, in any case).
pub fn path_looks_binary(path: &str) -> (r: bool)
    ensures
        r == binary_link_path(path@),
{
    let mut exts: Vec<&'static str> = Vec::new();
    exts.push(".pdf");
    exts.push(".png");
    exts.push(".jpg");
    exts.push(".jpeg");
    exts.push(".gif");
    exts.push(".zip");
    exts.push(".tar");
    exts.push(".gz");
    exts.push(".mp4");
    exts.push(".mp3");
    exts.push(".woff");
    exts.push(".woff2");
    exts.push(".ttf");
    exts.push(".svg");
    assert(exts@ =~= binary_exts());
    let p = lower_chars(to_chars(path).as_slice());
    ends_with_any(p.as_slice(), &exts)
}

/// A link is worth harvesting when it parses, has a host, is `http` or `https`, does not
/// name a binary file, and its host is harvested from.
pub open spec fn worth_harvesting(url: Seq<char>) -> bool {
    match parsed_url(url) {
        None => false,
        Some(u) => match u.host {
            None => false,
            Some(h) => (u.scheme == "http"@ || u.scheme == "https"@) && !binary_link_path(u.path)
                && harvest_allowed(h),
        },
    }
}

/// Whether a listed link is worth adding to the frontier (see `worth_harvesting`).
pub fn url_worth_harvesting(url: &str) -> (r: bool)
    ensures
        r == worth_harvesting(url@),
{
    let u = match parse_url(url) {
        Some(u) => u,
        None => return false,
    };
    let allowed = match &u.host {
        None => return false,
        Some(h) => harvest_domain_allowed(h.as_str()),
    };
    let scheme = to_chars(u.scheme.as_str());
    if !(eq_lit(scheme.as_slice(), "http") || eq_lit(scheme.as_slice(), "https")) {
        return false;
    }
    if path_looks_binary(u.path.as_str()) {
        return false;
    }
    allowed
}

pub open spec fn hit_views(v: Seq<(String, u64)>) -> Seq<(Seq<char>, u64)> {
    v.map_values(|h: (String, u64)| (h.0@, h.1))
}

/// The links kept from a page of Hacker News hits (URL, creation time): non-empty and
/// worth harvesting, in order.
pub open spec fn hn_accepted(hits: Seq<(Seq<char>, u64)>) -> Seq<Seq<char>>
    decreases hits.len(),
{
    if hits.len() == 0 {
        Seq::empty()
    } else {
        let p = hn_accepted(hits.drop_last());
        let u = hits.last().0;
        if u.len() > 0 && worth_harvesting(u) {
            p.push(u)
        } else {
            p
        }
    }
}

/// The earliest positive creation time among the hits, if any.
pub open spec fn earliest_time(hits: Seq<(Seq<char>, u64)>) -> Option<u64>
    decreases hits.len(),
{
    if hits.len() == 0 {
        None
    } else {
        let p = earliest_time(hits.drop_last());
        let t = hits.last().1;
        if t == 0 {
            p
        } else {
            match p {
                None => Some(t),
                Some(m) => Some(if t < m { t } else { m }),
            }
        }
    }
}

/// One page of Hacker News hits, as (URL, creation time) with an empty URL and time 0
/// where a hit has none: the links worth harvesting, and the time before which the next
/// page is asked for (none when no hit has a time).
pub fn hn_page(hits: &[(String, u64)]) -> (r: (Vec<String>, Option<u64>))
    ensures
        views(r.0@) == hn_accepted(hit_views(hits@)),
        r.1 == earliest_time(hit_views(hits@)),
{
    let ghost hs = hit_views(hits@);
    let mut out: Vec<String> = Vec::new();
    let mut min_ts: Option<u64> = None;
    let mut i: usize = 0;
    while i < hits.len()
        invariant
            i <= hits.len(),
            hs == hit_views(hits@),
            views(out@) == hn_accepted(hs.take(i as int)),
            min_ts == earliest_time(hs.take(i as int)),
        decreases hits.len() - i,
    {
        assert(hs.take(i + 1).drop_last() =~= hs.take(i as int));
        assert(hs.take(i + 1).last() == (hits@[i as int].0@, hits@[i as int].1));
        let url = &hits[i].0;
        let ts = hits[i].1;
        if !url.as_str().is_empty() && url_worth_harvesting(url.as_str()) {
            let ghost before = views(out@);
            out.push(url.clone());
            assert(views(out@) =~= before.push(url@));
        }
        if ts > 0 {
            min_ts = Some(
                match min_ts {
                    None => ts,
                    Some(m) => if ts < m {
                        ts
                    } else {
                        m
                    },
                },
            );
        }
        i = i + 1;
    }
    assert(hs.take(hits.len() as int) =~= hs);
    (out, min_ts)
}

/// Whether to ask Hacker News for another page after page `page` (counted from 0) returned
/// `hit_count` hits and the given time cursor: the page was full, a cursor was found, and
/// the page limit is not reached.
pub fn hn_continue(page: usize, hit_count: usize, cursor: Option<u64>) -> (r: bool)
    ensures
        r == (hit_count >= HN_PAGE_SIZE && cursor is Some && page + 1 < HN_MAX_PAGES),
{
    hit_count >= HN_PAGE_SIZE && cursor.is_some() && page < HN_MAX_PAGES - 1
}

fn decimal_u64(n: u64) -> (v: Vec<char>)
    ensures
        v@ == decimal(n as nat),
    decreases n,
{
    if n < 10 {
        let mut v: Vec<char> = Vec::new();
        v.push(crate::text::digit_exec(n as usize));
        assert(v@ =~= seq![crate::text::digit_char(n as nat)]);
        v
    } else {
        let mut v = decimal_u64(n / 10);
        v.push(crate::text::digit_exec((n % 10) as usize));
        v
    }
}

/// The numeric filter of a Hacker News query: stories with more than `HN_MIN_SCORE`
/// points, created before the cursor when there is one.
pub open spec fn hn_filter(cursor: Option<u64>) -> Seq<char> {
    match cursor {
        None => "points>100"@,
        Some(ts) => "points>100,created_at_i<"@ + decimal(ts as nat),
    }
}

/// Build the numeric filter of a Hacker News query (see `hn_filter`).
pub fn hn_numeric_filters(cursor: Option<u64>) -> (r: String)
    ensures
        r@ == hn_filter(cursor),
{
    match cursor {
        None => "points>100".to_owned(),
        Some(ts) => {
            let mut out = to_chars("points>100,created_at_i<");
            let mut d = decimal_u64(ts);
            out.append(&mut d);
            chars_to_string(out.as_slice())
        },
    }
}

pub open spec fn item_views(v: Seq<(i64, String)>) -> Seq<(i64, Seq<char>)> {
    v.map_values(|it: (i64, String)| (it.0, it.1@))
}

/// The links kept from a page of lobste.rs stories (score, URL): scored at least
/// `LOBSTERS_MIN_SCORE`, non-empty and worth harvesting, in order.
pub open spec fn lobsters_accepted(items: Seq<(i64, Seq<char>)>) -> Seq<Seq<char>>
    decreases items.len(),
{
    if items.len() == 0 {
        Seq::empty()
    } else {
        let p = lobsters_accepted(items.drop_last());
        let (score, u) = items.last();
        if score >= LOBSTERS_MIN_SCORE && u.len() > 0 && worth_harvesting(u) {
            p.push(u)
        } else {
            p
        }
    }
}

/// The links worth harvesting from one page of lobste.rs stories, given as (score, URL)
/// with score 0 and an empty URL where a story has none.
pub fn lobsters_page(items: &[(i64, String)]) -> (r: Vec<String>)
    ensures
        views(r@) == lobsters_accepted(item_views(items@)),
{
    let ghost its = item_views(items@);
    let mut out: Vec<String> = Vec::new();
    let mut i: usize = 0;
    while i < items.len()
        invariant
            i <= items.len(),
            its == item_views(items@),
            views(out@) == lobsters_accepted(its.take(i as int)),
        decreases items.len() - i,
    {
        assert(its.take(i + 1).drop_last() =~= its.take(i as int));
        assert(its.take(i + 1).last() == (items@[i as int].0, items@[i as int].1@));
        let score = items[i].0;
        let url = &items[i].1;
        if score >= LOBSTERS_MIN_SCORE && !url.as_str().is_empty() && url_worth_harvesting(url.as_str()) {
            let ghost before = views(out@);
            out.push(url.clone());
            assert(views(out@) =~= before.push(url@));
        }
        i = i + 1;
    }
    assert(its.take(items.len() as int) =~= its);
    out
}

/// The anchors of a tildes.net listing whose target is an absolute `http(s)` link.
pub const TILDES_LINK_PATTERN: &'static str = r#"href="(https?://[^"]+)""#;

/// The links kept from a tildes.net listing page: links away from tildes.net that are
/// worth harvesting, in order (a match without a link is passed over).
pub open spec fn tildes_accepted(links: Seq<Option<Seq<char>>>) -> Seq<Seq<char>>
    decreases links.len(),
{
    if links.len() == 0 {
        Seq::empty()
    } else {
        let p = tildes_accepted(links.drop_last());
        match links.last() {
            Some(u) => if !contains_sub(u, "tildes.net"@) && worth_harvesting(u) {
                p.push(u)
            } else {
                p
            },
            None => p,
        }
    }
}

/// The links worth harvesting from the HTML of one tildes.net listing page, and whether
/// the next page is worth reading (the page listed topics and gave at least one link).
pub fn tildes_page(body: &str) -> (r: (Vec<String>, bool))
    ensures
        match regex_first_groups(TILDES_LINK_PATTERN@, body@) {
            Some(links) => views(r.0@) == tildes_accepted(links),
            None => r.0@.len() == 0,
        },
        r.1 == (!contains_sub(body@, "No topics"@) && r.0@.len() > 0),
{
    let links = match first_groups(TILDES_LINK_PATTERN, body) {
        Some(l) => l,
        None => Vec::new(),
    };
    let ghost ls = group_views(links@);
    let mut out: Vec<String> = Vec::new();
    let mut i: usize = 0;
    while i < links.len()
        invariant
            i <= links.len(),
            ls == group_views(links@),
            views(out@) == tildes_accepted(ls.take(i as int)),
        decreases links.len() - i,
    {
        assert(ls.take(i + 1).drop_last() =~= ls.take(i as int));
        assert(ls.take(i + 1).last() == ls[i as int]);
        match &links[i] {
            Some(u) => {
                let uc = to_chars(u.as_str());
                if !contains_lit(uc.as_slice(), "tildes.net") && url_worth_harvesting(u.as_str()) {
                    let ghost before = views(out@);
                    out.push(u.clone());
                    assert(views(out@) =~= before.push(u@));
                }
            },
            None => {},
        }
        i = i + 1;
    }
    assert(ls.take(links.len() as int) =~= ls);
    let b = to_chars(body);
    let more = !contains_lit(b.as_slice(), "No topics") && out.len() > 0;
    (out, more)
}

/// Sorts the strings in the order of `String`'s `Ord` (see `seq_leq`), by insertion.
fn sort_strings(v: &mut Vec<String>)
    ensures
        views(final(v)@).to_multiset() == views(old(v)@).to_multiset(),
        final(v)@.len() == old(v)@.len(),
        forall|i: int, j: int|
            0 <= i < j < final(v)@.len() ==> seq_leq(#[trigger] views(final(v)@)[i], #[trigger] views(final(v)@)[j]),
{
    let ghost orig = views(v@);
    let mut out: Vec<String> = Vec::new();
    proof {
        assert(views(out@) =~= Seq::<Seq<char>>::empty());
        views(out@).to_multiset_ensures();
        vstd::multiset::lemma_multiset_empty_len(views(out@).to_multiset());
        assert(views(v@).to_multiset().add(views(out@).to_multiset()) =~= orig.to_multiset());
    }
    while v.len() > 0
        invariant
            out@.len() + v@.len() == orig.len(),
            views(v@).to_multiset().add(views(out@).to_multiset()) == orig.to_multiset(),
            forall|a: int, b: int|
                0 <= a < b < out@.len() ==> seq_leq(#[trigger] views(out@)[a], #[trigger] views(out@)[b]),
        decreases v.len(),
    {
        let ghost rest = views(v@);
        let x = v.pop().unwrap();
        let ghost xv = x@;
        proof {
            assert(views(v@) =~= rest.drop_last());
            assert(rest.drop_last().push(xv) =~= rest);
            vstd::seq_lib::to_multiset_build(rest.drop_last(), xv);
        }
        let xc = to_chars(x.as_str());
        let ghost ov = views(out@);
        let mut p: usize = 0;
        while p < out.len() && chars_leq(to_chars(out[p].as_str()).as_slice(), xc.as_slice())
            invariant
                p <= out.len(),
                ov == views(out@),
                xc@ == xv,
                forall|j: int| 0 <= j < p ==> seq_leq(#[trigger] ov[j], xv),
            decreases out.len() - p,
        {
            p = p + 1;
        }
        proof {
            if p < out.len() {
                assert(!seq_leq(ov[p as int], xv));
                lemma_seq_leq_total(ov[p as int], xv);
            }
        }
        out.insert(p, x);
        proof {
            let nv = views(out@);
            assert(nv =~= ov.insert(p as int, xv));
            vstd::seq_lib::to_multiset_insert(ov, p as int, xv);
            assert forall|a: int, b: int| 0 <= a < b < nv.len() implies seq_leq(#[trigger] nv[a], #[trigger] nv[b]) by {
                if b < p {
                    assert(nv[a] == ov[a] && nv[b] == ov[b]);
                } else if b == p {
                    assert(nv[a] == ov[a]);
                } else if a < p {
                    assert(nv[a] == ov[a] && nv[b] == ov[b - 1]);
                    if p < b - 1 {
                        lemma_seq_leq_trans(xv, ov[p as int], ov[b - 1]);
                    }
                    lemma_seq_leq_trans(ov[a], xv, ov[b - 1]);
                } else if a == p {
                    assert(nv[b] == ov[b - 1]);
                    if p < b - 1 {
                        lemma_seq_leq_trans(xv, ov[p as int], ov[b - 1]);
                    }
                } else {
                    assert(nv[a] == ov[a - 1] && nv[b] == ov[b - 1]);
                }
            }
            assert(views(v@).to_multiset().add(nv.to_multiset()) =~= orig.to_multiset());
        }
    }
    proof {
        views(v@).to_multiset_ensures();
        vstd::multiset::lemma_multiset_empty_len(views(v@).to_multiset());
        assert(views(v@).to_multiset() =~= vstd::multiset::Multiset::empty());
        assert(views(out@).to_multiset() =~= orig.to_multiset());
    }
    *v = out;
}

proof fn lemma_concat_contains(a: Seq<Seq<char>>, b: Seq<Seq<char>>, c: Seq<Seq<char>>, u: Seq<char>)
    ensures
        (a + b + c).contains(u) <==> (a.contains(u) || b.contains(u) || c.contains(u)),
{
    let j = a + b + c;
    if j.contains(u) {
        let k = choose|k: int| 0 <= k < j.len() && j[k] == u;
        if k < a.len() {
            assert(a[k] == u);
        } else if k < a.len() + b.len() {
            assert(b[k - a.len()] == u);
        } else {
            assert(c[k - a.len() - b.len()] == u);
        }
    }
    if a.contains(u) {
        let k = choose|k: int| 0 <= k < a.len() && a[k] == u;
        assert(j[k] == u);
    }
    if b.contains(u) {
        let k = choose|k: int| 0 <= k < b.len() && b[k] == u;
        assert(j[a.len() + k] == u);
    }
    if c.contains(u) {
        let k = choose|k: int| 0 <= k < c.len() && c[k] == u;
        assert(j[a.len() + b.len() + k] == u);
    }
}

/// Dropping repeats from a sorted sequence keeps it sorted, makes it strictly increasing,
/// and keeps every element.
fn dedup_sorted(all: &Vec<String>) -> (out: Vec<String>)
    requires
        forall|a: int, b: int|
            0 <= a < b < all@.len() ==> seq_leq(#[trigger] views(all@)[a], #[trigger] views(all@)[b]),
    ensures
        forall|a: int, b: int|
            0 <= a < b < out@.len() ==> seq_leq(#[trigger] views(out@)[a], #[trigger] views(out@)[b])
                && views(out@)[a] != views(out@)[b],
        forall|u: Seq<char>| views(out@).contains(u) <==> views(all@).contains(u),
{
    let ghost s = views(all@);
    let mut out: Vec<String> = Vec::new();
    let mut i: usize = 0;
    while i < all.len()
        invariant
            i <= all.len(),
            s == views(all@),
            forall|a: int, b: int| 0 <= a < b < s.len() ==> seq_leq(#[trigger] s[a], #[trigger] s[b]),
            forall|a: int, b: int|
                0 <= a < b < out@.len() ==> seq_leq(#[trigger] views(out@)[a], #[trigger] views(out@)[b])
                    && views(out@)[a] != views(out@)[b],
            i > 0 ==> out@.len() > 0 && views(out@).last() == s[i - 1],
            i == 0 ==> out@.len() == 0,
            forall|k: int| 0 <= k < out@.len() ==> exists|j: int| 0 <= j < i && s[j] == #[trigger] views(out@)[k],
            forall|j: int| 0 <= j < i ==> views(out@).contains(#[trigger] s[j]),
        decreases all.len() - i,
    {
        let keep = out.len() == 0 || !str_eq(out[out.len() - 1].as_str(), all[i].as_str());
        let ghost before = views(out@);
        assert(s[i as int] == all@[i as int]@);
        if keep {
            out.push(all[i].clone());
            proof {
                let o = views(out@);
                assert(o =~= before.push(s[i as int]));
                assert forall|a: int, b: int| 0 <= a < b < o.len() implies seq_leq(
                    #[trigger] o[a],
                    #[trigger] o[b],
                ) && o[a] != o[b] by {
                    if b == before.len() {
                        let k = choose|j: int| 0 <= j < i && s[j] == #[trigger] before[a];
                        assert(seq_leq(s[k], s[i as int]));
                        let last = before.len() - 1;
                        if a < last {
                            assert(seq_leq(before[a], before[last]));
                        } else {
                            crate::text::lemma_seq_leq_refl(before[a]);
                        }
                        assert(seq_leq(s[i - 1], s[i as int]));
                        if before[a] == s[i as int] {
                            crate::text::lemma_seq_leq_trans(s[i as int], before[last], s[i as int]);
                            crate::text::lemma_seq_leq_antisym(before[last], s[i as int]);
                        }
                    } else {
                        assert(o[a] == before[a] && o[b] == before[b]);
                    }
                }
                assert forall|k: int| 0 <= k < o.len() implies exists|j: int|
                    0 <= j < i + 1 && s[j] == #[trigger] o[k] by {
                    if k < before.len() {
                        assert(o[k] == before[k]);
                        let j = choose|j: int| 0 <= j < i && s[j] == #[trigger] before[k];
                        assert(s[j] == o[k]);
                    } else {
                        assert(s[i as int] == o[k]);
                    }
                }
                assert forall|j: int| 0 <= j < i + 1 implies o.contains(#[trigger] s[j]) by {
                    if j < i {
                        assert(before.contains(s[j]));
                        let k = choose|k: int| 0 <= k < before.len() && before[k] == s[j];
                        assert(o[k] == s[j]);
                    } else {
                        assert(o[before.len() as int] == s[j]);
                    }
                }
            }
        } else {
            proof {
                assert(before.last() == s[i as int]);
                assert forall|j: int| 0 <= j < i + 1 implies before.contains(#[trigger] s[j]) by {
                    if j == i {
                        assert(before[before.len() - 1] == s[j]);
                    }
                }
                assert forall|k: int| 0 <= k < before.len() implies exists|j: int|
                    0 <= j < i + 1 && s[j] == #[trigger] before[k] by {
                    let j = choose|j: int| 0 <= j < i && s[j] == #[trigger] before[k];
                    assert(s[j] == before[k]);
                }
            }
        }
        i = i + 1;
    }
    proof {
        let o = views(out@);
        assert forall|u: Seq<char>| o.contains(u) <==> s.contains(u) by {
            if o.contains(u) {
                let k = choose|k: int| 0 <= k < o.len() && o[k] == u;
                let j = choose|j: int| 0 <= j < i && s[j] == #[trigger] o[k];
                assert(s[j] == u);
            }
            if s.contains(u) {
                let j = choose|j: int| 0 <= j < s.len() && s[j] == u;
                assert(o.contains(s[j]));
            }
        }
    }
    out
}

/// All harvested links, each once, in sorted order.
pub fn merge_harvested(hn: Vec<String>, lobsters: Vec<String>, tildes: Vec<String>) -> (r: Vec<String>)
    ensures
        forall|i: int, j: int|
            0 <= i < j < r@.len() ==> seq_leq(#[trigger] views(r@)[i], #[trigger] views(r@)[j]) && views(r@)[i]
                != views(r@)[j],
        forall|u: Seq<char>|
            #![trigger views(r@).contains(u)]
            views(r@).contains(u) <==> (views(hn@).contains(u) || views(lobsters@).contains(u) || views(
                tildes@,
            ).contains(u)),
{
    let mut all = hn;
    let mut l = lobsters;
    let mut t = tildes;
    let ghost a0 = views(all@);
    let ghost l0 = views(l@);
    let ghost t0 = views(t@);
    all.append(&mut l);
    all.append(&mut t);
    let ghost joined = views(all@);
    assert(joined =~= a0 + l0 + t0);
    sort_strings(&mut all);
    let ghost s = views(all@);
    proof {
        assert forall|u: Seq<char>| s.contains(u) <==> (a0.contains(u) || l0.contains(u) || t0.contains(u)) by {
            s.to_multiset_ensures();
            joined.to_multiset_ensures();
            assert(s.to_multiset().count(u) == joined.to_multiset().count(u));
            lemma_concat_contains(a0, l0, t0, u);
        }
    }
    dedup_sorted(&all)
}

/// The domains whose links are harvested (a host matches a domain or one of its subdomains).
pub open spec fn harvest_hosts() -> Seq<&'static str> {
    harvest_hosts_0() + harvest_hosts_1() + harvest_hosts_2() + harvest_hosts_3() + harvest_hosts_4() + harvest_hosts_5() + harvest_hosts_6() + harvest_hosts_7() + harvest_hosts_8() + harvest_hosts_9() + harvest_hosts_10() + harvest_hosts_11()
}

pub open spec fn harvest_hosts_0() -> Seq<&'static str> {
    seq!["doc.rust-lang.org", "docs.python.org", "developer.mozilla.org", "en.wikipedia.org", "stackoverflow.com", "stackoverflow.blog", "cppreference.com", "en.cppreference.com", "blog.rust-lang.org", "blog.cloudflare.com", "jvns.ca", "martinfowler.com", "blog.acolyer.org", "eng.uber.com", "netflixtechblog.com", "research.google", "docs.rs", "go.dev", "nodejs.org", "kubernetes.io"]
}

fn push_harvest_hosts_0(v: &mut Vec<&'static str>)
    ensures
        final(v)@ == old(v)@ + harvest_hosts_0(),
{
    let ghost v0 = v@;
    v.push("doc.rust-lang.org");
    v.push("docs.python.org");
    v.push("developer.mozilla.org");
    v.push("en.wikipedia.org");
    v.push("stackoverflow.com");
    v.push("stackoverflow.blog");
    v.push("cppreference.com");
    v.push("en.cppreference.com");
    v.push("blog.rust-lang.org");
    v.push("blog.cloudflare.com");
    v.push("jvns.ca");
    v.push("martinfowler.com");
    v.push("blog.acolyer.org");
    v.push("eng.uber.com");
    v.push("netflixtechblog.com");
    v.push("research.google");
    v.push("docs.rs");
    v.push("go.dev");
    v.push("nodejs.org");
    v.push("kubernetes.io");
    assert(v@ =~= v0 + harvest_hosts_0());
}

pub open spec fn harvest_hosts_1() -> Seq<&'static str> {
    seq!["docs.docker.com", "learn.microsoft.com", "docs.julialang.org", "dev.to", "medium.com", "infoq.com", "highscalability.com", "engineering.fb.com", "aws.amazon.com", "arxiv.org", "paperswithcode.com", "distill.pub", "cacm.acm.org", "cs.stanford.edu", "ocw.mit.edu", "ask.ubuntu.com", "unix.stackexchange.com", "docs.swift.org", "kotlinlang.org", "docs.scala-lang.org"]
}

fn push_harvest_hosts_1(v: &mut Vec<&'static str>)
    ensures
        final(v)@ == old(v)@ + harvest_hosts_1(),
{
    let ghost v0 = v@;
    v.push("docs.docker.com");
    v.push("learn.microsoft.com");
    v.push("docs.julialang.org");
    v.push("dev.to");
    v.push("medium.com");
    v.push("infoq.com");
    v.push("highscalability.com");
    v.push("engineering.fb.com");
    v.push("aws.amazon.com");
    v.push("arxiv.org");
    v.push("paperswithcode.com");
    v.push("distill.pub");
    v.push("cacm.acm.org");
    v.push("cs.stanford.edu");
    v.push("ocw.mit.edu");
    v.push("ask.ubuntu.com");
    v.push("unix.stackexchange.com");
    v.push("docs.swift.org");
    v.push("kotlinlang.org");
    v.push("docs.scala-lang.org");
    assert(v@ =~= v0 + harvest_hosts_1());
}

pub open spec fn harvest_hosts_2() -> Seq<&'static str> {
    seq!["elixir-lang.org", "hexdocs.pm", "wiki.haskell.org", "ziglang.org", "docs.oracle.com", "slack.engineering", "dropbox.tech", "databricks.com", "grafana.com", "elastic.co", "shopify.engineering", "engineering.linkedin.com", "microservices.io", "sre.google", "owasp.org", "portswigger.net", "schneier.com", "terraform.io", "docs.ansible.com", "prometheus.io"]
}

fn push_harvest_hosts_2(v: &mut Vec<&'static str>)
    ensures
        final(v)@ == old(v)@ + harvest_hosts_2(),
{
    let ghost v0 = v@;
    v.push("elixir-lang.org");
    v.push("hexdocs.pm");
    v.push("wiki.haskell.org");
    v.push("ziglang.org");
    v.push("docs.oracle.com");
    v.push("slack.engineering");
    v.push("dropbox.tech");
    v.push("databricks.com");
    v.push("grafana.com");
    v.push("elastic.co");
    v.push("shopify.engineering");
    v.push("engineering.linkedin.com");
    v.push("microservices.io");
    v.push("sre.google");
    v.push("owasp.org");
    v.push("portswigger.net");
    v.push("schneier.com");
    v.push("terraform.io");
    v.push("docs.ansible.com");
    v.push("prometheus.io");
    assert(v@ =~= v0 + harvest_hosts_2());
}

pub open spec fn harvest_hosts_3() -> Seq<&'static str> {
    seq!["opentelemetry.io", "kafka.apache.org", "redis.io", "postgresql.org", "sqlite.org", "thenewstack.io", "systemdesign.one", "simonwillison.net", "danluu.com", "matklad.github.io", "without.boats", "joelonsoftware.com", "rachelbythebay.com", "oreilly.com", "cp-algorithms.com", "cstheory.stackexchange.com", "norvig.com", "kernel.org", "brendangregg.com", "pages.cs.wisc.edu"]
}

fn push_harvest_hosts_3(v: &mut Vec<&'static str>)
    ensures
        final(v)@ == old(v)@ + harvest_hosts_3(),
{
    let ghost v0 = v@;
    v.push("opentelemetry.io");
    v.push("kafka.apache.org");
    v.push("redis.io");
    v.push("postgresql.org");
    v.push("sqlite.org");
    v.push("thenewstack.io");
    v.push("systemdesign.one");
    v.push("simonwillison.net");
    v.push("danluu.com");
    v.push("matklad.github.io");
    v.push("without.boats");
    v.push("joelonsoftware.com");
    v.push("rachelbythebay.com");
    v.push("oreilly.com");
    v.push("cp-algorithms.com");
    v.push("cstheory.stackexchange.com");
    v.push("norvig.com");
    v.push("kernel.org");
    v.push("brendangregg.com");
    v.push("pages.cs.wisc.edu");
    assert(v@ =~= v0 + harvest_hosts_3());
}

pub open spec fn harvest_hosts_4() -> Seq<&'static str> {
    seq!["pdos.csail.mit.edu", "os.phil-opp.com", "linuxfromscratch.org", "lwn.net", "agner.org", "uops.info", "sandpile.org", "book.rvemu.app", "llvm.org", "clang.llvm.org", "gcc.gnu.org", "craftinginterpreters.com", "eli.thegreenplace.net", "cs.cornell.edu", "swtch.com", "softwarefoundations.cis.upenn.edu", "cs.cmu.edu", "homotopytypetheory.org", "xavierleroy.org", "faultlore.com"]
}

fn push_harvest_hosts_4(v: &mut Vec<&'static str>)
    ensures
        final(v)@ == old(v)@ + harvest_hosts_4(),
{
    let ghost v0 = v@;
    v.push("pdos.csail.mit.edu");
    v.push("os.phil-opp.com");
    v.push("linuxfromscratch.org");
    v.push("lwn.net");
    v.push("agner.org");
    v.push("uops.info");
    v.push("sandpile.org");
    v.push("book.rvemu.app");
    v.push("llvm.org");
    v.push("clang.llvm.org");
    v.push("gcc.gnu.org");
    v.push("craftinginterpreters.com");
    v.push("eli.thegreenplace.net");
    v.push("cs.cornell.edu");
    v.push("swtch.com");
    v.push("softwarefoundations.cis.upenn.edu");
    v.push("cs.cmu.edu");
    v.push("homotopytypetheory.org");
    v.push("xavierleroy.org");
    v.push("faultlore.com");
    assert(v@ =~= v0 + harvest_hosts_4());
}

pub open spec fn harvest_hosts_5() -> Seq<&'static str> {
    seq!["scattered-thoughts.net", "interdb.jp", "15445.courses.cs.cmu.edu", "15721.courses.cs.cmu.edu", "cockroachlabs.com", "jepsen.io", "martin.kleppmann.com", "muratbuffalo.blogspot.com", "fly.io", "explained.ai", "cs231n.github.io", "nlp.stanford.edu", "learnopengl.com", "vulkan-tutorial.com", "raytracing.github.io", "beej.us", "hacks.mozilla.org", "webassembly.org", "cryptopals.com", "blog.cryptographyengineering.com"]
}

fn push_harvest_hosts_5(v: &mut Vec<&'static str>)
    ensures
        final(v)@ == old(v)@ + harvest_hosts_5(),
{
    let ghost v0 = v@;
    v.push("scattered-thoughts.net");
    v.push("interdb.jp");
    v.push("15445.courses.cs.cmu.edu");
    v.push("15721.courses.cs.cmu.edu");
    v.push("cockroachlabs.com");
    v.push("jepsen.io");
    v.push("martin.kleppmann.com");
    v.push("muratbuffalo.blogspot.com");
    v.push("fly.io");
    v.push("explained.ai");
    v.push("cs231n.github.io");
    v.push("nlp.stanford.edu");
    v.push("learnopengl.com");
    v.push("vulkan-tutorial.com");
    v.push("raytracing.github.io");
    v.push("beej.us");
    v.push("hacks.mozilla.org");
    v.push("webassembly.org");
    v.push("cryptopals.com");
    v.push("blog.cryptographyengineering.com");
    assert(v@ =~= v0 + harvest_hosts_5());
}

pub open spec fn harvest_hosts_6() -> Seq<&'static str> {
    seq!["usenix.org", "isocpp.org", "abseil.io", "paulgraham.com", "thume.ca", "lamport.azurewebsites.net", "coq.inria.fr", "cl.cam.ac.uk", "interrupt.memfault.com", "quantum.country", "missing.csail.mit.edu", "staffeng.com", "nand2tetris.org", "apenwarr.ca", "aphyr.com", "acm.org", "bitbashing.io", "blog.golang.org", "blog.regehr.org", "blog.jessfraz.com"]
}

fn push_harvest_hosts_6(v: &mut Vec<&'static str>)
    ensures
        final(v)@ == old(v)@ + harvest_hosts_6(),
{
    let ghost v0 = v@;
    v.push("usenix.org");
    v.push("isocpp.org");
    v.push("abseil.io");
    v.push("paulgraham.com");
    v.push("thume.ca");
    v.push("lamport.azurewebsites.net");
    v.push("coq.inria.fr");
    v.push("cl.cam.ac.uk");
    v.push("interrupt.memfault.com");
    v.push("quantum.country");
    v.push("missing.csail.mit.edu");
    v.push("staffeng.com");
    v.push("nand2tetris.org");
    v.push("apenwarr.ca");
    v.push("aphyr.com");
    v.push("acm.org");
    v.push("bitbashing.io");
    v.push("blog.golang.org");
    v.push("blog.regehr.org");
    v.push("blog.jessfraz.com");
    assert(v@ =~= v0 + harvest_hosts_6());
}

pub open spec fn harvest_hosts_7() -> Seq<&'static str> {
    seq!["borretti.me", "browserengineering.book", "cacm.acm.org", "codewithoutrules.com", "commandcenter.blogspot.com", "corecursive.com", "cs.nyu.edu", "cppstories.com", "fasterthanli.me", "ferrous-systems.com", "fgiesen.wordpress.com", "gamasutra.com", "gankra.github.io", "github.com", "golangweekly.com", "gregoryszorc.com", "hn.algolia.com", "hugotunius.se", "jakewharton.com", "jameshfisher.com"]
}

fn push_harvest_hosts_7(v: &mut Vec<&'static str>)
    ensures
        final(v)@ == old(v)@ + harvest_hosts_7(),
{
    let ghost v0 = v@;
    v.push("borretti.me");
    v.push("browserengineering.book");
    v.push("cacm.acm.org");
    v.push("codewithoutrules.com");
    v.push("commandcenter.blogspot.com");
    v.push("corecursive.com");
    v.push("cs.nyu.edu");
    v.push("cppstories.com");
    v.push("fasterthanli.me");
    v.push("ferrous-systems.com");
    v.push("fgiesen.wordpress.com");
    v.push("gamasutra.com");
    v.push("gankra.github.io");
    v.push("github.com");
    v.push("golangweekly.com");
    v.push("gregoryszorc.com");
    v.push("hn.algolia.com");
    v.push("hugotunius.se");
    v.push("jakewharton.com");
    v.push("jameshfisher.com");
    assert(v@ =~= v0 + harvest_hosts_7());
}

pub open spec fn harvest_hosts_8() -> Seq<&'static str> {
    seq!["jasonlaster.github.io", "jeremykun.com", "jhjourdan.mketjh.fr", "johnnysswlab.com", "justine.lol", "kristerw.blogspot.com", "lobste.rs", "log.annulled.net", "luca.ntop.org", "lxr.sourceware.org", "maskray.me", "mcyoung.xyz", "mort.coffee", "mrale.ph", "mulle-kybernetik.com", "nee.lv", "neugierig.org", "nickdesaulniers.github.io", "nullprogram.com", "okmij.org"]
}

fn push_harvest_hosts_8(v: &mut Vec<&'static str>)
    ensures
        final(v)@ == old(v)@ + harvest_hosts_8(),
{
    let ghost v0 = v@;
    v.push("jasonlaster.github.io");
    v.push("jeremykun.com");
    v.push("jhjourdan.mketjh.fr");
    v.push("johnnysswlab.com");
    v.push("justine.lol");
    v.push("kristerw.blogspot.com");
    v.push("lobste.rs");
    v.push("log.annulled.net");
    v.push("luca.ntop.org");
    v.push("lxr.sourceware.org");
    v.push("maskray.me");
    v.push("mcyoung.xyz");
    v.push("mort.coffee");
    v.push("mrale.ph");
    v.push("mulle-kybernetik.com");
    v.push("nee.lv");
    v.push("neugierig.org");
    v.push("nickdesaulniers.github.io");
    v.push("nullprogram.com");
    v.push("okmij.org");
    assert(v@ =~= v0 + harvest_hosts_8());
}

pub open spec fn harvest_hosts_9() -> Seq<&'static str> {
    seq!["overreacted.io", "oxfeeefeee.github.io", "pling.app", "preshing.com", "pvk.ca", "ralfj.de", "ridiculousfish.com", "robert.ocallahan.org", "rxweb.io", "smallcultfollowing.com", "snoyman.com", "sunfishcode.online", "swlaschin.gitbooks.io", "tenderlovemaking.com", "thecodelesscode.com", "thorstenball.com", "timharris.uk", "timlrx.com", "tollef.no", "tonsky.me"]
}

fn push_harvest_hosts_9(v: &mut Vec<&'static str>)
    ensures
        final(v)@ == old(v)@ + harvest_hosts_9(),
{
    let ghost v0 = v@;
    v.push("overreacted.io");
    v.push("oxfeeefeee.github.io");
    v.push("pling.app");
    v.push("preshing.com");
    v.push("pvk.ca");
    v.push("ralfj.de");
    v.push("ridiculousfish.com");
    v.push("robert.ocallahan.org");
    v.push("rxweb.io");
    v.push("smallcultfollowing.com");
    v.push("snoyman.com");
    v.push("sunfishcode.online");
    v.push("swlaschin.gitbooks.io");
    v.push("tenderlovemaking.com");
    v.push("thecodelesscode.com");
    v.push("thorstenball.com");
    v.push("timharris.uk");
    v.push("timlrx.com");
    v.push("tollef.no");
    v.push("tonsky.me");
    assert(v@ =~= v0 + harvest_hosts_9());
}

pub open spec fn harvest_hosts_10() -> Seq<&'static str> {
    seq!["tratt.net", "univalent.foundations", "verdagon.dev", "wingolog.org", "words.filippo.io", "wordsandbuttons.online", "write.as", "www.aosabook.org", "www.cs.virginia.edu", "www.cs.yale.edu", "www.destroyallsoftware.com", "www.hillelwayne.com", "www.hyrumslaw.com", "www.pathsensitive.com", "www.pvk.ca", "www.tedinski.com", "www.theregister.com", "www.tweag.io", "www.usenix.org", "zig.news"]
}

fn push_harvest_hosts_10(v: &mut Vec<&'static str>)
    ensures
        final(v)@ == old(v)@ + harvest_hosts_10(),
{
    let ghost v0 = v@;
    v.push("tratt.net");
    v.push("univalent.foundations");
    v.push("verdagon.dev");
    v.push("wingolog.org");
    v.push("words.filippo.io");
    v.push("wordsandbuttons.online");
    v.push("write.as");
    v.push("www.aosabook.org");
    v.push("www.cs.virginia.edu");
    v.push("www.cs.yale.edu");
    v.push("www.destroyallsoftware.com");
    v.push("www.hillelwayne.com");
    v.push("www.hyrumslaw.com");
    v.push("www.pathsensitive.com");
    v.push("www.pvk.ca");
    v.push("www.tedinski.com");
    v.push("www.theregister.com");
    v.push("www.tweag.io");
    v.push("www.usenix.org");
    v.push("zig.news");
    assert(v@ =~= v0 + harvest_hosts_10());
}

pub open spec fn harvest_hosts_11() -> Seq<&'static str> {
    seq!["ziglang.org", "zserge.com"]
}

fn push_harvest_hosts_11(v: &mut Vec<&'static str>)
    ensures
        final(v)@ == old(v)@ + harvest_hosts_11(),
{
    let ghost v0 = v@;
    v.push("ziglang.org");
    v.push("zserge.com");
    assert(v@ =~= v0 + harvest_hosts_11());
}

fn harvest_hosts_list() -> (v: Vec<&'static str>)
    ensures
        v@ == harvest_hosts(),
{
    let mut v: Vec<&'static str> = Vec::new();
    push_harvest_hosts_0(&mut v);
    push_harvest_hosts_1(&mut v);
    push_harvest_hosts_2(&mut v);
    push_harvest_hosts_3(&mut v);
    push_harvest_hosts_4(&mut v);
    push_harvest_hosts_5(&mut v);
    push_harvest_hosts_6(&mut v);
    push_harvest_hosts_7(&mut v);
    push_harvest_hosts_8(&mut v);
    push_harvest_hosts_9(&mut v);
    push_harvest_hosts_10(&mut v);
    push_harvest_hosts_11(&mut v);
    assert(v@ =~= harvest_hosts_0() + harvest_hosts_1() + harvest_hosts_2() + harvest_hosts_3() + harvest_hosts_4() + harvest_hosts_5() + harvest_hosts_6() + harvest_hosts_7() + harvest_hosts_8() + harvest_hosts_9() + harvest_hosts_10() + harvest_hosts_11());
    v
}


/// The harvest host test ignores a leading `www.` of the host and takes every subdomain
/// of a host it takes.
pub proof fn law_harvest_www_and_subdomains(h: Seq<char>, l: Seq<char>)
    requires
        !starts_with(h, "www."@),
        is_label(l),
    ensures
        harvest_allowed("www."@ + h) == harvest_allowed(h),
        harvest_allowed(h) ==> harvest_allowed(subdomain(l, h)),
{
    assert forall|k: int| 0 <= k < harvest_hosts().len() implies harvest_match("www."@ + h, (#[trigger] harvest_hosts()[k])@)
        == harvest_match(h, harvest_hosts()[k]@) && (harvest_match(h, harvest_hosts()[k]@) ==> harvest_match(
        subdomain(l, h),
        harvest_hosts()[k]@,
    )) by {
        let d = harvest_hosts()[k]@;
        lemma_rule_www_and_subdomains(h, l, d);
        assert(harvest_match("www."@ + h, d) == rule_matches("www."@ + h, d));
        assert(harvest_match(h, d) == rule_matches(h, d));
        assert(harvest_match(subdomain(l, h), d) == rule_matches(subdomain(l, h), d));
    }
}

} // verus!
