//! The decisions taken on a fetched page: its canonical URL, the links it contributes to
//! the frontier, and whether it is worth storing.
use crate::crawler::canon::{canonical_url, canonicalize};
use crate::crawler::policy::{discovery_limit, discovery_limit_for_host, url_allowed, url_ok};
use crate::crawler::types::RejectReason;
use crate::crawler::urlparts::{join_url, joined_url, opt_view, UrlParts};
use crate::text::{str_eq, to_chars, trim, trim_chars, chars_to_string};
use vstd::prelude::*;

verus! {

/// Pages with less text than this many bytes are not stored.
pub const MIN_PAGE_TEXT_BYTES: usize = 400;

/// Pages with fewer text blocks than this are not stored.
pub const MIN_PAGE_BLOCKS: usize = 2;

/// For each element of an HTML document matched by a CSS selector, in document order, the
/// value of one of its attributes (`None` where the element lacks it); `None` when the
/// selector does not parse.
pub uninterp spec fn selected_attrs(html: Seq<char>, selector: Seq<char>, attr: Seq<char>) -> Option<
    Seq<Option<Seq<char>>>,
>;

pub open spec fn opt_views(v: Seq<Option<String>>) -> Seq<Option<Seq<char>>> {
    v.map_values(|o: Option<String>| opt_view(o))
}

/// Parses `selector` with `scraper::Selector::parse` and `html` with
/// `scraper::Html::parse_document`, and reads attribute `attr` of each element `select`
/// yields. The contract claims only that the result is a function of the three strings
/// (named `selected_attrs`); HTML and selector parsing are scraper's.
#[verifier::external_body]
fn select_attrs(html: &str, selector: &str, attr: &str) -> (r: Option<Vec<Option<String>>>)
    ensures
        match r {
            Some(v) => selected_attrs(html@, selector@, attr@) == Some(opt_views(v@)),
            None => selected_attrs(html@, selector@, attr@) is None,
        },
{
    let sel = scraper::Selector::parse(selector).ok()?;
    let document = scraper::Html::parse_document(html);
    Some(document.select(&sel).map(|e| e.value().attr(attr).map(|h| h.to_string())).collect())
}

/// The hrefs of the anchors of a page, in document order.
pub open spec fn anchor_hrefs(html: Seq<char>) -> Seq<Option<Seq<char>>> {
    match selected_attrs(html, "a[href]"@, "href"@) {
        Some(v) => v,
        None => Seq::empty(),
    }
}

/// The canonical link an href stands for on a page at `base`: joined onto the base,
/// canonical and allowed by the policy.
pub open spec fn link_of(base: Seq<char>, href: Option<Seq<char>>) -> Option<Seq<char>> {
    match href {
        None => None,
        Some(h) => match joined_url(base, h) {
            None => None,
            Some(abs) => match canonical_url(abs) {
                None => None,
                Some(u) => if url_ok(u) {
                    Some(u.ser)
                } else {
                    None
                },
            },
        },
    }
}

/// The links a page contributes: the distinct canonical links of its hrefs, in document
/// order, until `cap` of them are collected.
pub open spec fn links_upto(base: Seq<char>, hrefs: Seq<Option<Seq<char>>>, cap: nat) -> Seq<Seq<char>>
    decreases hrefs.len(),
{
    if hrefs.len() == 0 {
        Seq::empty()
    } else {
        let p = links_upto(base, hrefs.drop_last(), cap);
        if p.len() >= cap {
            p
        } else {
            match link_of(base, hrefs.last()) {
                Some(l) => if p.contains(l) {
                    p
                } else {
                    p.push(l)
                },
                None => p,
            }
        }
    }
}

/// How many links a page on this base may contribute.
pub open spec fn link_cap(base: Option<Seq<char>>) -> nat {
    match base {
        Some(h) => discovery_limit(h) as nat,
        None => 200,
    }
}

pub open spec fn link_views(v: Seq<String>) -> Seq<Seq<char>> {
    v.map_values(|s: String| s@)
}

fn link_of_exec(base: &str, href: &Option<String>) -> (r: Option<String>)
    ensures
        opt_view(r) == link_of(base@, opt_view(*href)),
{
    let h = match href {
        Some(h) => h,
        None => return None,
    };
    let abs = match join_url(base, h.as_str()) {
        Some(a) => a,
        None => return None,
    };
    let u = match canonicalize(abs.as_str()) {
        Some(u) => u,
        None => return None,
    };
    if url_allowed(&u) {
        Some(u.serialization)
    } else {
        None
    }
}

/// The links found on a page at `base`, given the hrefs of its anchors in document order:
/// each is joined onto the base, canonicalized and checked against the policy; each link
/// is kept once, and collection stops at the host's discovery limit.
pub fn links_from_hrefs(base: &UrlParts, hrefs: &[Option<String>]) -> (r: Vec<String>)
    ensures
        link_views(r@) == links_upto(base@.ser, opt_views(hrefs@), link_cap(base@.host)),
{
    let cap = match &base.host {
        Some(h) => discovery_limit_for_host(h.as_str()),
        None => 200,
    };
    let ghost hs = opt_views(hrefs@);
    let ghost c = link_cap(base@.host);
    let mut out: Vec<String> = Vec::new();
    let mut i: usize = 0;
    while i < hrefs.len()
        invariant
            i <= hrefs.len(),
            hs == opt_views(hrefs@),
            c == link_cap(base@.host),
            cap == c,
            link_views(out@) == links_upto(base@.ser, hs.take(i as int), c),
        decreases hrefs.len() - i,
    {
        assert(hs.take(i + 1).drop_last() =~= hs.take(i as int));
        assert(hs.take(i + 1).last() == opt_view(hrefs@[i as int]));
        if out.len() >= cap {
            i = i + 1;
            continue;
        }
        match link_of_exec(base.serialization.as_str(), &hrefs[i]) {
            Some(l) => {
                let mut dup = false;
                let mut k: usize = 0;
                while k < out.len()
                    invariant
                        k <= out.len(),
                        !dup ==> forall|j: int| 0 <= j < k ==> link_views(out@)[j] != l@,
                        dup ==> link_views(out@).contains(l@),
                    decreases out.len() - k,
                {
                    if str_eq(out[k].as_str(), l.as_str()) {
                        dup = true;
                        assert(link_views(out@)[k as int] == l@);
                    }
                    k = k + 1;
                }
                if !dup {
                    let ghost before = link_views(out@);
                    out.push(l);
                    assert(link_views(out@) =~= before.push(l@));
                }
            },
            None => {},
        }
        i = i + 1;
    }
    assert(hs.take(hrefs.len() as int) =~= hs);
    out
}

/// The links a fetched page contributes to the frontier (see `links_from_hrefs`), reading
/// the anchors of its HTML.
pub fn extract_links(base: &UrlParts, html: &str) -> (r: Vec<String>)
    ensures
        link_views(r@) == links_upto(base@.ser, anchor_hrefs(html@), link_cap(base@.host)),
{
    let hrefs = match select_attrs(html, "a[href]", "href") {
        Some(v) => v,
        None => {
            let v: Vec<Option<String>> = Vec::new();
            assert(opt_views(v@) =~= Seq::<Option<Seq<char>>>::empty());
            v
        },
    };
    links_from_hrefs(base, hrefs.as_slice())
}

/// The canonical URL a page declares, as the page records it: trimmed, joined onto the
/// page's URL, canonical and allowed by the policy.
pub open spec fn page_canonical(base: Seq<char>, declared: Option<Seq<char>>) -> Option<Seq<char>> {
    match declared {
        None => None,
        Some(raw) => if trim(raw).len() == 0 {
            None
        } else {
            link_of(base, Some(trim(raw)))
        },
    }
}

/// The canonical URL declared by a page at `base` (its `<link rel="canonical">`), when it
/// is usable: non-blank, resolvable against the page URL, canonical and allowed.
pub fn resolve_page_canonical(base: &UrlParts, declared: Option<&str>) -> (r: Option<String>)
    ensures
        opt_view(r) == page_canonical(base@.ser, match declared {
            Some(d) => Some(d@),
            None => None,
        }),
{
    let raw = match declared {
        Some(d) => d,
        None => return None,
    };
    let t = trim_chars(to_chars(raw).as_slice());
    if t.len() == 0 {
        return None;
    }
    let trimmed = chars_to_string(t.as_slice());
    link_of_exec(base.serialization.as_str(), &Some(trimmed))
}

/// The total text of a page's blocks, in bytes.
pub open spec fn total_bytes(lens: Seq<usize>) -> nat
    decreases lens.len(),
{
    if lens.len() == 0 {
        0
    } else {
        total_bytes(lens.drop_last()) + lens.last() as nat
    }
}

/// The quality verdict on a page, from the noindex directives found in its headers and
/// markup and the byte lengths of its text blocks: a page that asks not to be indexed is
/// rejected, then one with too few blocks or too little text. An accepted page yields its
/// text size and block count.
pub open spec fn quality_verdict(header_noindex: bool, meta_noindex: bool, block_lens: Seq<usize>) -> Result<
    (nat, nat),
    RejectReason,
> {
    if header_noindex || meta_noindex {
        Err(RejectReason::NoIndex)
    } else if block_lens.len() < MIN_PAGE_BLOCKS || total_bytes(block_lens) < MIN_PAGE_TEXT_BYTES {
        Err(RejectReason::LowText)
    } else {
        Ok((total_bytes(block_lens), block_lens.len()))
    }
}

/// Decide whether a parsed page is stored (see `quality_verdict`).
pub fn assess_page(header_noindex: bool, meta_noindex: bool, block_lens: &[usize]) -> (r: Result<
    (usize, usize),
    RejectReason,
>)
    requires
        total_bytes(block_lens@) <= usize::MAX,
    ensures
        match r {
            Ok((bytes, blocks)) => quality_verdict(header_noindex, meta_noindex, block_lens@) == Ok::<
                (nat, nat),
                RejectReason,
            >((bytes as nat, blocks as nat)),
            Err(e) => quality_verdict(header_noindex, meta_noindex, block_lens@) == Err::<
                (nat, nat),
                RejectReason,
            >(e),
        },
{
    if header_noindex || meta_noindex {
        return Err(RejectReason::NoIndex);
    }
    let mut total: usize = 0;
    let mut i: usize = 0;
    while i < block_lens.len()
        invariant
            i <= block_lens.len(),
            total == total_bytes(block_lens@.take(i as int)),
            total_bytes(block_lens@) <= usize::MAX,
        decreases block_lens.len() - i,
    {
        assert(block_lens@.take(i + 1).drop_last() =~= block_lens@.take(i as int));
        proof {
            lemma_total_prefix(block_lens@, i + 1);
        }
        total = total + block_lens[i];
        i = i + 1;
    }
    assert(block_lens@.take(block_lens.len() as int) =~= block_lens@);
    if block_lens.len() < MIN_PAGE_BLOCKS || total < MIN_PAGE_TEXT_BYTES {
        return Err(RejectReason::LowText);
    }
    Ok((total, block_lens.len()))
}

proof fn lemma_total_prefix(s: Seq<usize>, k: int)
    requires
        0 <= k <= s.len(),
    ensures
        total_bytes(s.take(k)) <= total_bytes(s),
    decreases s.len(),
{
    if k < s.len() {
        assert(s.drop_last().take(k) =~= s.take(k));
        lemma_total_prefix(s.drop_last(), k);
    } else {
        assert(s.take(k) =~= s);
    }
}


/// A page contributes at most `cap` links, each once, and each is the canonical, allowed
/// form of one of its hrefs.
pub proof fn law_links_distinct_and_capped(base: Seq<char>, hrefs: Seq<Option<Seq<char>>>, cap: nat)
    ensures
        links_upto(base, hrefs, cap).len() <= cap,
        forall|a: int, b: int|
            0 <= a < b < links_upto(base, hrefs, cap).len() ==> (#[trigger] links_upto(base, hrefs, cap)[a])
                != (#[trigger] links_upto(base, hrefs, cap)[b]),
        forall|k: int|
            0 <= k < links_upto(base, hrefs, cap).len() ==> exists|j: int|
                0 <= j < hrefs.len() && link_of(base, hrefs[j]) == Some(
                    #[trigger] links_upto(base, hrefs, cap)[k],
                ),
    decreases hrefs.len(),
{
    if hrefs.len() > 0 {
        let d = hrefs.drop_last();
        let p = links_upto(base, d, cap);
        law_links_distinct_and_capped(base, d, cap);
        let r = links_upto(base, hrefs, cap);
        assert forall|k: int| 0 <= k < r.len() implies exists|j: int|
            0 <= j < hrefs.len() && link_of(base, hrefs[j]) == Some(#[trigger] r[k]) by {
            if k < p.len() {
                assert(r[k] == p[k]);
                let j = choose|j: int| 0 <= j < d.len() && link_of(base, d[j]) == Some(#[trigger] p[k]);
                assert(hrefs[j] == d[j]);
            } else {
                assert(link_of(base, hrefs[hrefs.len() - 1]) == Some(r[k]));
            }
        }
        if r.len() > p.len() {
            assert forall|a: int, b: int| 0 <= a < b < r.len() implies (#[trigger] r[a]) != (#[trigger] r[b]) by {
                if b == p.len() {
                    assert(r[a] == p[a]);
                    assert(p.contains(p[a]));
                } else {
                    assert(r[a] == p[a] && r[b] == p[b]);
                }
            }
        }
    }
}

} // verus!
