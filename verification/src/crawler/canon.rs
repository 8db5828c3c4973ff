//! URL canonicalization: strict scheme checks, host normalization, credential/port
//! stripping, query sorting, trailing-slash dedupe, control-character rejection and a
//! maximum length.
use crate::crawler::urlparts::{
    encode_pairs, form_encoded, pair_views, parse_url, parsed_url, rebuild_url,
    rebuilt_url, UrlParts, UrlView,
};
use crate::text::{
    chars_leq, chars_to_string, contains_char, eq_lit, lemma_pair_leq_total_ordering, lower,
    lower_chars, pair_leq, to_chars,
};
use vstd::prelude::*;
use vstd::relations::sorted_by;

verus! {

/// Canonical URLs longer than this many bytes are rejected.
pub const MAX_URL_LEN: usize = 2048;

/// A C0 or C1 control character.
pub open spec fn is_control(c: char) -> bool {
    (c as u32) <= 0x1F || (0x7F <= (c as u32) && (c as u32) <= 0x9F)
}

pub open spec fn has_control(s: Seq<char>) -> bool {
    exists|i: int| 0 <= i < s.len() && is_control(#[trigger] s[i])
}

fn contains_control_chars(s: &str) -> (r: bool)
    ensures
        r == has_control(s@),
{
    let cs = to_chars(s);
    let mut i: usize = 0;
    while i < cs.len()
        invariant
            i <= cs.len(),
            cs@ == s@,
            forall|j: int| 0 <= j < i ==> !is_control(#[trigger] cs@[j]),
        decreases cs.len() - i,
    {
        let code = cs[i] as u32;
        if code <= 0x1F || (0x7F <= code && code <= 0x9F) {
            return true;
        }
        i = i + 1;
    }
    false
}

/// The order `sorted_pairs` sorts by.
pub open spec fn pair_order() -> spec_fn((Seq<char>, Seq<char>), (Seq<char>, Seq<char>)) -> bool {
    |a: (Seq<char>, Seq<char>), b: (Seq<char>, Seq<char>)| pair_leq(a, b)
}

/// The query pairs in the order of `(String, String)`'s `Ord`.
pub open spec fn sorted_pairs(p: Seq<(Seq<char>, Seq<char>)>) -> Seq<(Seq<char>, Seq<char>)> {
    p.sort_by(pair_order())
}

fn pair_le(a: &(String, String), b: &(String, String)) -> (r: bool)
    ensures
        r == pair_leq((a.0@, a.1@), (b.0@, b.1@)),
{
    let a0 = to_chars(a.0.as_str());
    let b0 = to_chars(b.0.as_str());
    if crate::text::seq_eq(a0.as_slice(), b0.as_slice()) {
        let a1 = to_chars(a.1.as_str());
        let b1 = to_chars(b.1.as_str());
        chars_leq(a1.as_slice(), b1.as_slice())
    } else {
        chars_leq(a0.as_slice(), b0.as_slice())
    }
}

/// Sorts the pairs as `sort_by(|a, b| a.cmp(b))` does.
pub fn sort_pairs(pairs: &Vec<(String, String)>) -> (r: Vec<(String, String)>)
    ensures
        pair_views(r@) == sorted_pairs(pair_views(pairs@)),
{
    let ghost leq = pair_order();
    proof {
        lemma_pair_leq_total_ordering();
    }
    let mut out: Vec<(String, String)> = Vec::new();
    let mut i: usize = 0;
    assert(pair_views(pairs@).take(0) =~= Seq::<(Seq<char>, Seq<char>)>::empty());
    assert(pair_views(out@) =~= Seq::<(Seq<char>, Seq<char>)>::empty());
    while i < pairs.len()
        invariant
            i <= pairs.len(),
            leq == pair_order(),
            vstd::relations::total_ordering(leq),
            sorted_by(pair_views(out@), leq),
            pair_views(out@).to_multiset() == pair_views(pairs@).take(i as int).to_multiset(),
        decreases pairs.len() - i,
    {
        let x = (pairs[i].0.clone(), pairs[i].1.clone());
        let ghost xv = (x.0@, x.1@);
        let ghost ov = pair_views(out@);
        assert(xv == pair_views(pairs@)[i as int]);
        let mut p: usize = 0;
        while p < out.len() && pair_le(&out[p], &x)
            invariant
                p <= out.len(),
                ov == pair_views(out@),
                xv == (x.0@, x.1@),
                forall|j: int| 0 <= j < p ==> pair_leq(#[trigger] ov[j], xv),
            decreases out.len() - p,
        {
            assert(ov[p as int] == (out@[p as int].0@, out@[p as int].1@));
            p = p + 1;
        }
        proof {
            if p < out.len() {
                assert(ov[p as int] == (out@[p as int].0@, out@[p as int].1@));
                assert(!pair_leq(ov[p as int], xv));
                assert(!leq(ov[p as int], xv));
                assert(leq(xv, ov[p as int]));
            }
        }
        out.insert(p, x);
        proof {
            let nv = pair_views(out@);
            assert(nv =~= ov.insert(p as int, xv));
            vstd::seq_lib::to_multiset_insert(ov, p as int, xv);
            let t = pair_views(pairs@);
            assert(t.take(i + 1) =~= t.take(i as int).push(t[i as int]));
            vstd::seq_lib::to_multiset_build(t.take(i as int), t[i as int]);
            assert forall|a: int, b: int| 0 <= a < b < nv.len() implies #[trigger] leq(nv[a], nv[b]) by {
                if b < p {
                    assert(nv[a] == ov[a] && nv[b] == ov[b]);
                } else if b == p {
                    assert(nv[a] == ov[a]);
                } else if a < p {
                    assert(nv[a] == ov[a] && nv[b] == ov[b - 1]);
                    assert(leq(ov[a], xv));
                    assert(leq(xv, ov[p as int]));
                    if p < b - 1 {
                        assert(leq(ov[p as int], ov[b - 1]));
                    }
                } else if a == p {
                    assert(nv[b] == ov[b - 1]);
                    if p < b - 1 {
                        assert(leq(ov[p as int], ov[b - 1]));
                    }
                } else {
                    assert(nv[a] == ov[a - 1] && nv[b] == ov[b - 1]);
                }
            }
        }
        i = i + 1;
    }
    proof {
        let v = pair_views(pairs@);
        assert(v.take(v.len() as int) =~= v);
        v.lemma_sort_by_ensures(leq);
        vstd::seq_lib::lemma_sorted_unique(pair_views(out@), v.sort_by(leq), leq);
    }
    out
}

/// Drops trailing slashes.
pub open spec fn strip_trailing_slashes(p: Seq<char>) -> Seq<char>
    decreases p.len(),
{
    if p.len() > 0 && p.last() == '/' {
        strip_trailing_slashes(p.drop_last())
    } else {
        p
    }
}

/// The path with trailing slashes removed (except for the root path `/`), and `/` in place
/// of an empty path.
pub open spec fn canonical_path(p: Seq<char>) -> Seq<char> {
    let q = if p.len() > 1 {
        strip_trailing_slashes(p)
    } else {
        p
    };
    if q.len() == 0 {
        seq!['/']
    } else {
        q
    }
}

fn dedupe_trailing_slashes(path: &str) -> (r: String)
    ensures
        r@ == canonical_path(path@),
{
    let mut p = to_chars(path);
    if p.len() > 1 {
        while p.len() > 0 && p[p.len() - 1] == '/'
            invariant
                strip_trailing_slashes(p@) == strip_trailing_slashes(path@),
            decreases p.len(),
        {
            p.pop();
        }
    }
    if p.len() == 0 {
        p.push('/');
        assert(p@ =~= seq!['/']);
    }
    chars_to_string(p.as_slice())
}

/// The query the canonical URL carries: the URL's own pairs, sorted and re-encoded; none
/// when the URL had no query or an empty one.
pub open spec fn canonical_query(u: UrlView) -> Option<Seq<char>> {
    match u.query {
        None => None,
        Some(_) => if u.pairs.len() == 0 {
            None
        } else {
            Some(form_encoded(sorted_pairs(u.pairs)))
        },
    }
}

/// What `canonicalize` returns for `raw`: the URL rebuilt from `raw` with the lower-cased
/// host, an empty user name, no password, no port, no fragment, the sorted query and the
/// path without trailing slashes, as parsed again.
pub open spec fn canonical_url(raw: Seq<char>) -> Option<UrlView> {
    if raw.len() == 0 || has_control(raw) {
        None
    } else {
        match parsed_url(raw) {
            None => None,
            Some(u) => match u.host {
                None => None,
                Some(h) => {
                    let host = lower(h);
                    if u.scheme != "https"@ || host == "localhost"@ || !host.contains('.') {
                        None
                    } else {
                        match rebuilt_url(
                            raw,
                            host,
                            Seq::empty(),
                            None,
                            None,
                            None,
                            canonical_query(u),
                            canonical_path(u.path),
                        ) {
                            None => None,
                            Some(ser) => if vstd::utf8::encode_utf8(ser).len() > MAX_URL_LEN
                                || has_control(ser) {
                                None
                            } else {
                                parsed_url(ser)
                            },
                        }
                    }
                },
            },
        }
    }
}

/// Canonicalize a raw URL string into a consistent, validated form.
///
/// Only `https` URLs with a dotted host other than `localhost` are kept. The host is
/// lower-cased; user name, password, port and fragment are dropped; query parameters are
/// sorted; trailing slashes are removed from the path. URLs with control characters, or
/// longer than 2048 bytes once canonical, are rejected. (A host without a dot that parses
/// as an IP address cannot come out of `url::Url`, whose IPv6 hosts are bracketed, so the
/// dot test alone decides.) The canonical form is returned as parsed again by `url`.
pub fn canonicalize(raw: &str) -> (r: Option<UrlParts>)
    ensures
        match r {
            Some(u) => canonical_url(raw@) == Some(u@),
            None => canonical_url(raw@) is None,
        },
{
    if raw.is_empty() || contains_control_chars(raw) {
        return None;
    }
    let u = match parse_url(raw) {
        Some(u) => u,
        None => return None,
    };
    let h = match &u.host {
        Some(h) => to_chars(h.as_str()),
        None => return None,
    };
    let host = lower_chars(h.as_slice());
    let scheme = to_chars(u.scheme.as_str());
    if !eq_lit(scheme.as_slice(), "https") || eq_lit(host.as_slice(), "localhost") || !contains_char(
        host.as_slice(),
        '.',
    ) {
        return None;
    }
    let host_string = chars_to_string(host.as_slice());
    let sorted_query: Option<String> = match &u.query {
        None => None,
        Some(_) => {
            if u.query_pairs.len() == 0 {
                None
            } else {
                let sorted = sort_pairs(&u.query_pairs);
                Some(encode_pairs(&sorted))
            }
        },
    };
    let path = dedupe_trailing_slashes(u.path.as_str());
    let query_ref: Option<&str> = match &sorted_query {
        Some(q) => Some(q.as_str()),
        None => None,
    };
    proof {
        reveal_strlit("");
        assert(""@ =~= Seq::<char>::empty());
    }
    let rebuilt = rebuild_url(raw, host_string.as_str(), "", None, None, None, query_ref, path.as_str());
    let ser = match rebuilt {
        Some(s) => s,
        None => return None,
    };
    if ser.as_str().as_bytes().len() > MAX_URL_LEN || contains_control_chars(ser.as_str()) {
        return None;
    }
    parse_url(ser.as_str())
}


/// A URL has a canonical form only when it is non-empty, free of control characters, and
/// parses as an `https` URL whose host, lower-cased, contains a dot and is not
/// `localhost`.
pub proof fn law_canonical_needs_https(raw: Seq<char>)
    requires
        canonical_url(raw) is Some,
    ensures
        raw.len() > 0,
        !has_control(raw),
        parsed_url(raw) is Some,
        parsed_url(raw).unwrap().scheme == "https"@,
        parsed_url(raw).unwrap().host is Some,
        lower(parsed_url(raw).unwrap().host.unwrap()).contains('.'),
        lower(parsed_url(raw).unwrap().host.unwrap()) != "localhost"@,
{
}

} // verus!
