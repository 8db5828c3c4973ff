//! Pruning of stored pages whose URL no longer passes the crawl policy: why a URL is
//! pruned, and the tallies kept per reason and per host.
use crate::crawler::policy::{url_allowed, url_ok};
use crate::crawler::urlparts::{parse_url, parsed_url};
use crate::text::str_eq;
use vstd::prelude::*;

verus! {

/// Why a stored page is pruned.
#[derive(Debug, Clone, Copy, PartialEq, Eq, Structural)]
pub enum PruneReason {
    InvalidUrl,
    DisallowedByPolicy,
    NonHighQualityHost,
}

pub open spec fn prune_label(r: PruneReason) -> Seq<char> {
    match r {
        PruneReason::InvalidUrl => "invalid_url"@,
        PruneReason::DisallowedByPolicy => "disallowed_by_policy"@,
        PruneReason::NonHighQualityHost => "non_high_quality_host"@,
    }
}

impl PruneReason {
    /// The label under which the reason is counted.
    pub fn label(self) -> (s: &'static str)
        ensures
            s@ == prune_label(self),
    {
        match self {
            Self::InvalidUrl => "invalid_url",
            Self::DisallowedByPolicy => "disallowed_by_policy",
            Self::NonHighQualityHost => "non_high_quality_host",
        }
    }
}

/// The host recorded for a URL that does not parse or has no host.
pub open spec fn invalid_host() -> Seq<char> {
    "<invalid-url>"@
}

/// The verdict of the policy on a stored URL: pruned, with the host to count it under and
/// the reason, or passed by the policy, with its host.
pub open spec fn prune_verdict(raw: Seq<char>) -> Result<Seq<char>, (Seq<char>, PruneReason)> {
    match parsed_url(raw) {
        None => Err((invalid_host(), PruneReason::InvalidUrl)),
        Some(u) => {
            let host = match u.host {
                Some(h) => h,
                None => invalid_host(),
            };
            if !url_ok(u) {
                Err((host, PruneReason::DisallowedByPolicy))
            } else {
                Ok(host)
            }
        },
    }
}

/// Whether the host test `f` answered `answer` for a host string equal to `host`.
pub open spec fn host_test_answered<F: Fn(&str) -> bool>(f: F, host: Seq<char>, answer: bool) -> bool {
    exists|s: &str| s@ == host && #[trigger] call_ensures(f, (s,), answer)
}

/// Classify a stored URL: `Some` of the host to count it under and the reason it is
/// pruned, or `None` when it is kept. A URL that does not parse is pruned as invalid; one
/// the crawl policy refuses, as disallowed; and, when `prune_non_high_quality` is set, one
/// whose host fails `host_is_high_quality`, as a host that is not of high quality.
pub fn classify_url<F: Fn(&str) -> bool>(
    raw_url: &str,
    prune_non_high_quality: bool,
    host_is_high_quality: F,
) -> (r: Option<(String, PruneReason)>)
    requires
        forall|s: &str| call_requires(host_is_high_quality, (s,)),
    ensures
        match prune_verdict(raw_url@) {
            Err((h, reason)) => r matches Some((rh, rr)) && rh@ == h && rr == reason,
            Ok(h) => if !prune_non_high_quality {
                r is None
            } else {
                match r {
                    None => host_test_answered(host_is_high_quality, h, true),
                    Some((rh, rr)) => rh@ == h && rr == PruneReason::NonHighQualityHost
                        && host_test_answered(host_is_high_quality, h, false),
                }
            },
        },
{
    let url = match parse_url(raw_url) {
        Some(u) => u,
        None => return Some(("<invalid-url>".to_owned(), PruneReason::InvalidUrl)),
    };
    let host = match &url.host {
        Some(h) => h.clone(),
        None => "<invalid-url>".to_owned(),
    };
    if !url_allowed(&url) {
        return Some((host, PruneReason::DisallowedByPolicy));
    }
    if prune_non_high_quality {
        let s = host.as_str();
        let good = host_is_high_quality(s);
        if !good {
            assert(call_ensures(host_is_high_quality, (s,), false));
            return Some((host, PruneReason::NonHighQualityHost));
        }
        assert(call_ensures(host_is_high_quality, (s,), true));
    }
    None
}

/// The tallies of one pruning run: pages pruned per reason and per host.
pub struct PruneTally {
    invalid_url: usize,
    disallowed_by_policy: usize,
    non_high_quality_host: usize,
    hosts: Vec<(String, usize)>,
}

/// The mathematical value of a `PruneTally`.
pub struct PruneTallyView {
    pub invalid_url: nat,
    pub disallowed_by_policy: nat,
    pub non_high_quality_host: nat,
    /// Pages pruned per host, in order of the host's first pruned page.
    pub hosts: Seq<(Seq<char>, nat)>,
}

pub open spec fn host_count_views(v: Seq<(String, usize)>) -> Seq<(Seq<char>, nat)> {
    v.map_values(|p: (String, usize)| (p.0@, p.1 as nat))
}

impl View for PruneTally {
    type V = PruneTallyView;

    closed spec fn view(&self) -> PruneTallyView {
        PruneTallyView {
            invalid_url: self.invalid_url as nat,
            disallowed_by_policy: self.disallowed_by_policy as nat,
            non_high_quality_host: self.non_high_quality_host as nat,
            hosts: host_count_views(self.hosts@),
        }
    }
}

/// The pages tallied over all hosts.
pub open spec fn host_total(hosts: Seq<(Seq<char>, nat)>) -> nat
    decreases hosts.len(),
{
    if hosts.len() == 0 {
        0
    } else {
        host_total(hosts.drop_last()) + hosts.last().1
    }
}

/// Each host is tallied once, and every pruned page is tallied both under its host and
/// under its reason.
pub open spec fn tally_wf(t: PruneTallyView) -> bool {
    &&& forall|a: int, b: int| 0 <= a < b < t.hosts.len() ==> (#[trigger] t.hosts[a]).0 != (#[trigger] t.hosts[b]).0
    &&& host_total(t.hosts) == t.invalid_url + t.disallowed_by_policy + t.non_high_quality_host
}

proof fn lemma_host_total_update(hosts: Seq<(Seq<char>, nat)>, k: int, e: (Seq<char>, nat))
    requires
        0 <= k < hosts.len(),
    ensures
        host_total(hosts.update(k, e)) == host_total(hosts) - hosts[k].1 + e.1,
    decreases hosts.len(),
{
    if k < hosts.len() - 1 {
        assert(hosts.update(k, e).drop_last() =~= hosts.drop_last().update(k, e));
        lemma_host_total_update(hosts.drop_last(), k, e);
    } else {
        assert(hosts.update(k, e).drop_last() =~= hosts.drop_last());
    }
}

/// Every pruned page is counted once under its host and once under its reason: the host
/// tallies add up to the reason tallies.
pub proof fn law_tallies_agree(t: PruneTallyView)
    requires
        tally_wf(t),
    ensures
        host_total(t.hosts) == t.invalid_url + t.disallowed_by_policy + t.non_high_quality_host,
{
}

/// The tallies after one more page of `host` is pruned for `reason`.
pub open spec fn after_note(t: PruneTallyView, host: Seq<char>, reason: PruneReason) -> PruneTallyView {
    let hosts = if exists|k: int| 0 <= k < t.hosts.len() && (#[trigger] t.hosts[k]).0 == host {
        let k = choose|k: int| 0 <= k < t.hosts.len() && (#[trigger] t.hosts[k]).0 == host;
        t.hosts.update(k, (host, t.hosts[k].1 + 1))
    } else {
        t.hosts.push((host, 1nat))
    };
    PruneTallyView {
        invalid_url: t.invalid_url + if reason == PruneReason::InvalidUrl { 1nat } else { 0nat },
        disallowed_by_policy: t.disallowed_by_policy + if reason == PruneReason::DisallowedByPolicy {
            1nat
        } else {
            0nat
        },
        non_high_quality_host: t.non_high_quality_host + if reason == PruneReason::NonHighQualityHost {
            1nat
        } else {
            0nat
        },
        hosts,
    }
}

impl PruneTally {
    pub open spec fn wf(&self) -> bool {
        tally_wf(self@)
    }

    pub fn new() -> (t: PruneTally)
        ensures
            t.wf(),
            t@.invalid_url == 0 && t@.disallowed_by_policy == 0 && t@.non_high_quality_host == 0,
            t@.hosts.len() == 0,
    {
        let t = PruneTally {
            invalid_url: 0,
            disallowed_by_policy: 0,
            non_high_quality_host: 0,
            hosts: Vec::new(),
        };
        assert(t@.hosts =~= Seq::<(Seq<char>, nat)>::empty());
        t
    }

    /// Count one pruned page of `host` under `reason` (see `after_note`).
    pub fn note_reason(&mut self, host: &str, reason: PruneReason)
        requires
            old(self).wf(),
            old(self)@.invalid_url < usize::MAX,
            old(self)@.disallowed_by_policy < usize::MAX,
            old(self)@.non_high_quality_host < usize::MAX,
            forall|k: int| 0 <= k < old(self)@.hosts.len() ==> (#[trigger] old(self)@.hosts[k]).1 < usize::MAX,
        ensures
            final(self).wf(),
            final(self)@ == after_note(old(self)@, host@, reason),
    {
        let ghost t = self@;
        let mut found: Option<usize> = None;
        let mut k: usize = 0;
        while k < self.hosts.len()
            invariant_except_break
                found is None,
            invariant
                k <= self.hosts.len(),
                t == self@,
                t == old(self)@,
                tally_wf(t),
                forall|j: int| 0 <= j < k ==> (#[trigger] t.hosts[j]).0 != host@,
            ensures
                t == self@,
                match found {
                    Some(i) => i < self.hosts.len() && t.hosts[i as int].0 == host@,
                    None => forall|j: int| 0 <= j < t.hosts.len() ==> (#[trigger] t.hosts[j]).0 != host@,
                },
            decreases self.hosts.len() - k,
        {
            assert(t.hosts[k as int] == (self.hosts@[k as int].0@, self.hosts@[k as int].1 as nat));
            if str_eq(self.hosts[k].0.as_str(), host) {
                found = Some(k);
                break;
            }
            k = k + 1;
        }
        match found {
            Some(k) => {
                assert(t.hosts[k as int] == (self.hosts@[k as int].0@, self.hosts@[k as int].1 as nat));
                let (name, count) = self.hosts.remove(k);
                self.hosts.insert(k, (name, count + 1));
                proof {
                    assert(t.hosts[k as int].0 == host@);
                    let c = choose|c: int| 0 <= c < t.hosts.len() && (#[trigger] t.hosts[c]).0 == host@;
                    if c != k {
                        if c < k {
                            assert(t.hosts[c].0 != t.hosts[k as int].0);
                        } else {
                            assert(t.hosts[k as int].0 != t.hosts[c].0);
                        }
                    }
                    assert(host_count_views(self.hosts@) =~= t.hosts.update(
                        k as int,
                        (host@, t.hosts[k as int].1 + 1),
                    ));
                    assert forall|a: int, b: int| 0 <= a < b < self@.hosts.len() implies (#[trigger] self@.hosts[a]).0
                        != (#[trigger] self@.hosts[b]).0 by {
                        assert(self@.hosts[a].0 == t.hosts[a].0);
                        assert(self@.hosts[b].0 == t.hosts[b].0);
                    }
                    lemma_host_total_update(t.hosts, k as int, (host@, t.hosts[k as int].1 + 1));
                }
            },
            None => {
                self.hosts.push((host.to_owned(), 1));
                proof {
                    assert(host_count_views(self.hosts@) =~= t.hosts.push((host@, 1nat)));
                    assert(t.hosts.push((host@, 1nat)).drop_last() =~= t.hosts);
                    assert forall|a: int, b: int| 0 <= a < b < self@.hosts.len() implies (#[trigger] self@.hosts[a]).0
                        != (#[trigger] self@.hosts[b]).0 by {
                        if b == t.hosts.len() {
                            assert(self@.hosts[a] == t.hosts[a]);
                            assert(self@.hosts[b].0 == host@);
                        } else {
                            assert(self@.hosts[a] == t.hosts[a] && self@.hosts[b] == t.hosts[b]);
                        }
                    }
                }
            },
        }
        match reason {
            PruneReason::InvalidUrl => self.invalid_url = self.invalid_url + 1,
            PruneReason::DisallowedByPolicy => self.disallowed_by_policy = self.disallowed_by_policy + 1,
            PruneReason::NonHighQualityHost => self.non_high_quality_host = self.non_high_quality_host + 1,
        }
    }

    /// Pages pruned per reason: invalid URL, disallowed by the policy, host not of high
    /// quality.
    pub fn reason_counts(&self) -> (r: (usize, usize, usize))
        ensures
            r.0 == self@.invalid_url && r.1 == self@.disallowed_by_policy && r.2
                == self@.non_high_quality_host,
    {
        (self.invalid_url, self.disallowed_by_policy, self.non_high_quality_host)
    }

    /// Pages pruned per host, in order of the host's first pruned page.
    pub fn host_counts(&self) -> (r: &Vec<(String, usize)>)
        ensures
            host_count_views(r@) == self@.hosts,
    {
        &self.hosts
    }
}

} // verus!
