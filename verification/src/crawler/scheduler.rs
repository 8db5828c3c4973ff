//! The per-host crawl scheduler: one queue per host, at most one request in flight per
//! host, and a politeness delay between requests to the same host.
//!
//! This is the decision core. The caller holds it under a lock, supplies the current time
//! (milliseconds on a monotonic clock), wakes waiting workers when an outcome says so, and
//! arms the timers an outcome asks for (calling `requeue_host` when one fires).
use crate::crawler::policy::{domain_rate_limit_ms, rate_limit_for};
use crate::crawler::types::{runs_before, TaskView, UrlTask};
use crate::text::str_eq;
use vstd::prelude::*;

verus! {

/// The queue of one host.
pub struct HostQueue {
    host: String,
    queued: Vec<UrlTask>,
    inflight: bool,
    ready_enqueued: bool,
    timer_armed: bool,
    next_allowed_at: Option<u64>,
}

pub struct HostView {
    pub name: Seq<char>,
    pub queued: Seq<TaskView>,
    pub inflight: bool,
    pub ready_enqueued: bool,
    pub timer_armed: bool,
    pub next_allowed_at: Option<u64>,
}

pub open spec fn task_views(v: Seq<UrlTask>) -> Seq<TaskView> {
    v.map_values(|t: UrlTask| t@)
}

impl View for HostQueue {
    type V = HostView;

    closed spec fn view(&self) -> HostView {
        HostView {
            name: self.host@,
            queued: task_views(self.queued@),
            inflight: self.inflight,
            ready_enqueued: self.ready_enqueued,
            timer_armed: self.timer_armed,
            next_allowed_at: self.next_allowed_at,
        }
    }
}

/// Per-host queues, the queue of hosts that may be served, and the counters.
pub struct CrawlScheduler {
    hosts: Vec<HostQueue>,
    ready_hosts: Vec<String>,
    pending: usize,
    inflight: usize,
    closed: bool,
    default_rate_limit_ms: u64,
}

pub struct SchedulerView {
    pub hosts: Seq<HostView>,
    pub ready: Seq<Seq<char>>,
    pub pending: nat,
    pub inflight: nat,
    pub closed: bool,
    pub rate: u64,
}

pub open spec fn host_views(v: Seq<HostQueue>) -> Seq<HostView> {
    v.map_values(|h: HostQueue| h@)
}

pub open spec fn name_views(v: Seq<String>) -> Seq<Seq<char>> {
    v.map_values(|s: String| s@)
}

impl View for CrawlScheduler {
    type V = SchedulerView;

    closed spec fn view(&self) -> SchedulerView {
        SchedulerView {
            hosts: host_views(self.hosts@),
            ready: name_views(self.ready_hosts@),
            pending: self.pending as nat,
            inflight: self.inflight as nat,
            closed: self.closed,
            rate: self.default_rate_limit_ms,
        }
    }
}

/// What the caller does after `push_task`.
pub struct PushOutcome {
    /// The task was queued (not a duplicate, scheduler open).
    pub accepted: bool,
    /// Wake one waiting worker.
    pub notify_one: bool,
    /// Arm a timer that calls `requeue_host` for the task's host after this many ms.
    pub wake_after_ms: Option<u64>,
}

/// What the caller does after one pass of `next_task`.
pub struct NextOutcome {
    /// The task to crawl, if a host could be served.
    pub task: Option<UrlTask>,
    /// Timers to arm: call `requeue_host(host)` after the delay.
    pub timers: Vec<(String, u64)>,
    /// No task will ever come again: the scheduler is closed and empty.
    pub finished: bool,
}

// ---------------------------------------------------------------------------
// The model
// ---------------------------------------------------------------------------
pub open spec fn total_queued(hosts: Seq<HostView>) -> nat
    decreases hosts.len(),
{
    if hosts.len() == 0 {
        0
    } else {
        total_queued(hosts.drop_last()) + hosts.last().queued.len()
    }
}

pub open spec fn has_host(hosts: Seq<HostView>, name: Seq<char>) -> bool {
    exists|i: int| 0 <= i < hosts.len() && (#[trigger] hosts[i]).name == name
}

pub open spec fn host_index(hosts: Seq<HostView>, name: Seq<char>) -> int {
    choose|i: int| 0 <= i < hosts.len() && (#[trigger] hosts[i]).name == name
}

pub open spec fn url_queued(h: HostView, url: Seq<char>) -> bool {
    exists|k: int| 0 <= k < h.queued.len() && (#[trigger] h.queued[k]).url == url
}

/// The consistency of the scheduler state.
pub open spec fn sched_wf(s: SchedulerView) -> bool {
    // one queue per host
    &&& forall|i: int, j: int|
        0 <= i < j < s.hosts.len() ==> (#[trigger] s.hosts[i]).name != (#[trigger] s.hosts[j]).name
    // each queue holds tasks of its host, each URL at most once
    &&& forall|i: int, k: int|
        0 <= i < s.hosts.len() && 0 <= k < s.hosts[i].queued.len() ==> (#[trigger] s.hosts[i].queued[k]).host
            == s.hosts[i].name
    &&& forall|i: int, a: int, b: int|
        0 <= i < s.hosts.len() && 0 <= a < b < s.hosts[i].queued.len() ==> (#[trigger] s.hosts[i].queued[a]).url
            != (#[trigger] s.hosts[i].queued[b]).url
    // `pending` counts the queued tasks
    &&& s.pending == total_queued(s.hosts)
    // the ready queue lists exactly the hosts flagged as enqueued, each once
    &&& forall|a: int, b: int| 0 <= a < b < s.ready.len() ==> s.ready[a] != s.ready[b]
    &&& forall|a: int|
        0 <= a < s.ready.len() ==> has_host(s.hosts, #[trigger] s.ready[a]) && s.hosts[host_index(
            s.hosts,
            s.ready[a],
        )].ready_enqueued
    &&& forall|i: int| 0 <= i < s.hosts.len() && (#[trigger] s.hosts[i]).ready_enqueued ==> s.ready.contains(s.hosts[i].name)
}

impl CrawlScheduler {
    pub open spec fn wf(&self) -> bool {
        sched_wf(self@)
    }
}

pub open spec fn new_host(name: Seq<char>) -> HostView {
    HostView {
        name,
        queued: Seq::empty(),
        inflight: false,
        ready_enqueued: false,
        timer_armed: false,
        next_allowed_at: None,
    }
}

/// The host may be served at `now`: no deadline, or the deadline has passed.
pub open spec fn due(h: HostView, now: u64) -> bool {
    match h.next_allowed_at {
        None => true,
        Some(d) => d <= now,
    }
}

pub open spec fn deadline_delay(h: HostView, now: u64) -> u64 {
    match h.next_allowed_at {
        Some(d) => if d > now {
            (d - now) as u64
        } else {
            0
        },
        None => 0,
    }
}

/// The state and outcome of `push_task(t)` at time `now`.
pub open spec fn after_push(s: SchedulerView, t: TaskView, now: u64) -> (SchedulerView, (
    bool,
    bool,
    Option<u64>,
)) {
    if s.closed {
        (s, (false, false, None))
    } else {
        let hosts = if has_host(s.hosts, t.host) {
            s.hosts
        } else {
            s.hosts.push(new_host(t.host))
        };
        let i = host_index(hosts, t.host);
        let h = hosts[i];
        if url_queued(h, t.url) {
            (SchedulerView { hosts, ..s }, (false, false, None))
        } else {
            let enq = !h.inflight && due(h, now) && !h.ready_enqueued;
            let arm = !h.inflight && !due(h, now) && !h.timer_armed;
            let h2 = HostView {
                queued: h.queued.push(t),
                ready_enqueued: h.ready_enqueued || enq,
                timer_armed: h.timer_armed || arm,
                ..h
            };
            (
                SchedulerView {
                    hosts: hosts.update(i, h2),
                    ready: if enq {
                        s.ready.push(t.host)
                    } else {
                        s.ready
                    },
                    pending: s.pending + 1,
                    ..s
                },
                (
                    true,
                    enq,
                    if arm {
                        Some(deadline_delay(h, now))
                    } else {
                        None
                    },
                ),
            )
        }
    }
}

/// The index of the task to crawl first: the first of the maximal tasks.
pub open spec fn best_index(q: Seq<TaskView>) -> int
    decreases q.len(),
{
    if q.len() <= 1 {
        0
    } else {
        let b = best_index(q.drop_last());
        if runs_before(q.last(), q[b]) {
            q.len() - 1
        } else {
            b
        }
    }
}

/// One host taken from the front of the ready queue: the new state, the task it yields (if
/// any) and the timer it asks for (if any).
pub open spec fn serve_front(s: SchedulerView, now: u64) -> (SchedulerView, Option<TaskView>, Option<(Seq<char>, u64)>) {
    let name = s.ready[0];
    let s1 = SchedulerView { ready: s.ready.drop_first(), ..s };
    if !has_host(s.hosts, name) {
        (s1, None, None)
    } else {
        let i = host_index(s.hosts, name);
        let h = HostView { ready_enqueued: false, ..s.hosts[i] };
        if h.inflight || h.queued.len() == 0 {
            (SchedulerView { hosts: s.hosts.update(i, h), ..s1 }, None, None)
        } else if !due(h, now) {
            if !h.timer_armed {
                (
                    SchedulerView { hosts: s.hosts.update(i, HostView { timer_armed: true, ..h }), ..s1 },
                    None,
                    Some((name, deadline_delay(h, now))),
                )
            } else {
                (SchedulerView { hosts: s.hosts.update(i, h), ..s1 }, None, None)
            }
        } else {
            let b = best_index(h.queued);
            (
                SchedulerView {
                    hosts: s.hosts.update(i, HostView { queued: h.queued.remove(b), inflight: true, ..h }),
                    pending: (if s.pending > 0 { s.pending - 1 } else { 0 }) as nat,
                    inflight: s.inflight + 1,
                    ..s1
                },
                Some(h.queued[b]),
                None,
            )
        }
    }
}

pub open spec fn task_opt_view(t: Option<UrlTask>) -> Option<TaskView> {
    match t {
        Some(x) => Some(x@),
        None => None,
    }
}

pub open spec fn timer_view(t: Option<(String, u64)>) -> Option<(Seq<char>, u64)> {
    match t {
        Some(p) => Some((p.0@, p.1)),
        None => None,
    }
}

pub open spec fn timer_views(v: Seq<(String, u64)>) -> Seq<(Seq<char>, u64)> {
    v.map_values(|p: (String, u64)| (p.0@, p.1))
}

pub open spec fn opt_timer(t: Option<(Seq<char>, u64)>) -> Seq<(Seq<char>, u64)> {
    match t {
        Some(x) => seq![x],
        None => Seq::empty(),
    }
}

/// One pass of `next_task` at `now`: hosts are taken from the ready queue until one yields a
/// task. Returns the new state, the task, the timers to arm, and whether the scheduler is
/// finished.
pub open spec fn after_next(s: SchedulerView, now: u64) -> (SchedulerView, Option<TaskView>, Seq<(Seq<char>, u64)>, bool)
    decreases s.ready.len(),
{
    if s.ready.len() == 0 {
        (s, None, Seq::empty(), s.closed && s.pending == 0 && s.inflight == 0)
    } else {
        let (s1, t, timer) = serve_front(s, now);
        if t is Some {
            (s1, t, opt_timer(timer), false)
        } else {
            let (s2, t2, timers, fin) = after_next(s1, now);
            (s2, t2, opt_timer(timer) + timers, fin)
        }
    }
}

/// The state and timer of `requeue_host(name)` at `now`: the timer is disarmed, and the host
/// rejoins the ready queue if it can be served. Returns whether to wake one worker.
pub open spec fn after_requeue(s: SchedulerView, name: Seq<char>, now: u64) -> (SchedulerView, bool) {
    if s.closed || !has_host(s.hosts, name) {
        (s, false)
    } else {
        let i = host_index(s.hosts, name);
        let h = s.hosts[i];
        let enq = !h.inflight && h.queued.len() > 0 && !h.ready_enqueued && due(h, now);
        (
            SchedulerView {
                hosts: s.hosts.update(
                    i,
                    HostView { timer_armed: false, ready_enqueued: h.ready_enqueued || enq, ..h },
                ),
                ready: if enq {
                    s.ready.push(name)
                } else {
                    s.ready
                },
                ..s
            },
            enq,
        )
    }
}

/// The state and timer of `complete_host(name)` at `now`: the host is no longer in flight and
/// may be served again once its crawl delay has passed.
pub open spec fn after_complete(s: SchedulerView, name: Seq<char>, now: u64) -> (SchedulerView, Option<u64>) {
    let inflight = (if s.inflight > 0 { s.inflight - 1 } else { 0 }) as nat;
    if !has_host(s.hosts, name) {
        (SchedulerView { inflight, ..s }, None)
    } else {
        let i = host_index(s.hosts, name);
        let h = s.hosts[i];
        let delay = rate_limit_for(s.rate, name);
        let arm = h.queued.len() > 0 && !h.timer_armed;
        (
            SchedulerView {
                hosts: s.hosts.update(
                    i,
                    HostView {
                        inflight: false,
                        next_allowed_at: Some((now + delay) as u64),
                        timer_armed: h.timer_armed || arm,
                        ..h
                    },
                ),
                inflight,
                ..s
            },
            if arm {
                Some(delay)
            } else {
                None
            },
        )
    }
}

// ---------------------------------------------------------------------------
// Lemmas
// ---------------------------------------------------------------------------
proof fn lemma_total_update(hosts: Seq<HostView>, i: int, h: HostView)
    requires
        0 <= i < hosts.len(),
    ensures
        total_queued(hosts.update(i, h)) == total_queued(hosts) - hosts[i].queued.len() + h.queued.len(),
    decreases hosts.len(),
{
    if i < hosts.len() - 1 {
        assert(hosts.update(i, h).drop_last() =~= hosts.drop_last().update(i, h));
        lemma_total_update(hosts.drop_last(), i, h);
    } else {
        assert(hosts.update(i, h).drop_last() =~= hosts.drop_last());
    }
}

proof fn lemma_total_push(hosts: Seq<HostView>, h: HostView)
    ensures
        total_queued(hosts.push(h)) == total_queued(hosts) + h.queued.len(),
{
    assert(hosts.push(h).drop_last() =~= hosts);
}

proof fn lemma_host_index(hosts: Seq<HostView>, name: Seq<char>, i: int)
    requires
        0 <= i < hosts.len(),
        hosts[i].name == name,
        forall|a: int, b: int| 0 <= a < b < hosts.len() ==> (#[trigger] hosts[a]).name != (#[trigger] hosts[b]).name,
    ensures
        has_host(hosts, name),
        host_index(hosts, name) == i,
{
    assert(has_host(hosts, name));
    let j = host_index(hosts, name);
    if j < i {
        assert(hosts[j].name != hosts[i].name);
    } else if j > i {
        assert(hosts[i].name != hosts[j].name);
    }
}


pub open spec fn queue_ok(h: HostView) -> bool {
    &&& forall|k: int| 0 <= k < h.queued.len() ==> (#[trigger] h.queued[k]).host == h.name
    &&& forall|a: int, b: int| 0 <= a < b < h.queued.len() ==> (#[trigger] h.queued[a]).url != (#[trigger] h.queued[b]).url
}

proof fn lemma_names_same(h1: Seq<HostView>, h2: Seq<HostView>, n: Seq<char>)
    requires
        h1.len() == h2.len(),
        forall|j: int| 0 <= j < h1.len() ==> (#[trigger] h1[j]).name == h2[j].name,
        forall|a: int, b: int| 0 <= a < b < h1.len() ==> (#[trigger] h1[a]).name != (#[trigger] h1[b]).name,
    ensures
        has_host(h1, n) == has_host(h2, n),
        has_host(h1, n) ==> host_index(h1, n) == host_index(h2, n),
{
    if has_host(h1, n) {
        let i = host_index(h1, n);
        assert(h2[i].name == n);
        lemma_host_index(h1, n, i);
        assert forall|a: int, b: int| 0 <= a < b < h2.len() implies (#[trigger] h2[a]).name != (#[trigger] h2[b]).name by {
            assert(h1[a].name != h1[b].name);
        }
        lemma_host_index(h2, n, i);
    } else {
        if has_host(h2, n) {
            let j = host_index(h2, n);
            assert(h1[j].name == n);
        }
    }
}

/// The consistency is kept when one host is replaced by `h2` of the same name whose queue
/// is consistent, with the ready queue unchanged, extended by that host, or shortened by
/// its front entry, as its flag says.
proof fn lemma_wf_update(s: SchedulerView, i: int, h2: HostView, s2: SchedulerView)
    requires
        sched_wf(s),
        0 <= i < s.hosts.len(),
        h2.name == s.hosts[i].name,
        queue_ok(h2),
        s2.hosts == s.hosts.update(i, h2),
        s2.pending == s.pending - s.hosts[i].queued.len() + h2.queued.len(),
        ({
            let h = s.hosts[i];
            ||| (h2.ready_enqueued == h.ready_enqueued && s2.ready == s.ready)
            ||| (!h.ready_enqueued && h2.ready_enqueued && s2.ready == s.ready.push(h.name))
            ||| (h.ready_enqueued && !h2.ready_enqueued && s.ready.len() > 0 && s.ready[0] == h.name
                && s2.ready == s.ready.drop_first())
        }),
    ensures
        sched_wf(s2),
{
    let h = s.hosts[i];
    let hs = s.hosts;
    let hs2 = s2.hosts;
    lemma_total_update(hs, i, h2);
    assert forall|a: int, b: int| 0 <= a < b < hs2.len() implies (#[trigger] hs2[a]).name != (#[trigger] hs2[b]).name by {
        assert(hs2[a].name == hs[a].name);
        assert(hs2[b].name == hs[b].name);
    }
    assert forall|j: int, k: int| 0 <= j < hs2.len() && 0 <= k < hs2[j].queued.len() implies (#[trigger] hs2[j].queued[k]).host == hs2[j].name by {
        if j == i {
            assert(h2.queued[k].host == h2.name);
        } else {
            assert(hs2[j] == hs[j]);
            assert(hs[j].queued[k].host == hs[j].name);
        }
    }
    assert forall|j: int, a: int, b: int| 0 <= j < hs2.len() && 0 <= a < b < hs2[j].queued.len() implies (#[trigger] hs2[j].queued[a]).url != (#[trigger] hs2[j].queued[b]).url by {
        if j == i {
            assert(h2.queued[a].url != h2.queued[b].url);
        } else {
            assert(hs2[j] == hs[j]);
            assert(hs[j].queued[a].url != hs[j].queued[b].url);
        }
    }
    assert forall|n: Seq<char>| has_host(hs, n) == has_host(hs2, n) && (has_host(hs, n) ==> host_index(hs, n) == host_index(hs2, n)) by {
        assert forall|j: int| 0 <= j < hs.len() implies (#[trigger] hs[j]).name == hs2[j].name by {}
        lemma_names_same(hs, hs2, n);
    }
    // the ready queue
    if h2.ready_enqueued == h.ready_enqueued && s2.ready == s.ready {
        assert forall|a: int| 0 <= a < s2.ready.len() implies has_host(hs2, #[trigger] s2.ready[a]) && hs2[host_index(hs2, s2.ready[a])].ready_enqueued by {
            let n = s2.ready[a];
            let j = host_index(hs, n);
            assert(has_host(hs, n));
            if j == i {
            } else {
            }
        }
        assert forall|j: int| 0 <= j < hs2.len() && (#[trigger] hs2[j]).ready_enqueued implies s2.ready.contains(hs2[j].name) by {
            if j != i {
                assert(hs[j].ready_enqueued);
            }
        }
    } else if !h.ready_enqueued && h2.ready_enqueued {
        // h.name was not in the ready queue
        assert(!s.ready.contains(h.name)) by {
            if s.ready.contains(h.name) {
                let a = choose|a: int| 0 <= a < s.ready.len() && s.ready[a] == h.name;
                lemma_host_index(hs, h.name, i);
                assert(hs[host_index(hs, s.ready[a])].ready_enqueued);
            }
        }
        assert forall|a: int, b: int| 0 <= a < b < s2.ready.len() implies s2.ready[a] != s2.ready[b] by {
            if b == s.ready.len() {
                assert(s2.ready[b] == h.name);
                assert(s2.ready[a] == s.ready[a]);
            } else {
                assert(s2.ready[a] == s.ready[a] && s2.ready[b] == s.ready[b]);
            }
        }
        assert forall|a: int| 0 <= a < s2.ready.len() implies has_host(hs2, #[trigger] s2.ready[a]) && hs2[host_index(hs2, s2.ready[a])].ready_enqueued by {
            let n = s2.ready[a];
            if a == s.ready.len() {
                lemma_host_index(hs, h.name, i);
            } else {
                assert(s2.ready[a] == s.ready[a]);
                assert(has_host(hs, n));
            }
        }
        assert forall|j: int| 0 <= j < hs2.len() && (#[trigger] hs2[j]).ready_enqueued implies s2.ready.contains(hs2[j].name) by {
            if j != i {
                assert(hs[j].ready_enqueued);
                assert(s.ready.contains(hs[j].name));
                let a = choose|a: int| 0 <= a < s.ready.len() && s.ready[a] == hs[j].name;
                assert(s2.ready[a] == hs[j].name);
            } else {
                assert(s2.ready[s.ready.len() as int] == h.name);
            }
        }
    } else {
        lemma_host_index(hs, h.name, i);
        assert forall|a: int, b: int| 0 <= a < b < s2.ready.len() implies s2.ready[a] != s2.ready[b] by {
            assert(s2.ready[a] == s.ready[a + 1] && s2.ready[b] == s.ready[b + 1]);
        }
        assert forall|a: int| 0 <= a < s2.ready.len() implies has_host(hs2, #[trigger] s2.ready[a]) && hs2[host_index(hs2, s2.ready[a])].ready_enqueued by {
            let n = s2.ready[a];
            assert(n == s.ready[a + 1]);
            assert(s.ready[0] != s.ready[a + 1]);
            assert(has_host(hs, n));
            let j = host_index(hs, n);
            assert(hs[j].name == n);
            if j == i {
                assert(false);
            }
        }
        assert forall|j: int| 0 <= j < hs2.len() && (#[trigger] hs2[j]).ready_enqueued implies s2.ready.contains(hs2[j].name) by {
            assert(j != i);
            assert(hs[j].ready_enqueued);
            assert(s.ready.contains(hs[j].name));
            let a = choose|a: int| 0 <= a < s.ready.len() && s.ready[a] == hs[j].name;
            assert(hs[j].name != hs[i].name);
            assert(a != 0);
            assert(s2.ready[a - 1] == hs[j].name);
        }
    }
}

/// Adding a new, empty host keeps the consistency.
proof fn lemma_wf_new_host(s: SchedulerView, name: Seq<char>)
    requires
        sched_wf(s),
        !has_host(s.hosts, name),
    ensures
        sched_wf(SchedulerView { hosts: s.hosts.push(new_host(name)), ..s }),
        has_host(s.hosts.push(new_host(name)), name),
        host_index(s.hosts.push(new_host(name)), name) == s.hosts.len(),
{
    let hs = s.hosts;
    let hs2 = hs.push(new_host(name));
    let s2 = SchedulerView { hosts: hs2, ..s };
    lemma_total_push(hs, new_host(name));
    assert forall|a: int, b: int| 0 <= a < b < hs2.len() implies (#[trigger] hs2[a]).name != (#[trigger] hs2[b]).name by {
        if b == hs.len() {
            assert(hs[a].name != name);
        }
    }
    lemma_host_index(hs2, name, hs.len() as int);
    assert forall|j: int, k: int| 0 <= j < hs2.len() && 0 <= k < hs2[j].queued.len() implies (#[trigger] hs2[j].queued[k]).host == hs2[j].name by {
        assert(hs2[j] == hs[j]);
    }
    assert forall|j: int, a: int, b: int| 0 <= j < hs2.len() && 0 <= a < b < hs2[j].queued.len() implies (#[trigger] hs2[j].queued[a]).url != (#[trigger] hs2[j].queued[b]).url by {
        assert(hs2[j] == hs[j]);
    }
    assert forall|a: int| 0 <= a < s.ready.len() implies has_host(hs2, #[trigger] s.ready[a]) && hs2[host_index(hs2, s.ready[a])].ready_enqueued by {
        let n = s.ready[a];
        assert(has_host(hs, n));
        let j = host_index(hs, n);
        assert(hs2[j].name == n);
        lemma_host_index(hs2, n, j);
    }
    assert forall|j: int| 0 <= j < hs2.len() && (#[trigger] hs2[j]).ready_enqueued implies s.ready.contains(hs2[j].name) by {
        assert(hs2[j] == hs[j]);
    }
}

pub proof fn lemma_best_index(q: Seq<TaskView>)
    requires
        q.len() > 0,
    ensures
        0 <= best_index(q) < q.len(),
        forall|j: int| 0 <= j < q.len() ==> !runs_before(#[trigger] q[j], q[best_index(q)]),
    decreases q.len(),
{
    if q.len() > 1 {
        let p = q.drop_last();
        lemma_best_index(p);
        let b = best_index(p);
        assert forall|j: int| 0 <= j < q.len() implies !runs_before(#[trigger] q[j], q[best_index(q)]) by {
            if j < q.len() - 1 {
                assert(q[j] == p[j]);
                assert(!runs_before(p[j], p[b]));
            }
        }
    }
}

/// `serve_front` keeps the consistency.
proof fn lemma_serve_front_wf(s: SchedulerView, now: u64)
    requires
        sched_wf(s),
        s.ready.len() > 0,
    ensures
        sched_wf(serve_front(s, now).0),
{
    let name = s.ready[0];
    assert(has_host(s.hosts, name));
    let i = host_index(s.hosts, name);
    let hv = s.hosts[i];
    let h = HostView { ready_enqueued: false, ..hv };
    let r = serve_front(s, now).0;
    lemma_total_update(s.hosts, i, HostView { queued: Seq::empty(), ..hv });
    if h.inflight || h.queued.len() == 0 {
        lemma_wf_update(s, i, h, r);
    } else if !due(h, now) {
        if !h.timer_armed {
            lemma_wf_update(s, i, HostView { timer_armed: true, ..h }, r);
        } else {
            lemma_wf_update(s, i, h, r);
        }
    } else {
        let b = best_index(h.queued);
        lemma_best_index(h.queued);
        let h2 = HostView { queued: h.queued.remove(b), inflight: true, ..h };
        assert(queue_ok(hv));
        assert forall|k: int| 0 <= k < h2.queued.len() implies (#[trigger] h2.queued[k]).host == h2.name by {
            if k < b {
                assert(h2.queued[k] == hv.queued[k]);
            } else {
                assert(h2.queued[k] == hv.queued[k + 1]);
            }
        }
        assert forall|a: int, c: int| 0 <= a < c < h2.queued.len() implies (#[trigger] h2.queued[a]).url != (#[trigger] h2.queued[c]).url by {
            let a1 = if a < b { a } else { a + 1 };
            let c1 = if c < b { c } else { c + 1 };
            assert(h2.queued[a] == hv.queued[a1]);
            assert(h2.queued[c] == hv.queued[c1]);
            assert(hv.queued[a1].url != hv.queued[c1].url);
        }
        lemma_wf_update(s, i, h2, r);
    }
}

/// When the front host yields no task, `serve_front` changes no host's name, queue, flight
/// or deadline, nor the counters.
proof fn lemma_serve_front_idle(s: SchedulerView, now: u64)
    requires
        sched_wf(s),
        s.ready.len() > 0,
        serve_front(s, now).1 is None,
    ensures
        ({
            let r = serve_front(s, now).0;
            &&& r.hosts.len() == s.hosts.len()
            &&& forall|j: int|
                0 <= j < s.hosts.len() ==> {
                    &&& (#[trigger] r.hosts[j]).name == s.hosts[j].name
                    &&& r.hosts[j].queued == s.hosts[j].queued
                    &&& r.hosts[j].inflight == s.hosts[j].inflight
                    &&& r.hosts[j].next_allowed_at == s.hosts[j].next_allowed_at
                }
            &&& r.pending == s.pending
            &&& r.inflight == s.inflight
            &&& r.rate == s.rate
        }),
{
    assert(has_host(s.hosts, s.ready[0]));
}

/// A task whose URL is already queued for its host is refused, and the scheduler is left
/// as it was.
pub proof fn law_duplicate_refused(s: SchedulerView, t: TaskView, now: u64)
    requires
        sched_wf(s),
        has_host(s.hosts, t.host),
        url_queued(s.hosts[host_index(s.hosts, t.host)], t.url),
    ensures
        after_push(s, t, now).0 == s,
        after_push(s, t, now).1 == (false, false, None::<u64>),
{
}

/// Once the scheduler is closed, every task is refused and nothing changes.
pub proof fn law_closed_refuses(s: SchedulerView, t: TaskView, now: u64)
    requires
        s.closed,
    ensures
        after_push(s, t, now) == (s, (false, false, None::<u64>)),
{
}

/// A task that is new to its host is accepted: it joins the back of that host's queue and
/// one task more is pending.
pub proof fn law_push_accepted(s: SchedulerView, t: TaskView, now: u64)
    requires
        sched_wf(s),
        !s.closed,
        !(has_host(s.hosts, t.host) && url_queued(s.hosts[host_index(s.hosts, t.host)], t.url)),
    ensures
        ({
            let (s2, out) = after_push(s, t, now);
            &&& out.0
            &&& s2.pending == s.pending + 1
            &&& has_host(s2.hosts, t.host)
            &&& s2.hosts[host_index(s2.hosts, t.host)].queued.last() == t
            &&& url_queued(s2.hosts[host_index(s2.hosts, t.host)], t.url)
        }),
{
    let hosts = if has_host(s.hosts, t.host) {
        s.hosts
    } else {
        lemma_wf_new_host(s, t.host);
        s.hosts.push(new_host(t.host))
    };
    assert(sched_wf(SchedulerView { hosts, ..s }));
    let i = host_index(hosts, t.host);
    assert(has_host(hosts, t.host));
    let s2 = after_push(s, t, now).0;
    assert(s2.hosts[i].name == t.host);
    lemma_host_index(s2.hosts, t.host, i);
    let q = s2.hosts[i].queued;
    assert(q[q.len() - 1] == t);
}

/// A task handed out by `next_task` is, among the tasks queued for its host, one that no
/// other task runs before; the host had no request in flight and its crawl delay had
/// passed. Afterwards the host is in flight, one task less is pending and one request more
/// is in flight.
pub proof fn law_served_task(s: SchedulerView, now: u64)
    requires
        sched_wf(s),
        after_next(s, now).1 is Some,
    ensures
        ({
            let (s2, t, _, _) = after_next(s, now);
            let t = t.unwrap();
            &&& has_host(s.hosts, t.host)
            &&& {
                let h = s.hosts[host_index(s.hosts, t.host)];
                &&& !h.inflight
                &&& due(h, now)
                &&& h.queued.len() > 0
                &&& t == h.queued[best_index(h.queued)]
                &&& forall|k: int| 0 <= k < h.queued.len() ==> !runs_before(#[trigger] h.queued[k], t)
            }
            &&& has_host(s2.hosts, t.host)
            &&& s2.hosts[host_index(s2.hosts, t.host)].inflight
            &&& s2.pending + 1 == s.pending
            &&& s2.inflight == s.inflight + 1
        }),
    decreases s.ready.len(),
{
    lemma_serve_front_wf(s, now);
    let (s1, t1, _) = serve_front(s, now);
    let name = s.ready[0];
    assert(has_host(s.hosts, name));
    let i = host_index(s.hosts, name);
    let hv = s.hosts[i];
    if t1 is Some {
        let b = best_index(hv.queued);
        lemma_best_index(hv.queued);
        let t = hv.queued[b];
        assert(queue_ok(hv));
        assert(t.host == hv.name);
        lemma_host_index(s.hosts, t.host, i);
        assert(s1.hosts[i].name == t.host);
        lemma_host_index(s1.hosts, t.host, i);
        lemma_total_update(s.hosts, i, HostView { queued: Seq::empty(), ..hv });
    } else {
        lemma_serve_front_idle(s, now);
        law_served_task(s1, now);
        let t = after_next(s1, now).1.unwrap();
        assert(has_host(s1.hosts, t.host));
        let j = host_index(s1.hosts, t.host);
        assert(s.hosts[j].name == t.host);
        lemma_host_index(s.hosts, t.host, j);
    }
}

/// A pass of `next_task` reports the crawl finished only when it hands out no task and the
/// scheduler is closed with nothing pending and nothing in flight; a pass that hands out no
/// task changes none of these, so it reports the crawl finished exactly then. (Otherwise the
/// caller waits for a wake-up and calls again.)
pub proof fn law_finished_only_when_drained(s: SchedulerView, now: u64)
    requires
        sched_wf(s),
    ensures
        ({
            let (s2, t, _, fin) = after_next(s, now);
            &&& fin ==> t is None
            &&& t is None ==> {
                &&& s2.closed == s.closed
                &&& s2.pending == s.pending
                &&& s2.inflight == s.inflight
                &&& (fin <==> (s.closed && s.pending == 0 && s.inflight == 0))
            }
        }),
    decreases s.ready.len(),
{
    if s.ready.len() > 0 {
        lemma_serve_front_wf(s, now);
        let (s1, t1, _) = serve_front(s, now);
        if t1 is None {
            lemma_serve_front_idle(s, now);
            assert(s1.closed == s.closed);
            law_finished_only_when_drained(s1, now);
        }
    }
}

/// A task for a new host pushed to an open scheduler with no host waiting is accepted, and
/// the next pass hands it out.
pub proof fn law_push_then_serve(s: SchedulerView, t: TaskView, now: u64)
    requires
        sched_wf(s),
        !s.closed,
        s.ready.len() == 0,
        !has_host(s.hosts, t.host),
    ensures
        ({
            let (s1, out) = after_push(s, t, now);
            &&& out.0
            &&& out.1
            &&& after_next(s1, now).1 == Some(t)
        }),
{
    lemma_wf_new_host(s, t.host);
    let hosts = s.hosts.push(new_host(t.host));
    let i = s.hosts.len() as int;
    assert(host_index(hosts, t.host) == i);
    let (s1, out) = after_push(s, t, now);
    assert(!url_queued(hosts[i], t.url));
    assert(s1.ready =~= seq![t.host]);
    assert forall|a: int, b: int| 0 <= a < b < s1.hosts.len() implies (#[trigger] s1.hosts[a]).name
        != (#[trigger] s1.hosts[b]).name by {
        assert(s1.hosts[a].name == hosts[a].name);
        assert(s1.hosts[b].name == hosts[b].name);
    }
    lemma_host_index(s1.hosts, t.host, i);
    let h = s1.hosts[i];
    assert(h.queued =~= seq![t]);
    assert(best_index(h.queued) == 0);
    assert(serve_front(s1, now).1 == Some(t));
}

/// After a request to a host completes at `now`, the host is not due before its crawl delay
/// has passed.
pub proof fn law_crawl_delay(s: SchedulerView, name: Seq<char>, now: u64, later: u64)
    requires
        sched_wf(s),
        has_host(s.hosts, name),
        now + rate_limit_for(s.rate, name) <= u64::MAX,
        later < now + rate_limit_for(s.rate, name),
    ensures
        ({
            let s2 = after_complete(s, name, now).0;
            &&& has_host(s2.hosts, name)
            &&& !s2.hosts[host_index(s2.hosts, name)].inflight
            &&& !due(s2.hosts[host_index(s2.hosts, name)], later)
        }),
{
    let i = host_index(s.hosts, name);
    let s2 = after_complete(s, name, now).0;
    assert(s2.hosts[i].name == name);
    lemma_host_index(s2.hosts, name, i);
}

// ---------------------------------------------------------------------------
// Sequences of calls
// ---------------------------------------------------------------------------
/// One call on the scheduler, with its arguments as values.
pub enum SchedOp {
    Push(TaskView, u64),
    Next(u64),
    Requeue(Seq<char>, u64),
    Complete(Seq<char>, u64),
    Close,
}

/// The state after one call (see the `after_*` functions and `close`).
pub open spec fn apply_op(s: SchedulerView, op: SchedOp) -> SchedulerView {
    match op {
        SchedOp::Push(t, now) => after_push(s, t, now).0,
        SchedOp::Next(now) => after_next(s, now).0,
        SchedOp::Requeue(name, now) => after_requeue(s, name, now).0,
        SchedOp::Complete(name, now) => after_complete(s, name, now).0,
        SchedOp::Close => SchedulerView { closed: true, ..s },
    }
}

/// The task a call hands out: only a pass of `next_task` hands one out.
pub open spec fn served_by(s: SchedulerView, op: SchedOp) -> Option<TaskView> {
    match op {
        SchedOp::Next(now) => after_next(s, now).1,
        _ => None,
    }
}

/// The state after the calls `ops`, in order.
pub open spec fn run_ops(s: SchedulerView, ops: Seq<SchedOp>) -> SchedulerView
    decreases ops.len(),
{
    if ops.len() == 0 {
        s
    } else {
        apply_op(run_ops(s, ops.drop_last()), ops.last())
    }
}

/// The host `name` has a request in flight.
pub open spec fn in_flight(s: SchedulerView, name: Seq<char>) -> bool {
    has_host(s.hosts, name) && s.hosts[host_index(s.hosts, name)].inflight
}

/// The call completes the request of host `name`.
pub open spec fn completes(op: SchedOp, name: Seq<char>) -> bool {
    match op {
        SchedOp::Complete(h, _) => h == name,
        _ => false,
    }
}

/// No host is renamed or dropped, and no host leaves flight.
pub open spec fn keeps_flight(s: SchedulerView, s2: SchedulerView) -> bool {
    &&& s.hosts.len() <= s2.hosts.len()
    &&& forall|j: int|
        0 <= j < s.hosts.len() ==> (#[trigger] s2.hosts[j]).name == s.hosts[j].name && (
        s.hosts[j].inflight ==> s2.hosts[j].inflight)
}

proof fn lemma_keeps_in_flight(s: SchedulerView, s2: SchedulerView, name: Seq<char>)
    requires
        sched_wf(s),
        sched_wf(s2),
        keeps_flight(s, s2),
        in_flight(s, name),
    ensures
        in_flight(s2, name),
{
    let i = host_index(s.hosts, name);
    assert(s2.hosts[i].name == name);
    lemma_host_index(s2.hosts, name, i);
}

proof fn lemma_push_keeps(s: SchedulerView, t: TaskView, now: u64)
    requires
        sched_wf(s),
    ensures
        sched_wf(after_push(s, t, now).0),
        keeps_flight(s, after_push(s, t, now).0),
{
    if !s.closed {
        let hosts = if has_host(s.hosts, t.host) {
            s.hosts
        } else {
            lemma_wf_new_host(s, t.host);
            s.hosts.push(new_host(t.host))
        };
        let s1 = SchedulerView { hosts, ..s };
        assert(sched_wf(s1));
        assert(has_host(hosts, t.host));
        let i = host_index(hosts, t.host);
        let h = hosts[i];
        let s2 = after_push(s, t, now).0;
        if !url_queued(h, t.url) {
            let enq = !h.inflight && due(h, now) && !h.ready_enqueued;
            let arm = !h.inflight && !due(h, now) && !h.timer_armed;
            let h2 = HostView {
                queued: h.queued.push(t),
                ready_enqueued: h.ready_enqueued || enq,
                timer_armed: h.timer_armed || arm,
                ..h
            };
            assert(queue_ok(h));
            assert forall|k: int| 0 <= k < h2.queued.len() implies (#[trigger] h2.queued[k]).host == h2.name by {
                if k < h.queued.len() {
                    assert(h2.queued[k] == h.queued[k]);
                }
            }
            assert forall|a: int, b: int| 0 <= a < b < h2.queued.len() implies (#[trigger] h2.queued[a]).url
                != (#[trigger] h2.queued[b]).url by {
                assert(h2.queued[a] == h.queued[a]);
                if b < h.queued.len() {
                    assert(h2.queued[b] == h.queued[b]);
                }
            }
            lemma_wf_update(s1, i, h2, s2);
        }
        assert forall|j: int| 0 <= j < s.hosts.len() implies (#[trigger] s2.hosts[j]).name == s.hosts[j].name && (
        s.hosts[j].inflight ==> s2.hosts[j].inflight) by {
            assert(hosts[j] == s.hosts[j]);
        }
    }
}

proof fn lemma_next_keeps(s: SchedulerView, now: u64)
    requires
        sched_wf(s),
    ensures
        sched_wf(after_next(s, now).0),
        keeps_flight(s, after_next(s, now).0),
    decreases s.ready.len(),
{
    if s.ready.len() > 0 {
        lemma_serve_front_wf(s, now);
        let (s1, t, _) = serve_front(s, now);
        assert(keeps_flight(s, s1));
        if t is None {
            lemma_next_keeps(s1, now);
            let s2 = after_next(s1, now).0;
            assert forall|j: int| 0 <= j < s.hosts.len() implies (#[trigger] s2.hosts[j]).name == s.hosts[j].name && (
            s.hosts[j].inflight ==> s2.hosts[j].inflight) by {
                assert(s1.hosts[j].name == s.hosts[j].name);
            }
        }
    }
}

proof fn lemma_requeue_keeps(s: SchedulerView, name: Seq<char>, now: u64)
    requires
        sched_wf(s),
    ensures
        sched_wf(after_requeue(s, name, now).0),
        keeps_flight(s, after_requeue(s, name, now).0),
{
    if !s.closed && has_host(s.hosts, name) {
        let i = host_index(s.hosts, name);
        let h = s.hosts[i];
        let enq = !h.inflight && h.queued.len() > 0 && !h.ready_enqueued && due(h, now);
        let h2 = HostView { timer_armed: false, ready_enqueued: h.ready_enqueued || enq, ..h };
        assert(queue_ok(h));
        lemma_wf_update(s, i, h2, after_requeue(s, name, now).0);
    }
}

proof fn lemma_complete_keeps(s: SchedulerView, done: Seq<char>, now: u64, name: Seq<char>)
    requires
        sched_wf(s),
        in_flight(s, name),
        done != name,
    ensures
        sched_wf(after_complete(s, done, now).0),
        in_flight(after_complete(s, done, now).0, name),
{
    let s2 = after_complete(s, done, now).0;
    if has_host(s.hosts, done) {
        let i = host_index(s.hosts, done);
        let h = s.hosts[i];
        let delay = rate_limit_for(s.rate, done);
        let arm = h.queued.len() > 0 && !h.timer_armed;
        let h2 = HostView {
            inflight: false,
            next_allowed_at: Some((now + delay) as u64),
            timer_armed: h.timer_armed || arm,
            ..h
        };
        assert(queue_ok(h));
        lemma_wf_update(s, i, h2, s2);
        let j = host_index(s.hosts, name);
        assert(j != i);
        assert(s2.hosts[j].name == name);
        lemma_host_index(s2.hosts, name, j);
    } else {
        assert(s2.hosts == s.hosts);
    }
}

proof fn lemma_run_ops_in_flight(s: SchedulerView, ops: Seq<SchedOp>, name: Seq<char>)
    requires
        sched_wf(s),
        in_flight(s, name),
        forall|k: int| 0 <= k < ops.len() ==> !completes(#[trigger] ops[k], name),
    ensures
        sched_wf(run_ops(s, ops)),
        in_flight(run_ops(s, ops), name),
    decreases ops.len(),
{
    if ops.len() > 0 {
        let p = ops.drop_last();
        assert forall|k: int| 0 <= k < p.len() implies !completes(#[trigger] p[k], name) by {
            assert(p[k] == ops[k]);
        }
        lemma_run_ops_in_flight(s, p, name);
        let r = run_ops(s, p);
        let op = ops.last();
        assert(!completes(ops[ops.len() - 1], name));
        match op {
            SchedOp::Push(t, now) => {
                lemma_push_keeps(r, t, now);
                lemma_keeps_in_flight(r, apply_op(r, op), name);
            },
            SchedOp::Next(now) => {
                lemma_next_keeps(r, now);
                lemma_keeps_in_flight(r, apply_op(r, op), name);
            },
            SchedOp::Requeue(h, now) => {
                lemma_requeue_keeps(r, h, now);
                lemma_keeps_in_flight(r, apply_op(r, op), name);
            },
            SchedOp::Complete(h, now) => {
                lemma_complete_keeps(r, h, now, name);
            },
            SchedOp::Close => {
                assert(apply_op(r, op).hosts == r.hosts);
            },
        }
    }
}

/// One request per host: once a host has a request in flight (as after `next_task` hands
/// out one of its tasks), no call of `next_task` hands out another task of that host,
/// whatever calls of `push_task`, `next_task`, `requeue_host`, `complete_host` for other
/// hosts and `close` come in between, until `complete_host` is called for it.
pub proof fn law_one_request_per_host(s: SchedulerView, ops: Seq<SchedOp>, name: Seq<char>)
    requires
        sched_wf(s),
        in_flight(s, name),
        forall|k: int| 0 <= k < ops.len() ==> !completes(#[trigger] ops[k], name),
    ensures
        forall|k: int|
            0 <= k < ops.len() ==> {
                &&& in_flight(#[trigger] run_ops(s, ops.take(k)), name)
                &&& (served_by(run_ops(s, ops.take(k)), ops[k]) matches Some(t) ==> t.host != name)
            },
{
    assert forall|k: int| 0 <= k < ops.len() implies {
        &&& in_flight(#[trigger] run_ops(s, ops.take(k)), name)
        &&& (served_by(run_ops(s, ops.take(k)), ops[k]) matches Some(t) ==> t.host != name)
    } by {
        let p = ops.take(k);
        assert forall|j: int| 0 <= j < p.len() implies !completes(#[trigger] p[j], name) by {
            assert(p[j] == ops[j]);
        }
        lemma_run_ops_in_flight(s, p, name);
        let r = run_ops(s, p);
        match ops[k] {
            SchedOp::Next(now) => {
                if after_next(r, now).1 is Some {
                    law_served_task(r, now);
                }
            },
            _ => {},
        }
    }
}

/// A task handed out puts its host in flight: with `law_one_request_per_host`, no second
/// task of that host is handed out before `complete_host` is called for it.
pub proof fn law_served_host_in_flight(s: SchedulerView, now: u64)
    requires
        sched_wf(s),
        after_next(s, now).1 is Some,
    ensures
        sched_wf(after_next(s, now).0),
        in_flight(after_next(s, now).0, after_next(s, now).1.unwrap().host),
{
    law_served_task(s, now);
    lemma_next_keeps(s, now);
}

// ---------------------------------------------------------------------------
// Operations
// ---------------------------------------------------------------------------
impl HostQueue {
    fn empty_for(host: String) -> (h: HostQueue)
        ensures
            h@ == new_host(host@),
    {
        let h = HostQueue {
            host,
            queued: Vec::new(),
            inflight: false,
            ready_enqueued: false,
            timer_armed: false,
            next_allowed_at: None,
        };
        assert(h@.queued =~= Seq::<TaskView>::empty());
        h
    }

    fn is_due(&self, now: u64) -> (r: bool)
        ensures
            r == due(self@, now),
    {
        match self.next_allowed_at {
            None => true,
            Some(d) => d <= now,
        }
    }

    fn delay(&self, now: u64) -> (r: u64)
        ensures
            r == deadline_delay(self@, now),
    {
        match self.next_allowed_at {
            Some(d) => if d > now {
                d - now
            } else {
                0
            },
            None => 0,
        }
    }

    fn has_url(&self, url: &str) -> (r: bool)
        ensures
            r == url_queued(self@, url@),
    {
        let mut k: usize = 0;
        while k < self.queued.len()
            invariant
                k <= self.queued.len(),
                forall|j: int| 0 <= j < k ==> (#[trigger] self@.queued[j]).url != url@,
            decreases self.queued.len() - k,
        {
            assert(self@.queued[k as int] == self.queued@[k as int]@);
            if str_eq(self.queued[k].url.as_str(), url) {
                return true;
            }
            k = k + 1;
        }
        false
    }

    fn best(&self) -> (r: usize)
        requires
            self.queued.len() > 0,
        ensures
            r == best_index(self@.queued),
            r < self.queued.len(),
    {
        proof {
            lemma_best_index(self@.queued);
        }
        let ghost q = self@.queued;
        let mut b: usize = 0;
        let mut k: usize = 1;
        while k < self.queued.len()
            invariant
                1 <= k <= self.queued.len(),
                q == self@.queued,
                b == best_index(q.take(k as int)),
            decreases self.queued.len() - k,
        {
            proof {
                assert(q.take(k + 1).drop_last() =~= q.take(k as int));
                lemma_best_index(q.take(k as int));
                assert(q.take(k + 1)[b as int] == q[b as int]);
                assert(q.take(k + 1).last() == q[k as int]);
                assert(q[k as int] == self.queued@[k as int]@);
                assert(q[b as int] == self.queued@[b as int]@);
            }
            let t = &self.queued[k];
            let cur = &self.queued[b];
            if t.priority > cur.priority || (t.priority == cur.priority && t.depth < cur.depth) {
                b = k;
            }
            k = k + 1;
        }
        assert(q.take(q.len() as int) =~= q);
        b
    }
}

impl CrawlScheduler {
    pub fn new(default_rate_limit_ms: u64) -> (s: CrawlScheduler)
        ensures
            s.wf(),
            s@.hosts.len() == 0,
            s@.ready.len() == 0,
            s@.pending == 0,
            s@.inflight == 0,
            !s@.closed,
            s@.rate == default_rate_limit_ms,
    {
        let s = CrawlScheduler {
            hosts: Vec::new(),
            ready_hosts: Vec::new(),
            pending: 0,
            inflight: 0,
            closed: false,
            default_rate_limit_ms,
        };
        assert(s@.hosts =~= Seq::<HostView>::empty());
        assert(s@.ready =~= Seq::<Seq<char>>::empty());
        s
    }

    fn find_host(&self, host: &str) -> (r: Option<usize>)
        requires
            self.wf(),
        ensures
            match r {
                Some(i) => i < self.hosts.len() && has_host(self@.hosts, host@) && host_index(self@.hosts, host@) == i,
                None => !has_host(self@.hosts, host@),
            },
    {
        let mut i: usize = 0;
        while i < self.hosts.len()
            invariant
                self.wf(),
                i <= self.hosts.len(),
                forall|j: int| 0 <= j < i ==> (#[trigger] self@.hosts[j]).name != host@,
            decreases self.hosts.len() - i,
        {
            assert(self@.hosts[i as int] == self.hosts@[i as int]@);
            if str_eq(self.hosts[i].host.as_str(), host) {
                proof {
                    lemma_host_index(self@.hosts, host@, i as int);
                }
                return Some(i);
            }
            i = i + 1;
        }
        None
    }

    /// Queue a task for its host. A task whose URL is already queued for that host, or that
    /// comes after `close`, is refused. The outcome says whether to wake a worker (the host
    /// became ready) or to arm a timer (the host must wait for its crawl delay).
    pub fn push_task(&mut self, task: UrlTask, now: u64) -> (out: PushOutcome)
        requires
            old(self).wf(),
            old(self)@.pending < usize::MAX,
        ensures
            final(self).wf(),
            (final(self)@, (out.accepted, out.notify_one, out.wake_after_ms)) == after_push(
                old(self)@,
                task@,
                now,
            ),
    {
        if self.closed {
            return PushOutcome { accepted: false, notify_one: false, wake_after_ms: None };
        }
        let ghost s0 = self@;
        let idx = match self.find_host(task.host.as_str()) {
            Some(i) => i,
            None => {
                let h = HostQueue::empty_for(task.host.clone());
                proof {
                    lemma_wf_new_host(self@, task.host@);
                }
                self.hosts.push(h);
                assert(self@.hosts =~= s0.hosts.push(new_host(task.host@)));
                self.hosts.len() - 1
            },
        };
        let ghost s1 = self@;
        assert(s1.hosts == (if has_host(s0.hosts, task.host@) {
            s0.hosts
        } else {
            s0.hosts.push(new_host(task.host@))
        }));
        assert(sched_wf(s1));
        assert(host_index(s1.hosts, task.host@) == idx);
        assert(s1.hosts[idx as int] == self.hosts@[idx as int]@);
        let mut h = self.hosts.remove(idx);
        if h.has_url(task.url.as_str()) {
            self.hosts.insert(idx, h);
            assert(self@.hosts =~= s1.hosts);
            return PushOutcome { accepted: false, notify_one: false, wake_after_ms: None };
        }
        let ghost hv = h@;
        let due_now = h.is_due(now);
        let enq = !h.inflight && due_now && !h.ready_enqueued;
        let arm = !h.inflight && !due_now && !h.timer_armed;
        let delay = h.delay(now);
        let host_name = task.host.clone();
        h.queued.push(task);
        if enq {
            h.ready_enqueued = true;
        }
        if arm {
            h.timer_armed = true;
        }
        let ghost h2 = h@;
        assert(h2.queued =~= hv.queued.push(task@));
        self.hosts.insert(idx, h);
        self.pending = self.pending + 1;
        if enq {
            self.ready_hosts.push(host_name);
        }
        proof {
            assert(self@.hosts =~= s1.hosts.update(idx as int, h2));
            assert(self@.ready =~= (if enq { s1.ready.push(task@.host) } else { s1.ready }));
            assert(queue_ok(hv));
            assert forall|a: int, b: int| 0 <= a < b < h2.queued.len() implies (#[trigger] h2.queued[a]).url != (#[trigger] h2.queued[b]).url by {
                if b == hv.queued.len() {
                    assert(h2.queued[a] == hv.queued[a]);
                }
            }
            lemma_wf_update(s1, idx as int, h2, self@);
        }
        PushOutcome {
            accepted: true,
            notify_one: enq,
            wake_after_ms: if arm {
                Some(delay)
            } else {
                None
            },
        }
    }

    /// Take the host at the front of the ready queue and serve it if it can be served.
    fn serve_front_exec(&mut self, now: u64) -> (r: (Option<UrlTask>, Option<(String, u64)>))
        requires
            old(self).wf(),
            old(self)@.ready.len() > 0,
            old(self)@.inflight < usize::MAX,
        ensures
            final(self).wf(),
            serve_front(old(self)@, now) == (final(self)@, task_opt_view(r.0), timer_view(r.1)),
    {
        let ghost s = self@;
        assert(s.ready[0] == self.ready_hosts@[0]@);
        let found = self.find_host(self.ready_hosts[0].as_str());
        let name = self.ready_hosts.remove(0);
        assert(self@.ready =~= s.ready.drop_first());
        let idx = match found {
            Some(i) => i,
            None => {
                assert(has_host(s.hosts, s.ready[0]));
                return (None, None);
            },
        };
        assert(s.hosts[idx as int] == self.hosts@[idx as int]@);
        assert(s.hosts[idx as int].ready_enqueued);
        let mut h = self.hosts.remove(idx);
        let ghost hv = h@;
        proof {
            lemma_total_update(s.hosts, idx as int, HostView { queued: Seq::empty(), ..hv });
        }
        h.ready_enqueued = false;
        if h.inflight || h.queued.len() == 0 {
            let ghost h2 = h@;
            self.hosts.insert(idx, h);
            proof {
                assert(self@.hosts =~= s.hosts.update(idx as int, h2));
                lemma_wf_update(s, idx as int, h2, self@);
            }
            return (None, None);
        }
        if !h.is_due(now) {
            if !h.timer_armed {
                h.timer_armed = true;
                let d = h.delay(now);
                let ghost h2 = h@;
                self.hosts.insert(idx, h);
                proof {
                    assert(self@.hosts =~= s.hosts.update(idx as int, h2));
                    lemma_wf_update(s, idx as int, h2, self@);
                }
                return (None, Some((name, d)));
            } else {
                let ghost h2 = h@;
                self.hosts.insert(idx, h);
                proof {
                    assert(self@.hosts =~= s.hosts.update(idx as int, h2));
                    lemma_wf_update(s, idx as int, h2, self@);
                }
                return (None, None);
            }
        }
        let b = h.best();
        let task = h.queued.remove(b);
        h.inflight = true;
        let ghost h2 = h@;
        assert(h2.queued =~= hv.queued.remove(b as int));
        assert(task@ == hv.queued[b as int]);
        self.hosts.insert(idx, h);
        self.pending = if self.pending > 0 {
            self.pending - 1
        } else {
            0
        };
        self.inflight = self.inflight + 1;
        proof {
            assert(self@.hosts =~= s.hosts.update(idx as int, h2));
            assert(queue_ok(hv));
            assert forall|k: int| 0 <= k < h2.queued.len() implies (#[trigger] h2.queued[k]).host == h2.name by {
                if k < b {
                    assert(h2.queued[k] == hv.queued[k]);
                } else {
                    assert(h2.queued[k] == hv.queued[k + 1]);
                }
            }
            assert forall|a: int, c: int| 0 <= a < c < h2.queued.len() implies (#[trigger] h2.queued[a]).url != (#[trigger] h2.queued[c]).url by {
                let a1 = if a < b { a } else { a + 1 };
                let c1 = if c < b { c } else { c + 1 };
                assert(h2.queued[a] == hv.queued[a1]);
                assert(h2.queued[c] == hv.queued[c1]);
                assert(hv.queued[a1].url != hv.queued[c1].url);
            }
            lemma_wf_update(s, idx as int, h2, self@);
        }
        (Some(task), None)
    }

    /// One pass over the ready queue at `now`: hosts are taken from its front until one can
    /// be served. The outcome holds the task (if any), the timers to arm for hosts still in
    /// their crawl delay, and whether the crawl is finished (closed, nothing queued, nothing
    /// in flight). With no task and not finished, the caller waits for a wake-up and calls
    /// again.
    pub fn next_task(&mut self, now: u64) -> (out: NextOutcome)
        requires
            old(self).wf(),
            old(self)@.inflight < usize::MAX,
        ensures
            final(self).wf(),
            after_next(old(self)@, now) == (
                final(self)@,
                task_opt_view(out.task),
                timer_views(out.timers@),
                out.finished,
            ),
    {
        let ghost s0 = self@;
        let mut timers: Vec<(String, u64)> = Vec::new();
        while self.ready_hosts.len() > 0
            invariant
                self.wf(),
                s0 == old(self)@,
                self@.inflight == s0.inflight,
                s0.inflight < usize::MAX,
                ({
                    let r = after_next(self@, now);
                    after_next(s0, now) == (r.0, r.1, timer_views(timers@) + r.2, r.3)
                }),
            decreases self.ready_hosts.len(),
        {
            let ghost s = self@;
            let ghost ts = timer_views(timers@);
            let (t, timer) = self.serve_front_exec(now);
            let ghost rest = after_next(self@, now);
            let ghost tv = timer_view(timer);
            proof {
                assert(ts + Seq::<(Seq<char>, u64)>::empty() =~= ts);
                if t.is_some() {
                    assert(after_next(s, now) == (self@, task_opt_view(t), opt_timer(tv), false));
                    assert(tv is None);
                    assert(ts + opt_timer(tv) =~= ts);
                } else {
                    assert(after_next(s, now) == (rest.0, rest.1, opt_timer(tv) + rest.2, rest.3));
                }
            }
            match timer {
                Some(p) => {
                    timers.push(p);
                    proof {
                        assert(timer_views(timers@) =~= ts.push(timer_view(Some(p)).unwrap()));
                        assert(ts + (opt_timer(timer_view(Some(p))) + rest.2) =~= timer_views(timers@) + rest.2);
                    }
                },
                None => {
                    proof {
                        assert(opt_timer(timer_view(None::<(String, u64)>)) + rest.2 =~= rest.2);
                    }
                },
            }
            if t.is_some() {
                return NextOutcome { task: t, timers, finished: false };
            }
        }
        assert(timer_views(timers@) + Seq::<(Seq<char>, u64)>::empty() =~= timer_views(timers@));
        let finished = self.closed && self.pending == 0 && self.inflight == 0;
        NextOutcome { task: None, timers, finished }
    }

    /// A timer armed for `host` has fired: disarm it and put the host back on the ready
    /// queue if it can be served now. Returns whether to wake one worker.
    pub fn requeue_host(&mut self, host: &str, now: u64) -> (wake: bool)
        requires
            old(self).wf(),
        ensures
            final(self).wf(),
            (final(self)@, wake) == after_requeue(old(self)@, host@, now),
    {
        if self.closed {
            return false;
        }
        let ghost s = self@;
        let idx = match self.find_host(host) {
            Some(i) => i,
            None => {
                return false;
            },
        };
        assert(s.hosts[idx as int] == self.hosts@[idx as int]@);
        let mut h = self.hosts.remove(idx);
        let enq = !h.inflight && h.queued.len() > 0 && !h.ready_enqueued && h.is_due(now);
        h.timer_armed = false;
        if enq {
            h.ready_enqueued = true;
        }
        let name = h.host.clone();
        let ghost h2 = h@;
        self.hosts.insert(idx, h);
        if enq {
            self.ready_hosts.push(name);
        }
        proof {
            assert(self@.hosts =~= s.hosts.update(idx as int, h2));
            assert(self@.ready =~= (if enq { s.ready.push(host@) } else { s.ready }));
            lemma_wf_update(s, idx as int, h2, self@);
        }
        enq
    }

    /// The request to `host` has finished at `now`: the host leaves flight and may be served
    /// again after its crawl delay. Returns the delay after which to call `requeue_host`,
    /// when tasks are waiting and no timer is armed yet. The caller wakes all waiting
    /// workers afterwards.
    pub fn complete_host(&mut self, host: &str, now: u64) -> (wake_after_ms: Option<u64>)
        requires
            old(self).wf(),
            now + rate_limit_for(old(self)@.rate, host@) <= u64::MAX,
        ensures
            final(self).wf(),
            (final(self)@, wake_after_ms) == after_complete(old(self)@, host@, now),
    {
        let ghost s = self@;
        let inflight = if self.inflight > 0 {
            self.inflight - 1
        } else {
            0
        };
        let idx = match self.find_host(host) {
            Some(i) => i,
            None => {
                self.inflight = inflight;
                return None;
            },
        };
        let delay = domain_rate_limit_ms(self.default_rate_limit_ms, host);
        assert(s.hosts[idx as int] == self.hosts@[idx as int]@);
        let mut h = self.hosts.remove(idx);
        let arm = h.queued.len() > 0 && !h.timer_armed;
        h.inflight = false;
        h.next_allowed_at = Some(now + delay);
        if arm {
            h.timer_armed = true;
        }
        let ghost h2 = h@;
        self.hosts.insert(idx, h);
        self.inflight = inflight;
        proof {
            assert(self@.hosts =~= s.hosts.update(idx as int, h2));
            lemma_wf_update(s, idx as int, h2, self@);
        }
        if arm {
            Some(delay)
        } else {
            None
        }
    }

    /// The counters: tasks queued, requests in flight, hosts known.
    pub fn stats(&self) -> (r: (usize, usize, usize))
        ensures
            r.0 == self@.pending,
            r.1 == self@.inflight,
            r.2 == self@.hosts.len(),
    {
        (self.pending, self.inflight, self.hosts.len())
    }

    /// Stop accepting tasks; workers finish once the queues drain.
    pub fn close(&mut self)
        requires
            old(self).wf(),
        ensures
            final(self).wf(),
            final(self)@ == (SchedulerView { closed: true, ..old(self)@ }),
    {
        self.closed = true;
    }
}

} // verus!
