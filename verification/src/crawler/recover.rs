//! Recovery of crawl work at start-up: which stored pages are due for a recrawl, and the
//! hosts of stored pages.
use crate::crawler::policy::{score_url, url_allowed, url_ok, url_score};
use crate::crawler::types::UrlTask;
use crate::crawler::urlparts::{parse_url, parsed_url, UrlParts, UrlView};
use vstd::prelude::*;

verus! {

/// Milliseconds in a day.
pub const DAY_MS: i64 = 86_400_000;

/// Why a stored page is not considered for a recrawl.
#[derive(Debug, Clone, Copy, PartialEq, Eq, Structural)]
pub enum RecrawlSkip {
    /// The stored URL does not parse or has no host (counted as invalid).
    InvalidUrl,
    /// The crawl policy no longer allows the URL (skipped silently).
    Disallowed,
}

pub open spec fn recrawl_verdict(raw: Seq<char>) -> Result<UrlView, RecrawlSkip> {
    match parsed_url(raw) {
        None => Err(RecrawlSkip::InvalidUrl),
        Some(u) => if !url_ok(u) {
            Err(RecrawlSkip::Disallowed)
        } else if u.host is None {
            Err(RecrawlSkip::InvalidUrl)
        } else {
            Ok(u)
        },
    }
}

/// The first check on a stored page's URL before a recrawl (see `recrawl_verdict`).
pub fn recrawl_candidate(raw_url: &str) -> (r: Result<UrlParts, RecrawlSkip>)
    ensures
        match r {
            Ok(u) => recrawl_verdict(raw_url@) == Ok::<UrlView, RecrawlSkip>(u@),
            Err(e) => recrawl_verdict(raw_url@) == Err::<UrlView, RecrawlSkip>(e),
        },
{
    let url = match parse_url(raw_url) {
        Some(u) => u,
        None => return Err(RecrawlSkip::InvalidUrl),
    };
    if !url_allowed(&url) {
        return Err(RecrawlSkip::Disallowed);
    }
    if url.host.is_none() {
        return Err(RecrawlSkip::InvalidUrl);
    }
    Ok(url)
}

/// The whole days of a default recrawl interval given in milliseconds (rounded toward
/// zero).
pub fn interval_days(default_recrawl_after_ms: i64) -> (r: i64)
    ensures
        default_recrawl_after_ms >= 0 ==> r == default_recrawl_after_ms / DAY_MS,
        default_recrawl_after_ms < 0 ==> r == -((-default_recrawl_after_ms) / (DAY_MS as int)),
{
    default_recrawl_after_ms / DAY_MS
}

/// The recrawl interval of a host in milliseconds, from its interval in days; the default
/// interval when that comes to nothing.
pub fn recrawl_interval_ms(host_days: u64, default_recrawl_after_ms: i64) -> (r: i64)
    requires
        host_days * DAY_MS <= i64::MAX,
    ensures
        r == (if host_days * DAY_MS > 0 {
            host_days * DAY_MS
        } else {
            default_recrawl_after_ms as int
        }),
{
    let d = host_days as i64;
    let ms = d * DAY_MS;
    if ms > 0 {
        ms
    } else {
        default_recrawl_after_ms
    }
}

/// `a - b`, clamped to the range of `i64`.
pub open spec fn sat_sub(a: i64, b: i64) -> int {
    if a - b > i64::MAX {
        i64::MAX as int
    } else if a - b < i64::MIN {
        i64::MIN as int
    } else {
        a - b
    }
}

/// When a stored page was last fetched: the later of its fetch and crawl times, or 0 when
/// its state is missing or unreadable.
pub fn last_fetch_of(state: Option<(i64, i64)>) -> (r: i64)
    ensures
        r == match state {
            Some((f, c)) => if f >= c {
                f
            } else {
                c
            },
            None => 0,
        },
{
    match state {
        Some((f, c)) => if f >= c {
            f
        } else {
            c
        },
        None => 0,
    }
}

/// Whether a page is due for a recrawl at `now_ms`: it was never fetched (time 0 or
/// less), or at least the interval has passed since.
pub fn recrawl_due(now_ms: i64, last_fetch_ms: i64, recrawl_after_ms: i64) -> (r: bool)
    ensures
        r == !(last_fetch_ms > 0 && sat_sub(now_ms, last_fetch_ms) < recrawl_after_ms),
{
    if last_fetch_ms <= 0 {
        return true;
    }
    let elapsed: i64 = match now_ms.checked_sub(last_fetch_ms) {
        Some(e) => e,
        None => if now_ms > 0 {
            i64::MAX
        } else {
            i64::MIN
        },
    };
    !(elapsed < recrawl_after_ms)
}

/// The task a due page is recrawled with: its stored URL, at depth 0, scored by the policy.
pub fn recrawl_task(raw_url: &str, url: &UrlParts) -> (t: UrlTask)
    requires
        url.host is Some,
    ensures
        t@.url == raw_url@,
        t@.host == url@.host.unwrap(),
        t@.depth == 0,
        t@.priority == url_score(url@, 0),
{
    let host = match &url.host {
        Some(h) => h.clone(),
        None => String::new(),
    };
    UrlTask { url: raw_url.to_owned(), host, depth: 0, priority: score_url(url, 0) }
}

/// The host a stored page is counted under: that of its URL, when it parses and has one.
pub fn content_host(raw_url: &str) -> (r: Option<String>)
    ensures
        r matches Some(h) ==> parsed_url(raw_url@) matches Some(u) && u.host == Some(h@),
        r is None ==> (parsed_url(raw_url@) matches None || parsed_url(raw_url@).unwrap().host is None),
{
    match parse_url(raw_url) {
        Some(u) => u.host,
        None => None,
    }
}

} // verus!
