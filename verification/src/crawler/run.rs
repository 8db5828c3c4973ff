//! The decisions of the crawl driver: when the crawl is over, which host a rejection is
//! counted under, and the aliases a fetched page is recorded under.
use crate::crawler::persist::{first_occurrences, unique_aliases};
use crate::text::views;
use vstd::prelude::*;

verus! {

/// How many new pages this run may accept: the page budget minus the pages already stored,
/// none when the store is already full.
pub fn target_new_pages(max_pages: usize, existing_pages: usize) -> (r: usize)
    ensures
        r == (if max_pages > existing_pages { max_pages - existing_pages } else { 0 }),
{
    if max_pages > existing_pages {
        max_pages - existing_pages
    } else {
        0
    }
}

/// Whether the crawl is over: nothing is queued, in flight at the scheduler or being
/// fetched; or a page target was set and reached.
pub fn crawl_finished(
    pending_urls: usize,
    inflight_hosts: usize,
    fetch_inflight: usize,
    target_new_pages: usize,
    accepted_new_pages: usize,
) -> (r: bool)
    ensures
        r == ((pending_urls == 0 && inflight_hosts == 0 && fetch_inflight == 0) || (target_new_pages > 0
            && accepted_new_pages >= target_new_pages)),
{
    (pending_urls == 0 && inflight_hosts == 0 && fetch_inflight == 0) || (target_new_pages > 0
        && accepted_new_pages >= target_new_pages)
}

/// The host a rejected page is counted under: the host it ended at, or the task's host when
/// the fetch ended nowhere.
pub fn reject_host(task_host: &str, final_host: &str) -> (r: String)
    ensures
        r@ == (if final_host@.len() == 0 { task_host@ } else { final_host@ }),
{
    if final_host.is_empty() {
        task_host.to_owned()
    } else {
        final_host.to_owned()
    }
}

/// The recrawl interval in milliseconds for an interval in days.
pub fn recrawl_after_ms(recrawl_days: u64) -> (r: i64)
    requires
        recrawl_days * 86_400_000 <= i64::MAX,
    ensures
        r == recrawl_days * 86_400_000,
{
    (recrawl_days as i64) * 86_400_000
}

/// The aliases a fetched page is recorded under: the task URL, the URL the fetch ended at,
/// the page's final and canonical URLs and the URL of its record, without empty or
/// repeated entries.
pub fn page_aliases(
    task_url: &str,
    final_url: &str,
    page_final_url: &str,
    canonical_url: &str,
    record_url: &str,
) -> (r: Vec<String>)
    ensures
        views(r@) == first_occurrences(
            seq![task_url@, final_url@, page_final_url@, canonical_url@, record_url@],
            true,
        ),
{
    let mut v: Vec<String> = Vec::new();
    v.push(task_url.to_owned());
    v.push(final_url.to_owned());
    v.push(page_final_url.to_owned());
    v.push(canonical_url.to_owned());
    v.push(record_url.to_owned());
    assert(views(v@) =~= seq![task_url@, final_url@, page_final_url@, canonical_url@, record_url@]);
    unique_aliases(v)
}

/// The aliases of a page that was rejected or not modified: the task URL and the URL the
/// fetch ended at, without empty or repeated entries.
pub fn fetch_aliases(task_url: &str, final_url: &str) -> (r: Vec<String>)
    ensures
        views(r@) == first_occurrences(seq![task_url@, final_url@], true),
{
    let mut v: Vec<String> = Vec::new();
    v.push(task_url.to_owned());
    v.push(final_url.to_owned());
    assert(views(v@) =~= seq![task_url@, final_url@]);
    unique_aliases(v)
}

} // verus!
