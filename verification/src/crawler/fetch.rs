//! The decisions taken around one fetch: the task's URL, the response status, where a
//! redirect led, and what the response headers say about the content.
use crate::crawler::canon::{canonical_url, canonicalize};
use crate::crawler::policy::{allowed_host, host_allowed, url_allowed, url_ok};
use crate::crawler::robots::{is_allowed, path_allowed};
use crate::crawler::types::{FetchResult, RejectReason, UrlTask};
use crate::crawler::urlparts::{parse_url, parsed_url, UrlParts, UrlView};
use crate::text::{contains_lit, contains_sub, lower, lower_chars, str_eq, to_chars, views};
use vstd::prelude::*;

verus! {

/// What the response status means for the fetch.
#[derive(Debug, Clone, Copy, PartialEq, Eq, Structural)]
pub enum StatusVerdict {
    /// 304: the stored copy is still current.
    NotModified,
    /// 2xx: go on with the response.
    Proceed,
    /// Anything else: the page is rejected for this reason.
    Reject(RejectReason),
}

pub open spec fn status_verdict(status: u16) -> StatusVerdict {
    if status == 304 {
        StatusVerdict::NotModified
    } else if 200 <= status <= 299 {
        StatusVerdict::Proceed
    } else if status == 404 {
        StatusVerdict::Reject(RejectReason::Http4xx)
    } else if status == 429 || (500 <= status <= 599) {
        StatusVerdict::Reject(RejectReason::Http5xx)
    } else {
        StatusVerdict::Reject(RejectReason::Http4xx)
    }
}

/// Classify an HTTP status: 304 is "not modified", 2xx goes on; 429 and 5xx count as
/// server errors, every other status as a client error.
pub fn classify_status(status: u16) -> (v: StatusVerdict)
    ensures
        v == status_verdict(status),
{
    if status == 304 {
        StatusVerdict::NotModified
    } else if 200 <= status && status <= 299 {
        StatusVerdict::Proceed
    } else if status == 404 {
        StatusVerdict::Reject(RejectReason::Http4xx)
    } else if status == 429 || (500 <= status && status <= 599) {
        StatusVerdict::Reject(RejectReason::Http5xx)
    } else {
        StatusVerdict::Reject(RejectReason::Http4xx)
    }
}

/// The task's URL, parsed for the request; a URL that does not parse is rejected.
pub fn parse_task_url(url: &str) -> (r: Result<UrlParts, RejectReason>)
    ensures
        match r {
            Ok(u) => parsed_url(url@) == Some(u@),
            Err(e) => parsed_url(url@) is None && e == RejectReason::BadUrl,
        },
{
    match parse_url(url) {
        Some(u) => Ok(u),
        None => Err(RejectReason::BadUrl),
    }
}

/// The verdict on the URL a request ended at: its canonical form, or why it is rejected.
pub open spec fn redirect_verdict(raw: Seq<char>) -> Result<UrlView, RejectReason> {
    match canonical_url(raw) {
        None => Err(RejectReason::RedirectBadUrl),
        Some(u) => match u.host {
            None => Err(RejectReason::RedirectNoHost),
            Some(h) => if !allowed_host(h) {
                Err(RejectReason::RedirectDisallowed)
            } else if !url_ok(u) {
                Err(RejectReason::RedirectFiltered)
            } else {
                Ok(u)
            },
        },
    }
}

/// Check the URL a request ended at after redirects: it must be canonical, have a host,
/// that host must be allowed, and the URL must pass the policy. The robots rules of the
/// final host are checked by the caller.
pub fn screen_redirect(final_url: &str) -> (r: Result<UrlParts, RejectReason>)
    ensures
        match r {
            Ok(u) => redirect_verdict(final_url@) == Ok::<UrlView, RejectReason>(u@),
            Err(e) => redirect_verdict(final_url@) == Err::<UrlView, RejectReason>(e),
        },
{
    let u = match canonicalize(final_url) {
        Some(u) => u,
        None => return Err(RejectReason::RedirectBadUrl),
    };
    let allowed = match &u.host {
        None => return Err(RejectReason::RedirectNoHost),
        Some(h) => host_allowed(h.as_str()),
    };
    if !allowed {
        return Err(RejectReason::RedirectDisallowed);
    }
    if !url_allowed(&u) {
        return Err(RejectReason::RedirectFiltered);
    }
    Ok(u)
}

pub open spec fn html_content_type(ct: Seq<char>) -> bool {
    contains_sub(lower(ct), "text/html"@) || contains_sub(lower(ct), "application/xhtml+xml"@)
}

/// Whether a `Content-Type` value announces HTML (`text/html` or
/// `application/xhtml+xml`, in any case).
pub fn is_html_content_type(content_type: &str) -> (r: bool)
    ensures
        r == html_content_type(content_type@),
{
    let ct = lower_chars(to_chars(content_type).as_slice());
    contains_lit(ct.as_slice(), "text/html") || contains_lit(ct.as_slice(), "application/xhtml+xml")
}

pub open spec fn noindex_value(v: Seq<char>) -> bool {
    contains_sub(lower(v), "noindex"@) || contains_sub(lower(v), "none"@)
}

/// Whether one of the header values forbids indexing.
pub open spec fn any_noindex(values: Seq<Seq<char>>) -> bool {
    exists|k: int| 0 <= k < values.len() && noindex_value(#[trigger] values[k])
}

/// Whether one of the `X-Robots-Tag` header values forbids indexing (`noindex` or `none`,
/// in any case).
pub fn x_robots_has_noindex(values: &[String]) -> (r: bool)
    ensures
        r == any_noindex(views(values@)),
{
    let mut k: usize = 0;
    while k < values.len()
        invariant
            k <= values.len(),
            forall|j: int| 0 <= j < k ==> !noindex_value(#[trigger] views(values@)[j]),
        decreases values.len() - k,
    {
        let v = lower_chars(to_chars(values[k].as_str()).as_slice());
        if contains_lit(v.as_slice(), "noindex") || contains_lit(v.as_slice(), "none") {
            assert(noindex_value(views(values@)[k as int]));
            assert(any_noindex(views(values@)));
            return true;
        }
        k = k + 1;
    }
    false
}

// ---------------------------------------------------------------------------
// One fetch as a sequence of steps
// ---------------------------------------------------------------------------
/// The validators of the stored copy of a page.
pub struct Validators {
    /// Sent as `If-None-Match`.
    pub etag: Option<String>,
    /// Sent as `If-Modified-Since`.
    pub last_modified: Option<String>,
}

/// What a response said before its body is read.
pub struct ResponseHead {
    pub status: u16,
    /// The URL the response came from, after redirects.
    pub url: String,
    /// That URL's host.
    pub host: Option<String>,
    /// The `ETag` header.
    pub etag: Option<String>,
    /// The `Last-Modified` header.
    pub last_modified: Option<String>,
    /// The `X-Robots-Tag` header values.
    pub x_robots_tags: Vec<String>,
    /// The `Content-Type` header, empty when absent.
    pub content_type: String,
}

/// Where a fetch stands: what it waits for, and what it has learned so far.
pub enum FetchState {
    /// Waits for the DNS screening of the task's host.
    AwaitDns { task: UrlTask, url: UrlParts },
    /// Waits for the robots rules of the task's host.
    AwaitRules { task: UrlTask, url: UrlParts },
    /// Waits for the validators of the stored copy of the task's URL.
    AwaitStored { task: UrlTask, url: UrlParts, rules: Vec<String> },
    /// Waits for the response to a GET of `url`, sent with the stored validators.
    AwaitResponse { task: UrlTask, url: UrlParts, rules: Vec<String>, stored: Option<Validators> },
    /// Waits for the robots rules of the host a redirect led to.
    AwaitFinalRules { task: UrlTask, final_url: UrlParts, final_host: String, head: ResponseHead },
    /// Waits for the body of an HTML response.
    AwaitBody {
        task: UrlTask,
        final_url: UrlParts,
        final_host: String,
        x_robots_noindex: bool,
        etag: Option<String>,
        last_modified: Option<String>,
    },
    /// The fetch is over.
    Finished,
}

/// What the outside work brings back.
pub enum FetchEvent {
    /// Whether the task's host passed DNS screening.
    DnsChecked(bool),
    /// Robots rules (disallowed path prefixes), empty when none could be had.
    Rules(Vec<String>),
    /// The stored validators of the page, if a copy is stored.
    Stored(Option<Validators>),
    /// The request could not be sent or got no response.
    SendFailed,
    Response(ResponseHead),
    /// The body, or `None` when it could not be read.
    Body(Option<String>),
}

/// The outside work the fetch asks for next.
pub enum FetchAction {
    /// Screen the task's host (`DnsChecked`).
    CheckDns,
    /// Get the robots rules of the task's host (`Rules`).
    FetchRules,
    /// Load the validators of the stored copy of the task's URL (`Stored`).
    LoadStored,
    /// Send a GET of the state's `url`, with `If-None-Match` and `If-Modified-Since` from
    /// the stored validators where present (`Response` or `SendFailed`).
    Send,
    /// Get the robots rules of the state's `final_host` (`Rules`).
    FetchFinalRules,
    /// Read the response body (`Body`).
    ReadBody,
    /// The fetch is over, with this outcome.
    Finish(Result<FetchResult, RejectReason>),
}

/// Whether `event` answers what `state` waits for.
pub open spec fn event_fits(state: FetchState, event: FetchEvent) -> bool {
    match state {
        FetchState::AwaitDns { .. } => event is DnsChecked,
        FetchState::AwaitRules { .. } => event is Rules,
        FetchState::AwaitStored { .. } => event is Stored,
        FetchState::AwaitResponse { .. } => event is Response || event is SendFailed,
        FetchState::AwaitFinalRules { .. } => event is Rules,
        FetchState::AwaitBody { .. } => event is Body,
        FetchState::Finished => false,
    }
}

/// The fetch ends with `outcome`.
pub open spec fn ends_with_outcome(r: (FetchState, FetchAction), outcome: Result<FetchResult, RejectReason>) -> bool {
    r.0 is Finished && r.1 == FetchAction::Finish(outcome)
}

/// The checks once the rules of the final host are known: the final path must be allowed
/// by them and the content must be HTML; then the body is read.
pub open spec fn after_final_rules(
    task: UrlTask,
    final_url: UrlParts,
    final_host: String,
    head: ResponseHead,
    rules: Seq<Seq<char>>,
    r: (FetchState, FetchAction),
) -> bool {
    if !path_allowed(final_url@.path, rules) {
        ends_with_outcome(r, Err(RejectReason::RedirectRobotsBlocked))
    } else if !html_content_type(head.content_type@) {
        ends_with_outcome(r, Err(RejectReason::NotHtml))
    } else {
        r.1 is ReadBody && r.0 == FetchState::AwaitBody {
            task,
            final_url,
            final_host,
            x_robots_noindex: any_noindex(views(head.x_robots_tags@)),
            etag: head.etag,
            last_modified: head.last_modified,
        }
    }
}

/// How a response is answered: 304 ends the fetch with the stored copy still current (the
/// response's validators, else the stored ones); another non-2xx status rejects it; a 2xx
/// response must have ended at a URL that passes `redirect_verdict`, and its host's robots
/// rules are those already known when it is the task's host, else they are fetched.
pub open spec fn after_response(
    task: UrlTask,
    rules: Vec<String>,
    stored: Option<Validators>,
    head: ResponseHead,
    r: (FetchState, FetchAction),
) -> bool {
    match status_verdict(head.status) {
        StatusVerdict::NotModified => r.0 is Finished && match r.1 {
            FetchAction::Finish(Ok(res)) => {
                &&& res.task == task
                &&& res.final_url == head.url
                &&& res.final_host@ == (match head.host {
                    Some(h) => h@,
                    None => task.host@,
                })
                &&& res.html@.len() == 0
                &&& !res.x_robots_noindex
                &&& res.not_modified
                &&& res.etag == (match head.etag {
                    Some(e) => Some(e),
                    None => match stored {
                        Some(v) => v.etag,
                        None => None,
                    },
                })
                &&& res.last_modified == (match head.last_modified {
                    Some(l) => Some(l),
                    None => match stored {
                        Some(v) => v.last_modified,
                        None => None,
                    },
                })
            },
            _ => false,
        },
        StatusVerdict::Reject(e) => ends_with_outcome(r, Err(e)),
        StatusVerdict::Proceed => match redirect_verdict(head.url@) {
            Err(e) => ends_with_outcome(r, Err(e)),
            Ok(u) => {
                let host = u.host.unwrap();
                if host == task.host@ {
                    exists|fu: UrlParts, fh: String|
                        fu@ == u && fh@ == host && after_final_rules(task, fu, fh, head, views(rules@), r)
                } else {
                    r.1 is FetchFinalRules && match r.0 {
                        FetchState::AwaitFinalRules { task: t, final_url, final_host, head: h } => {
                            &&& t == task
                            &&& final_url@ == u
                            &&& final_host@ == host
                            &&& h == head
                        },
                        _ => false,
                    }
                }
            },
        },
    }
}

/// The next state and action of a fetch, given what the last outside work brought back.
pub open spec fn fetch_transition(state: FetchState, event: FetchEvent, r: (FetchState, FetchAction)) -> bool {
    match (state, event) {
        (FetchState::AwaitDns { task, url }, FetchEvent::DnsChecked(ok)) => if ok {
            r.1 is FetchRules && r.0 == FetchState::AwaitRules { task, url }
        } else {
            ends_with_outcome(r, Err(RejectReason::DnsFailed))
        },
        (FetchState::AwaitRules { task, url }, FetchEvent::Rules(rules)) => if path_allowed(
            url@.path,
            views(rules@),
        ) {
            r.1 is LoadStored && r.0 == FetchState::AwaitStored { task, url, rules }
        } else {
            ends_with_outcome(r, Err(RejectReason::RobotsBlocked))
        },
        (FetchState::AwaitStored { task, url, rules }, FetchEvent::Stored(stored)) => r.1 is Send && r.0
            == FetchState::AwaitResponse { task, url, rules, stored },
        (FetchState::AwaitResponse { .. }, FetchEvent::SendFailed) => ends_with_outcome(
            r,
            Err(RejectReason::Http5xx),
        ),
        (FetchState::AwaitResponse { task, url, rules, stored }, FetchEvent::Response(head)) => after_response(
            task,
            rules,
            stored,
            head,
            r,
        ),
        (
            FetchState::AwaitFinalRules { task, final_url, final_host, head },
            FetchEvent::Rules(rules),
        ) => after_final_rules(task, final_url, final_host, head, views(rules@), r),
        (
            FetchState::AwaitBody { task, final_url, final_host, x_robots_noindex, etag, last_modified },
            FetchEvent::Body(body),
        ) => match body {
            None => ends_with_outcome(r, Err(RejectReason::BodyReadErr)),
            Some(html) => ends_with_outcome(
                r,
                Ok(
                    FetchResult {
                        task,
                        final_url: final_url.serialization,
                        final_host,
                        html,
                        x_robots_noindex,
                        etag,
                        last_modified,
                        not_modified: false,
                    },
                ),
            ),
        },
        _ => false,
    }
}

/// Start fetching `task`: its URL must parse, and then its host is screened by DNS.
pub fn begin_fetch(task: UrlTask) -> (r: (FetchState, FetchAction))
    ensures
        match parsed_url(task.url@) {
            None => ends_with_outcome(r, Err(RejectReason::BadUrl)),
            Some(u) => r.1 is CheckDns && match r.0 {
                FetchState::AwaitDns { task: t, url } => t == task && url@ == u,
                _ => false,
            },
        },
{
    match parse_task_url(task.url.as_str()) {
        Err(e) => (FetchState::Finished, FetchAction::Finish(Err(e))),
        Ok(url) => (FetchState::AwaitDns { task, url }, FetchAction::CheckDns),
    }
}

fn check_final(
    task: UrlTask,
    final_url: UrlParts,
    final_host: String,
    head: ResponseHead,
    rules: &[String],
) -> (r: (FetchState, FetchAction))
    ensures
        after_final_rules(task, final_url, final_host, head, views(rules@), r),
{
    if !is_allowed(final_url.path.as_str(), rules) {
        return (FetchState::Finished, FetchAction::Finish(Err(RejectReason::RedirectRobotsBlocked)));
    }
    if !is_html_content_type(head.content_type.as_str()) {
        return (FetchState::Finished, FetchAction::Finish(Err(RejectReason::NotHtml)));
    }
    let x_robots_noindex = x_robots_has_noindex(head.x_robots_tags.as_slice());
    let ResponseHead { etag, last_modified, .. } = head;
    (
        FetchState::AwaitBody { task, final_url, final_host, x_robots_noindex, etag, last_modified },
        FetchAction::ReadBody,
    )
}

fn answer_response(task: UrlTask, rules: Vec<String>, stored: Option<Validators>, head: ResponseHead) -> (r: (
    FetchState,
    FetchAction,
))
    ensures
        after_response(task, rules, stored, head, r),
{
    match classify_status(head.status) {
        StatusVerdict::NotModified => {
            let final_host = match &head.host {
                Some(h) => h.clone(),
                None => task.host.clone(),
            };
            let ResponseHead { url, etag, last_modified, .. } = head;
            let (stored_etag, stored_last_modified) = match stored {
                Some(v) => (v.etag, v.last_modified),
                None => (None, None),
            };
            let etag = match etag {
                Some(e) => Some(e),
                None => stored_etag,
            };
            let last_modified = match last_modified {
                Some(l) => Some(l),
                None => stored_last_modified,
            };
            let res = FetchResult {
                task,
                final_url: url,
                final_host,
                html: String::new(),
                x_robots_noindex: false,
                etag,
                last_modified,
                not_modified: true,
            };
            (FetchState::Finished, FetchAction::Finish(Ok(res)))
        },
        StatusVerdict::Reject(e) => (FetchState::Finished, FetchAction::Finish(Err(e))),
        StatusVerdict::Proceed => {
            let final_url = match screen_redirect(head.url.as_str()) {
                Ok(u) => u,
                Err(e) => return (FetchState::Finished, FetchAction::Finish(Err(e))),
            };
            let final_host = match &final_url.host {
                Some(h) => h.clone(),
                None => return (FetchState::Finished, FetchAction::Finish(Err(RejectReason::RedirectNoHost))),
            };
            if str_eq(final_host.as_str(), task.host.as_str()) {
                let r = check_final(task, final_url, final_host, head, rules.as_slice());
                r
            } else {
                (FetchState::AwaitFinalRules { task, final_url, final_host, head }, FetchAction::FetchFinalRules)
            }
        },
    }
}

/// Take one step of a fetch: from what the last outside work brought back, decide the
/// next state and the next outside work, or the outcome (see `fetch_transition`).
pub fn fetch_step(state: FetchState, event: FetchEvent) -> (r: (FetchState, FetchAction))
    requires
        event_fits(state, event),
    ensures
        fetch_transition(state, event, r),
{
    match state {
        FetchState::AwaitDns { task, url } => match event {
            FetchEvent::DnsChecked(ok) => if ok {
                (FetchState::AwaitRules { task, url }, FetchAction::FetchRules)
            } else {
                (FetchState::Finished, FetchAction::Finish(Err(RejectReason::DnsFailed)))
            },
            _ => (FetchState::Finished, FetchAction::Finish(Err(RejectReason::DnsFailed))),
        },
        FetchState::AwaitRules { task, url } => match event {
            FetchEvent::Rules(rules) => if is_allowed(url.path.as_str(), rules.as_slice()) {
                (FetchState::AwaitStored { task, url, rules }, FetchAction::LoadStored)
            } else {
                (FetchState::Finished, FetchAction::Finish(Err(RejectReason::RobotsBlocked)))
            },
            _ => (FetchState::Finished, FetchAction::Finish(Err(RejectReason::RobotsBlocked))),
        },
        FetchState::AwaitStored { task, url, rules } => match event {
            FetchEvent::Stored(stored) => (FetchState::AwaitResponse { task, url, rules, stored }, FetchAction::Send),
            _ => (FetchState::Finished, FetchAction::Finish(Err(RejectReason::Http5xx))),
        },
        FetchState::AwaitResponse { task, url, rules, stored } => match event {
            FetchEvent::Response(head) => answer_response(task, rules, stored, head),
            _ => (FetchState::Finished, FetchAction::Finish(Err(RejectReason::Http5xx))),
        },
        FetchState::AwaitFinalRules { task, final_url, final_host, head } => match event {
            FetchEvent::Rules(rules) => check_final(task, final_url, final_host, head, rules.as_slice()),
            _ => (FetchState::Finished, FetchAction::Finish(Err(RejectReason::RedirectRobotsBlocked))),
        },
        FetchState::AwaitBody { task, final_url, final_host, x_robots_noindex, etag, last_modified } => match event {
            FetchEvent::Body(body) => match body {
                None => (FetchState::Finished, FetchAction::Finish(Err(RejectReason::BodyReadErr))),
                Some(html) => (
                    FetchState::Finished,
                    FetchAction::Finish(
                        Ok(
                            FetchResult {
                                task,
                                final_url: final_url.serialization,
                                final_host,
                                html,
                                x_robots_noindex,
                                etag,
                                last_modified,
                                not_modified: false,
                            },
                        ),
                    ),
                ),
            },
            _ => (FetchState::Finished, FetchAction::Finish(Err(RejectReason::BodyReadErr))),
        },
        FetchState::Finished => (FetchState::Finished, FetchAction::Finish(Err(RejectReason::BadUrl))),
    }
}

} // verus!
