//! Crawl tasks, fetch results and the reasons a URL is rejected.
use std::cmp::Ordering;
use vstd::prelude::*;

verus! {

/// Why a URL was not stored.
#[derive(Debug, Clone, Copy, PartialEq, Eq, Structural)]
pub enum RejectReason {
    BadUrl,
    ScopeFiltered,
    RobotsBlocked,
    RedirectFiltered,
    RedirectRobotsBlocked,
    DnsFailed,
    Timeout,
    Http4xx,
    Http5xx,
    NotHtml,
    NoIndex,
    LowText,
    Duplicate,
    AlreadyStored,
    ParsePanic,
    BodyReadErr,
    RedirectBadUrl,
    RedirectNoHost,
    RedirectDisallowed,
}

/// The label under which a reason is counted and logged.
pub open spec fn reason_label(r: RejectReason) -> Seq<char> {
    match r {
        RejectReason::BadUrl => "bad_url"@,
        RejectReason::ScopeFiltered => "scope_filtered"@,
        RejectReason::RobotsBlocked => "robots_blocked"@,
        RejectReason::RedirectFiltered => "redirect_filtered"@,
        RejectReason::RedirectRobotsBlocked => "redirect_robots_blocked"@,
        RejectReason::DnsFailed => "dns_fail"@,
        RejectReason::Timeout => "timeout"@,
        RejectReason::Http4xx => "http_4xx"@,
        RejectReason::Http5xx => "http_5xx"@,
        RejectReason::NotHtml => "not_html"@,
        RejectReason::NoIndex => "noindex"@,
        RejectReason::LowText => "low_text"@,
        RejectReason::Duplicate => "duplicate"@,
        RejectReason::AlreadyStored => "already_stored"@,
        RejectReason::ParsePanic => "parse_panic"@,
        RejectReason::BodyReadErr => "body_read_err"@,
        RejectReason::RedirectBadUrl => "redirect_bad_url"@,
        RejectReason::RedirectNoHost => "redirect_no_host"@,
        RejectReason::RedirectDisallowed => "redirect_disallowed"@,
    }
}

/// Each reason is counted under its own label: different reasons never share one.
pub proof fn law_reason_labels_distinct(a: RejectReason, b: RejectReason)
    requires
        a != b,
    ensures
        reason_label(a) != reason_label(b),
{
    reveal_strlit("bad_url");
    reveal_strlit("scope_filtered");
    reveal_strlit("robots_blocked");
    reveal_strlit("redirect_filtered");
    reveal_strlit("redirect_robots_blocked");
    reveal_strlit("dns_fail");
    reveal_strlit("timeout");
    reveal_strlit("http_4xx");
    reveal_strlit("http_5xx");
    reveal_strlit("not_html");
    reveal_strlit("noindex");
    reveal_strlit("low_text");
    reveal_strlit("duplicate");
    reveal_strlit("already_stored");
    reveal_strlit("parse_panic");
    reveal_strlit("body_read_err");
    reveal_strlit("redirect_bad_url");
    reveal_strlit("redirect_no_host");
    reveal_strlit("redirect_disallowed");
    if reason_label(a) == reason_label(b) {
        let la = reason_label(a);
        let lb = reason_label(b);
        assert(la.len() == lb.len());
        assert(la[5] == lb[5]);
        if la.len() > 9 {
            assert(la[9] == lb[9]);
        }
    }
}

impl RejectReason {
    pub fn as_str(&self) -> (s: &'static str)
        ensures
            s@ == reason_label(*self),
    {
        match self {
            Self::BadUrl => "bad_url",
            Self::ScopeFiltered => "scope_filtered",
            Self::RobotsBlocked => "robots_blocked",
            Self::RedirectFiltered => "redirect_filtered",
            Self::RedirectRobotsBlocked => "redirect_robots_blocked",
            Self::DnsFailed => "dns_fail",
            Self::Timeout => "timeout",
            Self::Http4xx => "http_4xx",
            Self::Http5xx => "http_5xx",
            Self::NotHtml => "not_html",
            Self::NoIndex => "noindex",
            Self::LowText => "low_text",
            Self::Duplicate => "duplicate",
            Self::AlreadyStored => "already_stored",
            Self::ParsePanic => "parse_panic",
            Self::BodyReadErr => "body_read_err",
            Self::RedirectBadUrl => "redirect_bad_url",
            Self::RedirectNoHost => "redirect_no_host",
            Self::RedirectDisallowed => "redirect_disallowed",
        }
    }
}

/// A URL waiting to be crawled.
#[derive(Debug, Clone, PartialEq, Eq)]
pub struct UrlTask {
    pub url: String,
    pub host: String,
    pub depth: u16,
    pub priority: i32,
}

/// The mathematical value of a `UrlTask`.
pub struct TaskView {
    pub url: Seq<char>,
    pub host: Seq<char>,
    pub depth: u16,
    pub priority: i32,
}

impl View for UrlTask {
    type V = TaskView;

    open spec fn view(&self) -> TaskView {
        TaskView { url: self.url@, host: self.host@, depth: self.depth, priority: self.priority }
    }
}

/// `a` is crawled before `b`: higher priority first, then the shallower one.
pub open spec fn runs_before(a: TaskView, b: TaskView) -> bool {
    a.priority > b.priority || (a.priority == b.priority && a.depth < b.depth)
}

impl UrlTask {
    /// The order of the crawl queue: a greater task is crawled first (higher priority, then
    /// shallower depth).
    pub fn cmp_priority(&self, other: &Self) -> (o: Ordering)
        ensures
            (o == Ordering::Greater) == runs_before(self@, other@),
            (o == Ordering::Less) == runs_before(other@, self@),
            (o == Ordering::Equal) == (self.priority == other.priority && self.depth == other.depth),
    {
        if self.priority > other.priority {
            Ordering::Greater
        } else if self.priority < other.priority {
            Ordering::Less
        } else if self.depth < other.depth {
            Ordering::Greater
        } else if self.depth > other.depth {
            Ordering::Less
        } else {
            Ordering::Equal
        }
    }

    /// A copy of the task with the same fields.
    pub fn duplicate(&self) -> (t: UrlTask)
        ensures
            t@ == self@,
    {
        UrlTask { url: self.url.clone(), host: self.host.clone(), depth: self.depth, priority: self.priority }
    }
}

/// A fetched page, ready for parsing, or the answer that the stored copy is still current.
pub struct FetchResult {
    pub task: UrlTask,
    pub final_url: String,
    pub final_host: String,
    pub html: String,
    pub x_robots_noindex: bool,
    /// The `ETag` validator to store with the page.
    pub etag: Option<String>,
    /// The `Last-Modified` validator to store with the page.
    pub last_modified: Option<String>,
    /// The server answered 304: the stored copy is current and `html` is empty.
    pub not_modified: bool,
}

} // verus!
