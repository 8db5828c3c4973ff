//! Crawl scope policy: which hosts and paths are crawled, how much of each host, and how
//! discovered URLs are prioritised.
use crate::crawler::urlparts::{UrlParts, UrlView};
use crate::text::{
    contains_any, contains_char, contains_lit, contains_sub, ends_lit, ends_with, ends_with_any,
    eq_any, eq_lit, is_digit, lower, lower_chars, seq_eq, starts_lit, starts_with, starts_with_any,
    strip_prefix, strip_prefix_chars, to_chars,
};
use vstd::prelude::*;

verus! {

/// At most this many links are taken from one page.
pub const MAX_DISCOVERED_PER_PAGE: usize = 200;

/// At most this many chunks are stored for one page.
pub const MAX_CHUNKS_PER_PAGE: usize = 220;

// ---------------------------------------------------------------------------
// Host rules
// ---------------------------------------------------------------------------
/// `host` falls under `rule`: equal to it or a subdomain of it, ignoring a leading `www.`
/// on either.
pub open spec fn rule_matches(host: Seq<char>, rule: Seq<char>) -> bool {
    let h = strip_prefix(host, "www."@);
    let r = strip_prefix(rule, "www."@);
    h == r || ends_with(h, seq!['.'] + r)
}

pub fn host_matches_rule_chars(host: &[char], rule: &[char]) -> (r: bool)
    ensures
        r == rule_matches(host@, rule@),
{
    let www = to_chars("www.");
    let h = strip_prefix_chars(host, www.as_slice());
    let r = strip_prefix_chars(rule, www.as_slice());
    if seq_eq(h.as_slice(), r.as_slice()) {
        return true;
    }
    let mut dotted: Vec<char> = Vec::new();
    dotted.push('.');
    let mut i: usize = 0;
    while i < r.len()
        invariant
            i <= r.len(),
            dotted@ == seq!['.'] + r@.take(i as int),
        decreases r.len() - i,
    {
        dotted.push(r[i]);
        i = i + 1;
        assert(dotted@ =~= seq!['.'] + r@.take(i as int));
    }
    assert(r@.take(r@.len() as int) =~= r@);
    crate::text::has_suffix(h.as_slice(), dotted.as_slice())
}

pub fn host_matches_rule(host: &str, rule: &str) -> (r: bool)
    ensures
        r == rule_matches(host@, rule@),
{
    let h = to_chars(host);
    let ru = to_chars(rule);
    host_matches_rule_chars(h.as_slice(), ru.as_slice())
}

/// Whether `host` falls under one of the rules in `list`.
fn matches_any_rule(host: &[char], list: &Vec<&'static str>) -> (r: bool)
    ensures
        r == exists|k: int| 0 <= k < list@.len() && rule_matches(host@, (#[trigger] list@[k])@),
{
    let mut k: usize = 0;
    while k < list.len()
        invariant
            k <= list.len(),
            forall|j: int| 0 <= j < k ==> !rule_matches(host@, (#[trigger] list@[j])@),
        decreases list.len() - k,
    {
        if matches_lit(host, list[k]) {
            return true;
        }
        k = k + 1;
    }
    false
}

fn matches_lit(host: &[char], rule: &str) -> (r: bool)
    ensures
        r == rule_matches(host@, rule@),
{
    let ru = to_chars(rule);
    host_matches_rule_chars(host, ru.as_slice())
}

/// The crawl delay for `host`: Wikipedia gets at least 1200 ms.
pub open spec fn rate_limit_for(default_ms: u64, host: Seq<char>) -> u64 {
    if rule_matches(host, "wikipedia.org"@) && default_ms < 1200 {
        1200
    } else {
        default_ms
    }
}

pub fn domain_rate_limit_ms(default_ms: u64, host: &str) -> (r: u64)
    ensures
        r == rate_limit_for(default_ms, host@),
{
    if host_matches_rule(host, "wikipedia.org") {
        if default_ms < 1200 {
            1200
        } else {
            default_ms
        }
    } else {
        default_ms
    }
}

/// Whether the (lower-case) Wikipedia title names a computing topic.
pub open spec fn topic_allowed(title: Seq<char>) -> bool {
    exists|k: int| 0 <= k < wiki_markers().len() && contains_sub(title, (#[trigger] wiki_markers()[k])@)
}

pub fn wiki_topic_allowed(title: &str) -> (r: bool)
    ensures
        r == topic_allowed(title@),
{
    let t = to_chars(title);
    contains_any(t.as_slice(), &wiki_markers_list())
}

fn wiki_topic_allowed_chars(t: &[char]) -> (r: bool)
    ensures
        r == topic_allowed(t@),
{
    contains_any(t, &wiki_markers_list())
}

/// How many links one page of `host` may contribute.
pub open spec fn discovery_limit(host: Seq<char>) -> usize {
    if rule_matches(host, "wikipedia.org"@) {
        60
    } else {
        MAX_DISCOVERED_PER_PAGE
    }
}

pub fn discovery_limit_for_host(host: &str) -> (r: usize)
    ensures
        r == discovery_limit(host@),
{
    if host_matches_rule(host, "wikipedia.org") {
        60
    } else {
        MAX_DISCOVERED_PER_PAGE
    }
}

/// How many chunks one page of `host` may produce.
pub open spec fn chunk_limit(host: Seq<char>) -> usize {
    if rule_matches(host, "wikipedia.org"@) {
        120
    } else if rule_matches(host, "docs.rs"@) {
        120
    } else if rule_matches(host, "llvm.org"@) {
        140
    } else {
        MAX_CHUNKS_PER_PAGE
    }
}

pub fn chunk_limit_for_host(host: &str) -> (r: usize)
    ensures
        r == chunk_limit(host@),
{
    if host_matches_rule(host, "wikipedia.org") {
        120
    } else if host_matches_rule(host, "docs.rs") {
        120
    } else if host_matches_rule(host, "llvm.org") {
        140
    } else {
        MAX_CHUNKS_PER_PAGE
    }
}

/// The cap of the first rule in `rules[i..]` that `host` falls under.
pub open spec fn first_rule_cap(host: Seq<char>, rules: Seq<(&'static str, usize)>, i: int) -> Option<usize>
    decreases rules.len() - i,
{
    if i < 0 || i >= rules.len() {
        None
    } else if rule_matches(host, rules[i].0@) {
        Some(rules[i].1)
    } else {
        first_rule_cap(host, rules, i + 1)
    }
}

/// The cap of the first entry in `table[i..]` whose host is exactly `host`.
pub open spec fn exact_cap(host: Seq<char>, table: Seq<(&'static str, usize)>, i: int) -> Option<usize>
    decreases table.len() - i,
{
    if i < 0 || i >= table.len() {
        None
    } else if table[i].0@ == host {
        Some(table[i].1)
    } else {
        exact_cap(host, table, i + 1)
    }
}

/// The cap a host gets from the registrable-domain rules, if one applies.
pub open spec fn normalized_cap(host: Seq<char>) -> Option<usize> {
    first_rule_cap(host, domain_cap_rules(), 0)
}

fn normalized_domain_cap(host: &[char]) -> (r: Option<usize>)
    ensures
        r == normalized_cap(host@),
{
    let rules = domain_cap_rules_list();
    let mut k: usize = 0;
    while k < rules.len()
        invariant
            k <= rules.len(),
            rules@ == domain_cap_rules(),
            first_rule_cap(host@, rules@, 0) == first_rule_cap(host@, rules@, k as int),
        decreases rules.len() - k,
    {
        let (rule, cap) = rules[k];
        if matches_lit(host, rule) {
            return Some(cap);
        }
        k = k + 1;
    }
    None
}

/// How many pages of `host` the crawl stores: the host's own entry, else the rule for
/// its domain, else 2000.
pub open spec fn cap_for(host: Seq<char>) -> usize {
    match exact_cap(host, domain_caps(), 0) {
        Some(c) => c,
        None => match normalized_cap(host) {
            Some(c) => c,
            None => 2000,
        },
    }
}

pub fn domain_cap(host: &str) -> (r: usize)
    ensures
        r == cap_for(host@),
{
    let h = to_chars(host);
    let table = domain_caps_list();
    let mut k: usize = 0;
    while k < table.len()
        invariant
            k <= table.len(),
            table@ == domain_caps(),
            h@ == host@,
            exact_cap(host@, table@, 0) == exact_cap(host@, table@, k as int),
        decreases table.len() - k,
    {
        let (key, cap) = table[k];
        if eq_lit(h.as_slice(), key) {
            return cap;
        }
        k = k + 1;
    }
    match normalized_domain_cap(h.as_slice()) {
        Some(c) => c,
        None => 2000,
    }
}

/// The host is on the crawl allowlist (or under an allowed domain).
pub open spec fn allowed_host(host: Seq<char>) -> bool {
    exists|k: int| 0 <= k < allowed_hosts().len() && rule_matches(host, (#[trigger] allowed_hosts()[k])@)
}

fn host_allowed_chars(h: &[char]) -> (r: bool)
    ensures
        r == allowed_host(h@),
{
    let allow = allowed_hosts_list();
    let mut k: usize = 0;
    while k < allow.len()
        invariant
            k <= allow.len(),
            allow@ == allowed_hosts(),
            forall|j: int| 0 <= j < k ==> !rule_matches(h@, (#[trigger] allow@[j])@),
        decreases allow.len() - k,
    {
        if matches_lit(h, allow[k]) {
            return true;
        }
        k = k + 1;
    }
    false
}

pub fn host_allowed(host: &str) -> (r: bool)
    ensures
        r == allowed_host(host@),
{
    let h = to_chars(host);
    host_allowed_chars(h.as_slice())
}

/// The path names a binary download (archive, image, font, media, PDF).
pub open spec fn binary_path(path: Seq<char>) -> bool {
    exists|k: int| 0 <= k < binary_extensions().len() && ends_with(lower(path), (#[trigger] binary_extensions()[k])@)
}

fn path_looks_binary_chars(path: &[char]) -> (r: bool)
    ensures
        r == binary_path(path@),
{
    let p = lower_chars(path);
    ends_with_any(p.as_slice(), &binary_extensions_list())
}

pub fn path_looks_binary(path: &str) -> (r: bool)
    ensures
        r == binary_path(path@),
{
    let p = to_chars(path);
    path_looks_binary_chars(p.as_slice())
}

/// Per-host page caps, matched exactly.
pub open spec fn domain_caps() -> Seq<(&'static str, usize)> {
    domain_caps_0() + domain_caps_1() + domain_caps_2() + domain_caps_3() + domain_caps_4() + domain_caps_5() + domain_caps_6() + domain_caps_7()
}

pub open spec fn domain_caps_0() -> Seq<(&'static str, usize)> {
    seq![("cppreference.com", 25000usize), ("en.cppreference.com", 25000usize), ("ch.cppreference.com", 25000usize), ("developer.mozilla.org", 30000usize), ("docs.python.org", 25000usize), ("doc.rust-lang.org", 25000usize), ("en.wikipedia.org", 12000usize), ("docs.rs", 30000usize), ("go.dev", 20000usize), ("kubernetes.io", 20000usize), ("learn.microsoft.com", 25000usize), ("docs.oracle.com", 20000usize), ("hexdocs.pm", 20000usize), ("www.postgresql.org", 20000usize), ("www.kernel.org", 20000usize), ("llvm.org", 15000usize), ("docs.docker.com", 15000usize), ("docs.ansible.com", 15000usize), ("www.terraform.io", 15000usize), ("kafka.apache.org", 10000usize)]
}

fn push_domain_caps_0(v: &mut Vec<(&'static str, usize)>)
    ensures
        final(v)@ == old(v)@ + domain_caps_0(),
{
    let ghost v0 = v@;
    v.push(("cppreference.com", 25000));
    v.push(("en.cppreference.com", 25000));
    v.push(("ch.cppreference.com", 25000));
    v.push(("developer.mozilla.org", 30000));
    v.push(("docs.python.org", 25000));
    v.push(("doc.rust-lang.org", 25000));
    v.push(("en.wikipedia.org", 12000));
    v.push(("docs.rs", 30000));
    v.push(("go.dev", 20000));
    v.push(("kubernetes.io", 20000));
    v.push(("learn.microsoft.com", 25000));
    v.push(("docs.oracle.com", 20000));
    v.push(("hexdocs.pm", 20000));
    v.push(("www.postgresql.org", 20000));
    v.push(("www.kernel.org", 20000));
    v.push(("llvm.org", 15000));
    v.push(("docs.docker.com", 15000));
    v.push(("docs.ansible.com", 15000));
    v.push(("www.terraform.io", 15000));
    v.push(("kafka.apache.org", 10000));
    assert(v@ =~= v0 + domain_caps_0());
}

pub open spec fn domain_caps_1() -> Seq<(&'static str, usize)> {
    seq![("redis.io", 10000usize), ("sqlite.org", 10000usize), ("prometheus.io", 10000usize), ("opentelemetry.io", 10000usize), ("nodejs.org", 15000usize), ("docs.julialang.org", 10000usize), ("docs.swift.org", 10000usize), ("kotlinlang.org", 10000usize), ("docs.scala-lang.org", 10000usize), ("wiki.haskell.org", 10000usize), ("www.haskell.org", 5000usize), ("ziglang.org", 8000usize), ("clojure.org", 5000usize), ("elixir-lang.org", 5000usize), ("stackoverflow.com", 20000usize), ("blog.cloudflare.com", 10000usize), ("jvns.ca", 5000usize), ("martinfowler.com", 8000usize), ("blog.acolyer.org", 8000usize), ("eng.uber.com", 8000usize)]
}

fn push_domain_caps_1(v: &mut Vec<(&'static str, usize)>)
    ensures
        final(v)@ == old(v)@ + domain_caps_1(),
{
    let ghost v0 = v@;
    v.push(("redis.io", 10000));
    v.push(("sqlite.org", 10000));
    v.push(("prometheus.io", 10000));
    v.push(("opentelemetry.io", 10000));
    v.push(("nodejs.org", 15000));
    v.push(("docs.julialang.org", 10000));
    v.push(("docs.swift.org", 10000));
    v.push(("kotlinlang.org", 10000));
    v.push(("docs.scala-lang.org", 10000));
    v.push(("wiki.haskell.org", 10000));
    v.push(("www.haskell.org", 5000));
    v.push(("ziglang.org", 8000));
    v.push(("clojure.org", 5000));
    v.push(("elixir-lang.org", 5000));
    v.push(("stackoverflow.com", 20000));
    v.push(("blog.cloudflare.com", 10000));
    v.push(("jvns.ca", 5000));
    v.push(("martinfowler.com", 8000));
    v.push(("blog.acolyer.org", 8000));
    v.push(("eng.uber.com", 8000));
    assert(v@ =~= v0 + domain_caps_1());
}

pub open spec fn domain_caps_2() -> Seq<(&'static str, usize)> {
    seq![("netflixtechblog.com", 8000usize), ("research.google", 8000usize), ("blog.rust-lang.org", 5000usize), ("stackoverflow.blog", 5000usize), ("simonwillison.net", 5000usize), ("danluu.com", 5000usize), ("rachelbythebay.com", 5000usize), ("engineering.fb.com", 8000usize), ("developers.googleblog.com", 8000usize), ("aws.amazon.com", 8000usize), ("explore.alas.aws.amazon.com", 500usize), ("engineering.linkedin.com", 8000usize), ("slack.engineering", 5000usize), ("dropbox.tech", 5000usize), ("shopify.engineering", 5000usize), ("grafana.com", 8000usize), ("www.elastic.co", 8000usize), ("arxiv.org", 25000usize), ("paperswithcode.com", 10000usize), ("distill.pub", 3000usize)]
}

fn push_domain_caps_2(v: &mut Vec<(&'static str, usize)>)
    ensures
        final(v)@ == old(v)@ + domain_caps_2(),
{
    let ghost v0 = v@;
    v.push(("netflixtechblog.com", 8000));
    v.push(("research.google", 8000));
    v.push(("blog.rust-lang.org", 5000));
    v.push(("stackoverflow.blog", 5000));
    v.push(("simonwillison.net", 5000));
    v.push(("danluu.com", 5000));
    v.push(("rachelbythebay.com", 5000));
    v.push(("engineering.fb.com", 8000));
    v.push(("developers.googleblog.com", 8000));
    v.push(("aws.amazon.com", 8000));
    v.push(("explore.alas.aws.amazon.com", 500));
    v.push(("engineering.linkedin.com", 8000));
    v.push(("slack.engineering", 5000));
    v.push(("dropbox.tech", 5000));
    v.push(("shopify.engineering", 5000));
    v.push(("grafana.com", 8000));
    v.push(("www.elastic.co", 8000));
    v.push(("arxiv.org", 25000));
    v.push(("paperswithcode.com", 10000));
    v.push(("distill.pub", 3000));
    assert(v@ =~= v0 + domain_caps_2());
}

pub open spec fn domain_caps_3() -> Seq<(&'static str, usize)> {
    seq![("cacm.acm.org", 8000usize), ("people.csail.mit.edu", 8000usize), ("cs.stanford.edu", 10000usize), ("ocw.mit.edu", 15000usize), ("lwn.net", 15000usize), ("ask.ubuntu.com", 5000usize), ("unix.stackexchange.com", 5000usize), ("cstheory.stackexchange.com", 8000usize), ("sre.google", 10000usize), ("www.oreilly.com", 8000usize), ("owasp.org", 10000usize), ("cheatsheetseries.owasp.org", 8000usize), ("portswigger.net", 10000usize), ("www.schneier.com", 5000usize), ("systemdesign.one", 5000usize), ("microservices.io", 3000usize), ("12factor.net", 1000usize), ("highscalability.com", 5000usize), ("news.ycombinator.com", 2000usize), ("dev.to", 3000usize)]
}

fn push_domain_caps_3(v: &mut Vec<(&'static str, usize)>)
    ensures
        final(v)@ == old(v)@ + domain_caps_3(),
{
    let ghost v0 = v@;
    v.push(("cacm.acm.org", 8000));
    v.push(("people.csail.mit.edu", 8000));
    v.push(("cs.stanford.edu", 10000));
    v.push(("ocw.mit.edu", 15000));
    v.push(("lwn.net", 15000));
    v.push(("ask.ubuntu.com", 5000));
    v.push(("unix.stackexchange.com", 5000));
    v.push(("cstheory.stackexchange.com", 8000));
    v.push(("sre.google", 10000));
    v.push(("www.oreilly.com", 8000));
    v.push(("owasp.org", 10000));
    v.push(("cheatsheetseries.owasp.org", 8000));
    v.push(("portswigger.net", 10000));
    v.push(("www.schneier.com", 5000));
    v.push(("systemdesign.one", 5000));
    v.push(("microservices.io", 3000));
    v.push(("12factor.net", 1000));
    v.push(("highscalability.com", 5000));
    v.push(("news.ycombinator.com", 2000));
    v.push(("dev.to", 3000));
    assert(v@ =~= v0 + domain_caps_3());
}

pub open spec fn domain_caps_4() -> Seq<(&'static str, usize)> {
    seq![("medium.com", 3000usize), ("www.infoq.com", 5000usize), ("thenewstack.io", 3000usize), ("techcrunch.com", 1000usize), ("www.joelonsoftware.com", 3000usize), ("www.databricks.com", 1000usize), ("community.databricks.com", 500usize), ("without.boats", 3000usize), ("matklad.github.io", 3000usize), ("cp-algorithms.com", 5000usize), ("norvig.com", 2000usize), ("www.brendangregg.com", 5000usize), ("pages.cs.wisc.edu", 2000usize), ("pdos.csail.mit.edu", 2000usize), ("os.phil-opp.com", 1000usize), ("www.linuxfromscratch.org", 2000usize), ("www.agner.org", 500usize), ("uops.info", 500usize), ("sandpile.org", 1000usize), ("book.rvemu.app", 500usize)]
}

fn push_domain_caps_4(v: &mut Vec<(&'static str, usize)>)
    ensures
        final(v)@ == old(v)@ + domain_caps_4(),
{
    let ghost v0 = v@;
    v.push(("medium.com", 3000));
    v.push(("www.infoq.com", 5000));
    v.push(("thenewstack.io", 3000));
    v.push(("techcrunch.com", 1000));
    v.push(("www.joelonsoftware.com", 3000));
    v.push(("www.databricks.com", 1000));
    v.push(("community.databricks.com", 500));
    v.push(("without.boats", 3000));
    v.push(("matklad.github.io", 3000));
    v.push(("cp-algorithms.com", 5000));
    v.push(("norvig.com", 2000));
    v.push(("www.brendangregg.com", 5000));
    v.push(("pages.cs.wisc.edu", 2000));
    v.push(("pdos.csail.mit.edu", 2000));
    v.push(("os.phil-opp.com", 1000));
    v.push(("www.linuxfromscratch.org", 2000));
    v.push(("www.agner.org", 500));
    v.push(("uops.info", 500));
    v.push(("sandpile.org", 1000));
    v.push(("book.rvemu.app", 500));
    assert(v@ =~= v0 + domain_caps_4());
}

pub open spec fn domain_caps_5() -> Seq<(&'static str, usize)> {
    seq![("circt.llvm.org", 1000usize), ("clang.llvm.org", 8000usize), ("gcc.gnu.org", 8000usize), ("craftinginterpreters.com", 1000usize), ("eli.thegreenplace.net", 5000usize), ("www.cs.cornell.edu", 5000usize), ("swtch.com", 500usize), ("softwarefoundations.cis.upenn.edu", 5000usize), ("homotopytypetheory.org", 2000usize), ("xavierleroy.org", 1000usize), ("faultlore.com", 1000usize), ("www.scattered-thoughts.net", 1000usize), ("www.interdb.jp", 500usize), ("15445.courses.cs.cmu.edu", 1000usize), ("15721.courses.cs.cmu.edu", 1000usize), ("www.cockroachlabs.com", 5000usize), ("jepsen.io", 2000usize), ("martin.kleppmann.com", 2000usize), ("muratbuffalo.blogspot.com", 5000usize), ("fly.io", 3000usize)]
}

fn push_domain_caps_5(v: &mut Vec<(&'static str, usize)>)
    ensures
        final(v)@ == old(v)@ + domain_caps_5(),
{
    let ghost v0 = v@;
    v.push(("circt.llvm.org", 1000));
    v.push(("clang.llvm.org", 8000));
    v.push(("gcc.gnu.org", 8000));
    v.push(("craftinginterpreters.com", 1000));
    v.push(("eli.thegreenplace.net", 5000));
    v.push(("www.cs.cornell.edu", 5000));
    v.push(("swtch.com", 500));
    v.push(("softwarefoundations.cis.upenn.edu", 5000));
    v.push(("homotopytypetheory.org", 2000));
    v.push(("xavierleroy.org", 1000));
    v.push(("faultlore.com", 1000));
    v.push(("www.scattered-thoughts.net", 1000));
    v.push(("www.interdb.jp", 500));
    v.push(("15445.courses.cs.cmu.edu", 1000));
    v.push(("15721.courses.cs.cmu.edu", 1000));
    v.push(("www.cockroachlabs.com", 5000));
    v.push(("jepsen.io", 2000));
    v.push(("martin.kleppmann.com", 2000));
    v.push(("muratbuffalo.blogspot.com", 5000));
    v.push(("fly.io", 3000));
    assert(v@ =~= v0 + domain_caps_5());
}

pub open spec fn domain_caps_6() -> Seq<(&'static str, usize)> {
    seq![("explained.ai", 500usize), ("cs231n.github.io", 500usize), ("nlp.stanford.edu", 3000usize), ("learnopengl.com", 2000usize), ("vulkan-tutorial.com", 1000usize), ("raytracing.github.io", 500usize), ("beej.us", 2000usize), ("hacks.mozilla.org", 3000usize), ("webassembly.org", 1000usize), ("cryptopals.com", 500usize), ("blog.cryptographyengineering.com", 2000usize), ("www.usenix.org", 10000usize), ("isocpp.org", 5000usize), ("abseil.io", 2000usize), ("paulgraham.com", 2000usize), ("thume.ca", 1000usize), ("lamport.azurewebsites.net", 1000usize), ("coq.inria.fr", 2000usize), ("www.cl.cam.ac.uk", 2000usize), ("interrupt.memfault.com", 5000usize)]
}

fn push_domain_caps_6(v: &mut Vec<(&'static str, usize)>)
    ensures
        final(v)@ == old(v)@ + domain_caps_6(),
{
    let ghost v0 = v@;
    v.push(("explained.ai", 500));
    v.push(("cs231n.github.io", 500));
    v.push(("nlp.stanford.edu", 3000));
    v.push(("learnopengl.com", 2000));
    v.push(("vulkan-tutorial.com", 1000));
    v.push(("raytracing.github.io", 500));
    v.push(("beej.us", 2000));
    v.push(("hacks.mozilla.org", 3000));
    v.push(("webassembly.org", 1000));
    v.push(("cryptopals.com", 500));
    v.push(("blog.cryptographyengineering.com", 2000));
    v.push(("www.usenix.org", 10000));
    v.push(("isocpp.org", 5000));
    v.push(("abseil.io", 2000));
    v.push(("paulgraham.com", 2000));
    v.push(("thume.ca", 1000));
    v.push(("lamport.azurewebsites.net", 1000));
    v.push(("coq.inria.fr", 2000));
    v.push(("www.cl.cam.ac.uk", 2000));
    v.push(("interrupt.memfault.com", 5000));
    assert(v@ =~= v0 + domain_caps_6());
}

pub open spec fn domain_caps_7() -> Seq<(&'static str, usize)> {
    seq![("quantum.country", 200usize), ("learn.qiskit.org", 2000usize), ("missing.csail.mit.edu", 500usize), ("staffeng.com", 1000usize), ("www.nand2tetris.org", 1000usize)]
}

fn push_domain_caps_7(v: &mut Vec<(&'static str, usize)>)
    ensures
        final(v)@ == old(v)@ + domain_caps_7(),
{
    let ghost v0 = v@;
    v.push(("quantum.country", 200));
    v.push(("learn.qiskit.org", 2000));
    v.push(("missing.csail.mit.edu", 500));
    v.push(("staffeng.com", 1000));
    v.push(("www.nand2tetris.org", 1000));
    assert(v@ =~= v0 + domain_caps_7());
}

fn domain_caps_list() -> (v: Vec<(&'static str, usize)>)
    ensures
        v@ == domain_caps(),
{
    let mut v: Vec<(&'static str, usize)> = Vec::new();
    push_domain_caps_0(&mut v);
    push_domain_caps_1(&mut v);
    push_domain_caps_2(&mut v);
    push_domain_caps_3(&mut v);
    push_domain_caps_4(&mut v);
    push_domain_caps_5(&mut v);
    push_domain_caps_6(&mut v);
    push_domain_caps_7(&mut v);
    assert(v@ =~= domain_caps_0() + domain_caps_1() + domain_caps_2() + domain_caps_3() + domain_caps_4() + domain_caps_5() + domain_caps_6() + domain_caps_7());
    v
}

/// Per-domain page caps, for hosts under these domains.
pub open spec fn domain_cap_rules() -> Seq<(&'static str, usize)> {
    domain_cap_rules_0()
}

pub open spec fn domain_cap_rules_0() -> Seq<(&'static str, usize)> {
    seq![("infoq.com", 5000usize), ("joelonsoftware.com", 3000usize), ("databricks.com", 3000usize), ("elastic.co", 8000usize), ("terraform.io", 15000usize), ("postgresql.org", 20000usize), ("kernel.org", 20000usize), ("brendangregg.com", 5000usize), ("linuxfromscratch.org", 2000usize), ("interdb.jp", 500usize), ("cockroachlabs.com", 5000usize), ("scattered-thoughts.net", 1000usize), ("usenix.org", 10000usize), ("cl.cam.ac.uk", 2000usize), ("cs.cornell.edu", 5000usize), ("nand2tetris.org", 1000usize), ("haskell.org", 10000usize)]
}

fn push_domain_cap_rules_0(v: &mut Vec<(&'static str, usize)>)
    ensures
        final(v)@ == old(v)@ + domain_cap_rules_0(),
{
    let ghost v0 = v@;
    v.push(("infoq.com", 5000));
    v.push(("joelonsoftware.com", 3000));
    v.push(("databricks.com", 3000));
    v.push(("elastic.co", 8000));
    v.push(("terraform.io", 15000));
    v.push(("postgresql.org", 20000));
    v.push(("kernel.org", 20000));
    v.push(("brendangregg.com", 5000));
    v.push(("linuxfromscratch.org", 2000));
    v.push(("interdb.jp", 500));
    v.push(("cockroachlabs.com", 5000));
    v.push(("scattered-thoughts.net", 1000));
    v.push(("usenix.org", 10000));
    v.push(("cl.cam.ac.uk", 2000));
    v.push(("cs.cornell.edu", 5000));
    v.push(("nand2tetris.org", 1000));
    v.push(("haskell.org", 10000));
    assert(v@ =~= v0 + domain_cap_rules_0());
}

fn domain_cap_rules_list() -> (v: Vec<(&'static str, usize)>)
    ensures
        v@ == domain_cap_rules(),
{
    let mut v: Vec<(&'static str, usize)> = Vec::new();
    push_domain_cap_rules_0(&mut v);
    assert(v@ =~= domain_cap_rules_0());
    v
}

/// The hosts (and domains) the crawl may visit.
pub open spec fn allowed_hosts() -> Seq<&'static str> {
    allowed_hosts_0() + allowed_hosts_1() + allowed_hosts_2() + allowed_hosts_3() + allowed_hosts_4() + allowed_hosts_5() + allowed_hosts_6() + allowed_hosts_7()
}

pub open spec fn allowed_hosts_0() -> Seq<&'static str> {
    seq!["doc.rust-lang.org", "docs.python.org", "developer.mozilla.org", "en.wikipedia.org", "stackoverflow.com", "stackoverflow.blog", "cppreference.com", "en.cppreference.com", "blog.rust-lang.org", "blog.cloudflare.com", "jvns.ca", "martinfowler.com", "blog.acolyer.org", "eng.uber.com", "netflixtechblog.com", "research.google", "docs.rs", "go.dev", "nodejs.org", "kubernetes.io"]
}

fn push_allowed_hosts_0(v: &mut Vec<&'static str>)
    ensures
        final(v)@ == old(v)@ + allowed_hosts_0(),
{
    let ghost v0 = v@;
    v.push("doc.rust-lang.org");
    v.push("docs.python.org");
    v.push("developer.mozilla.org");
    v.push("en.wikipedia.org");
    v.push("stackoverflow.com");
    v.push("stackoverflow.blog");
    v.push("cppreference.com");
    v.push("en.cppreference.com");
    v.push("blog.rust-lang.org");
    v.push("blog.cloudflare.com");
    v.push("jvns.ca");
    v.push("martinfowler.com");
    v.push("blog.acolyer.org");
    v.push("eng.uber.com");
    v.push("netflixtechblog.com");
    v.push("research.google");
    v.push("docs.rs");
    v.push("go.dev");
    v.push("nodejs.org");
    v.push("kubernetes.io");
    assert(v@ =~= v0 + allowed_hosts_0());
}

pub open spec fn allowed_hosts_1() -> Seq<&'static str> {
    seq!["docs.docker.com", "learn.microsoft.com", "docs.julialang.org", "news.ycombinator.com", "dev.to", "medium.com", "www.infoq.com", "thenewstack.io", "highscalability.com", "engineering.fb.com", "aws.amazon.com", "developers.googleblog.com", "techcrunch.com", "simonwillison.net", "www.joelonsoftware.com", "danluu.com", "rachelbythebay.com", "without.boats", "matklad.github.io", "arxiv.org"]
}

fn push_allowed_hosts_1(v: &mut Vec<&'static str>)
    ensures
        final(v)@ == old(v)@ + allowed_hosts_1(),
{
    let ghost v0 = v@;
    v.push("docs.docker.com");
    v.push("learn.microsoft.com");
    v.push("docs.julialang.org");
    v.push("news.ycombinator.com");
    v.push("dev.to");
    v.push("medium.com");
    v.push("www.infoq.com");
    v.push("thenewstack.io");
    v.push("highscalability.com");
    v.push("engineering.fb.com");
    v.push("aws.amazon.com");
    v.push("developers.googleblog.com");
    v.push("techcrunch.com");
    v.push("simonwillison.net");
    v.push("www.joelonsoftware.com");
    v.push("danluu.com");
    v.push("rachelbythebay.com");
    v.push("without.boats");
    v.push("matklad.github.io");
    v.push("arxiv.org");
    assert(v@ =~= v0 + allowed_hosts_1());
}

pub open spec fn allowed_hosts_2() -> Seq<&'static str> {
    seq!["paperswithcode.com", "distill.pub", "cacm.acm.org", "people.csail.mit.edu", "cs.stanford.edu", "ocw.mit.edu", "ask.ubuntu.com", "unix.stackexchange.com", "docs.swift.org", "kotlinlang.org", "docs.scala-lang.org", "clojure.org", "elixir-lang.org", "hexdocs.pm", "wiki.haskell.org", "www.haskell.org", "ziglang.org", "docs.oracle.com", "slack.engineering", "dropbox.tech"]
}

fn push_allowed_hosts_2(v: &mut Vec<&'static str>)
    ensures
        final(v)@ == old(v)@ + allowed_hosts_2(),
{
    let ghost v0 = v@;
    v.push("paperswithcode.com");
    v.push("distill.pub");
    v.push("cacm.acm.org");
    v.push("people.csail.mit.edu");
    v.push("cs.stanford.edu");
    v.push("ocw.mit.edu");
    v.push("ask.ubuntu.com");
    v.push("unix.stackexchange.com");
    v.push("docs.swift.org");
    v.push("kotlinlang.org");
    v.push("docs.scala-lang.org");
    v.push("clojure.org");
    v.push("elixir-lang.org");
    v.push("hexdocs.pm");
    v.push("wiki.haskell.org");
    v.push("www.haskell.org");
    v.push("ziglang.org");
    v.push("docs.oracle.com");
    v.push("slack.engineering");
    v.push("dropbox.tech");
    assert(v@ =~= v0 + allowed_hosts_2());
}

pub open spec fn allowed_hosts_3() -> Seq<&'static str> {
    seq!["www.databricks.com", "grafana.com", "www.elastic.co", "shopify.engineering", "engineering.linkedin.com", "systemdesign.one", "www.oreilly.com", "microservices.io", "12factor.net", "sre.google", "owasp.org", "cheatsheetseries.owasp.org", "portswigger.net", "www.schneier.com", "www.terraform.io", "docs.ansible.com", "prometheus.io", "opentelemetry.io", "kafka.apache.org", "redis.io"]
}

fn push_allowed_hosts_3(v: &mut Vec<&'static str>)
    ensures
        final(v)@ == old(v)@ + allowed_hosts_3(),
{
    let ghost v0 = v@;
    v.push("www.databricks.com");
    v.push("grafana.com");
    v.push("www.elastic.co");
    v.push("shopify.engineering");
    v.push("engineering.linkedin.com");
    v.push("systemdesign.one");
    v.push("www.oreilly.com");
    v.push("microservices.io");
    v.push("12factor.net");
    v.push("sre.google");
    v.push("owasp.org");
    v.push("cheatsheetseries.owasp.org");
    v.push("portswigger.net");
    v.push("www.schneier.com");
    v.push("www.terraform.io");
    v.push("docs.ansible.com");
    v.push("prometheus.io");
    v.push("opentelemetry.io");
    v.push("kafka.apache.org");
    v.push("redis.io");
    assert(v@ =~= v0 + allowed_hosts_3());
}

pub open spec fn allowed_hosts_4() -> Seq<&'static str> {
    seq!["www.postgresql.org", "sqlite.org", "cp-algorithms.com", "cstheory.stackexchange.com", "norvig.com", "www.kernel.org", "www.brendangregg.com", "pages.cs.wisc.edu", "pdos.csail.mit.edu", "os.phil-opp.com", "www.linuxfromscratch.org", "lwn.net", "www.agner.org", "uops.info", "sandpile.org", "book.rvemu.app", "llvm.org", "clang.llvm.org", "gcc.gnu.org", "craftinginterpreters.com"]
}

fn push_allowed_hosts_4(v: &mut Vec<&'static str>)
    ensures
        final(v)@ == old(v)@ + allowed_hosts_4(),
{
    let ghost v0 = v@;
    v.push("www.postgresql.org");
    v.push("sqlite.org");
    v.push("cp-algorithms.com");
    v.push("cstheory.stackexchange.com");
    v.push("norvig.com");
    v.push("www.kernel.org");
    v.push("www.brendangregg.com");
    v.push("pages.cs.wisc.edu");
    v.push("pdos.csail.mit.edu");
    v.push("os.phil-opp.com");
    v.push("www.linuxfromscratch.org");
    v.push("lwn.net");
    v.push("www.agner.org");
    v.push("uops.info");
    v.push("sandpile.org");
    v.push("book.rvemu.app");
    v.push("llvm.org");
    v.push("clang.llvm.org");
    v.push("gcc.gnu.org");
    v.push("craftinginterpreters.com");
    assert(v@ =~= v0 + allowed_hosts_4());
}

pub open spec fn allowed_hosts_5() -> Seq<&'static str> {
    seq!["eli.thegreenplace.net", "www.cs.cornell.edu", "swtch.com", "softwarefoundations.cis.upenn.edu", "homotopytypetheory.org", "xavierleroy.org", "faultlore.com", "www.scattered-thoughts.net", "www.interdb.jp", "15445.courses.cs.cmu.edu", "15721.courses.cs.cmu.edu", "www.cockroachlabs.com", "jepsen.io", "martin.kleppmann.com", "muratbuffalo.blogspot.com", "fly.io", "explained.ai", "cs231n.github.io", "nlp.stanford.edu", "learnopengl.com"]
}

fn push_allowed_hosts_5(v: &mut Vec<&'static str>)
    ensures
        final(v)@ == old(v)@ + allowed_hosts_5(),
{
    let ghost v0 = v@;
    v.push("eli.thegreenplace.net");
    v.push("www.cs.cornell.edu");
    v.push("swtch.com");
    v.push("softwarefoundations.cis.upenn.edu");
    v.push("homotopytypetheory.org");
    v.push("xavierleroy.org");
    v.push("faultlore.com");
    v.push("www.scattered-thoughts.net");
    v.push("www.interdb.jp");
    v.push("15445.courses.cs.cmu.edu");
    v.push("15721.courses.cs.cmu.edu");
    v.push("www.cockroachlabs.com");
    v.push("jepsen.io");
    v.push("martin.kleppmann.com");
    v.push("muratbuffalo.blogspot.com");
    v.push("fly.io");
    v.push("explained.ai");
    v.push("cs231n.github.io");
    v.push("nlp.stanford.edu");
    v.push("learnopengl.com");
    assert(v@ =~= v0 + allowed_hosts_5());
}

pub open spec fn allowed_hosts_6() -> Seq<&'static str> {
    seq!["vulkan-tutorial.com", "raytracing.github.io", "beej.us", "hacks.mozilla.org", "webassembly.org", "cryptopals.com", "blog.cryptographyengineering.com", "www.usenix.org", "isocpp.org", "abseil.io", "paulgraham.com", "thume.ca", "lamport.azurewebsites.net", "coq.inria.fr", "www.cl.cam.ac.uk", "interrupt.memfault.com", "quantum.country", "learn.qiskit.org", "missing.csail.mit.edu", "staffeng.com"]
}

fn push_allowed_hosts_6(v: &mut Vec<&'static str>)
    ensures
        final(v)@ == old(v)@ + allowed_hosts_6(),
{
    let ghost v0 = v@;
    v.push("vulkan-tutorial.com");
    v.push("raytracing.github.io");
    v.push("beej.us");
    v.push("hacks.mozilla.org");
    v.push("webassembly.org");
    v.push("cryptopals.com");
    v.push("blog.cryptographyengineering.com");
    v.push("www.usenix.org");
    v.push("isocpp.org");
    v.push("abseil.io");
    v.push("paulgraham.com");
    v.push("thume.ca");
    v.push("lamport.azurewebsites.net");
    v.push("coq.inria.fr");
    v.push("www.cl.cam.ac.uk");
    v.push("interrupt.memfault.com");
    v.push("quantum.country");
    v.push("learn.qiskit.org");
    v.push("missing.csail.mit.edu");
    v.push("staffeng.com");
    assert(v@ =~= v0 + allowed_hosts_6());
}

pub open spec fn allowed_hosts_7() -> Seq<&'static str> {
    seq!["www.nand2tetris.org"]
}

fn push_allowed_hosts_7(v: &mut Vec<&'static str>)
    ensures
        final(v)@ == old(v)@ + allowed_hosts_7(),
{
    let ghost v0 = v@;
    v.push("www.nand2tetris.org");
    assert(v@ =~= v0 + allowed_hosts_7());
}

fn allowed_hosts_list() -> (v: Vec<&'static str>)
    ensures
        v@ == allowed_hosts(),
{
    let mut v: Vec<&'static str> = Vec::new();
    push_allowed_hosts_0(&mut v);
    push_allowed_hosts_1(&mut v);
    push_allowed_hosts_2(&mut v);
    push_allowed_hosts_3(&mut v);
    push_allowed_hosts_4(&mut v);
    push_allowed_hosts_5(&mut v);
    push_allowed_hosts_6(&mut v);
    push_allowed_hosts_7(&mut v);
    assert(v@ =~= allowed_hosts_0() + allowed_hosts_1() + allowed_hosts_2() + allowed_hosts_3() + allowed_hosts_4() + allowed_hosts_5() + allowed_hosts_6() + allowed_hosts_7());
    v
}

/// Title fragments of Wikipedia articles on computing topics.
pub open spec fn wiki_markers() -> Seq<&'static str> {
    wiki_markers_0() + wiki_markers_1()
}

pub open spec fn wiki_markers_0() -> Seq<&'static str> {
    seq!["computer", "software", "programming", "algorithm", "data_structure", "operating_system", "kernel", "compiler", "interpreter", "database", "distributed", "network", "protocol", "internet", "web_", "crypt", "machine_learning", "deep_learning", "artificial_intelligence", "neural_network"]
}

fn push_wiki_markers_0(v: &mut Vec<&'static str>)
    ensures
        final(v)@ == old(v)@ + wiki_markers_0(),
{
    let ghost v0 = v@;
    v.push("computer");
    v.push("software");
    v.push("programming");
    v.push("algorithm");
    v.push("data_structure");
    v.push("operating_system");
    v.push("kernel");
    v.push("compiler");
    v.push("interpreter");
    v.push("database");
    v.push("distributed");
    v.push("network");
    v.push("protocol");
    v.push("internet");
    v.push("web_");
    v.push("crypt");
    v.push("machine_learning");
    v.push("deep_learning");
    v.push("artificial_intelligence");
    v.push("neural_network");
    assert(v@ =~= v0 + wiki_markers_0());
}

pub open spec fn wiki_markers_1() -> Seq<&'static str> {
    seq!["computer_science", "linux", "unix", "open_source"]
}

fn push_wiki_markers_1(v: &mut Vec<&'static str>)
    ensures
        final(v)@ == old(v)@ + wiki_markers_1(),
{
    let ghost v0 = v@;
    v.push("computer_science");
    v.push("linux");
    v.push("unix");
    v.push("open_source");
    assert(v@ =~= v0 + wiki_markers_1());
}

fn wiki_markers_list() -> (v: Vec<&'static str>)
    ensures
        v@ == wiki_markers(),
{
    let mut v: Vec<&'static str> = Vec::new();
    push_wiki_markers_0(&mut v);
    push_wiki_markers_1(&mut v);
    assert(v@ =~= wiki_markers_0() + wiki_markers_1());
    v
}

/// File name endings of binary downloads.
pub open spec fn binary_extensions() -> Seq<&'static str> {
    binary_extensions_0()
}

pub open spec fn binary_extensions_0() -> Seq<&'static str> {
    seq![".tar", ".tar.gz", ".tgz", ".zip", ".7z", ".gz", ".xz", ".bz2", ".pdf", ".png", ".jpg", ".jpeg", ".gif", ".webp", ".svg", ".mp4", ".mp3", ".woff", ".woff2", ".ttf"]
}

fn push_binary_extensions_0(v: &mut Vec<&'static str>)
    ensures
        final(v)@ == old(v)@ + binary_extensions_0(),
{
    let ghost v0 = v@;
    v.push(".tar");
    v.push(".tar.gz");
    v.push(".tgz");
    v.push(".zip");
    v.push(".7z");
    v.push(".gz");
    v.push(".xz");
    v.push(".bz2");
    v.push(".pdf");
    v.push(".png");
    v.push(".jpg");
    v.push(".jpeg");
    v.push(".gif");
    v.push(".webp");
    v.push(".svg");
    v.push(".mp4");
    v.push(".mp3");
    v.push(".woff");
    v.push(".woff2");
    v.push(".ttf");
    assert(v@ =~= v0 + binary_extensions_0());
}

fn binary_extensions_list() -> (v: Vec<&'static str>)
    ensures
        v@ == binary_extensions(),
{
    let mut v: Vec<&'static str> = Vec::new();
    push_binary_extensions_0(&mut v);
    assert(v@ =~= binary_extensions_0());
    v
}

/// Path segments that name a non-English locale.
pub open spec fn locales() -> Seq<&'static str> {
    locales_0()
}

pub open spec fn locales_0() -> Seq<&'static str> {
    seq!["zh", "ja", "ko", "ru", "uk", "it", "es", "fr", "de", "pt", "tr", "pl", "cs", "nl", "sv", "fi", "no", "da", "hu", "ro"]
}

fn push_locales_0(v: &mut Vec<&'static str>)
    ensures
        final(v)@ == old(v)@ + locales_0(),
{
    let ghost v0 = v@;
    v.push("zh");
    v.push("ja");
    v.push("ko");
    v.push("ru");
    v.push("uk");
    v.push("it");
    v.push("es");
    v.push("fr");
    v.push("de");
    v.push("pt");
    v.push("tr");
    v.push("pl");
    v.push("cs");
    v.push("nl");
    v.push("sv");
    v.push("fi");
    v.push("no");
    v.push("da");
    v.push("hu");
    v.push("ro");
    assert(v@ =~= v0 + locales_0());
}

fn locales_list() -> (v: Vec<&'static str>)
    ensures
        v@ == locales(),
{
    let mut v: Vec<&'static str> = Vec::new();
    push_locales_0(&mut v);
    assert(v@ =~= locales_0());
    v
}

} // verus!

verus! {

// ---------------------------------------------------------------------------
// Paths
// ---------------------------------------------------------------------------
/// `s[i..j]` is a non-empty `/`-separated segment of `s`.
pub open spec fn is_segment(s: Seq<char>, i: int, j: int) -> bool {
    &&& 0 <= i < j <= s.len()
    &&& (i == 0 || s[i - 1] == '/')
    &&& (j == s.len() || s[j] == '/')
    &&& forall|k: int| i <= k < j ==> s[k] != '/'
}

pub open spec fn is_locale(w: Seq<char>) -> bool {
    exists|k: int| 0 <= k < locales().len() && (#[trigger] locales()[k])@ == w
}

/// Some segment of the path names a locale (case-insensitively).
pub open spec fn locale_segment(path: Seq<char>) -> bool {
    exists|i: int, j: int| is_segment(path, i, j) && is_locale(lower(path.subrange(i, j)))
}

fn path_has_locale_segment_chars(s: &[char]) -> (r: bool)
    ensures
        r == locale_segment(s@),
{
    let locs = locales_list();
    let len = s.len();
    let mut i: usize = 0;
    loop
        invariant
            i <= len == s@.len(),
            locs@ == locales(),
            i == 0 || s@[i - 1] == '/',
            forall|a: int, b: int|
                is_segment(s@, a, b) && a < i ==> !is_locale(#[trigger] lower(s@.subrange(a, b))),
        decreases len - i,
    {
        let mut j = i;
        while j < len && s[j] != '/'
            invariant
                i <= j <= len == s@.len(),
                forall|k: int| i <= k < j ==> s@[k] != '/',
            decreases len - j,
        {
            j = j + 1;
        }
        if j > i {
            let seg = lower_chars(&s[i..j]);
            if crate::text::eq_any(seg.as_slice(), &locs) {
                assert(is_segment(s@, i as int, j as int));
                assert(s@.subrange(i as int, j as int) == s@.subrange(i as int, j as int));
                return true;
            }
        }
        proof {
            assert forall|a: int, b: int|
                is_segment(s@, a, b) && a < j + 1 implies !is_locale(#[trigger] lower(s@.subrange(a, b))) by {
                if a >= i {
                    if a > i {
                        assert(s@[a - 1] != '/');
                    } else {
                        if b < j {
                            assert(s@[b] != '/');
                        }
                        if b > j {
                            assert(s@[j as int] == '/');
                        }
                        assert(b == j);
                    }
                }
            }
        }
        if j >= len {
            proof {
                assert forall|a: int, b: int|
                    is_segment(s@, a, b) implies !is_locale(#[trigger] lower(s@.subrange(a, b))) by {
                    assert(a < j + 1);
                }
            }
            return false;
        }
        i = j + 1;
    }
}

pub fn path_has_locale_segment(path: &str) -> (r: bool)
    ensures
        r == locale_segment(path@),
{
    let p = to_chars(path);
    path_has_locale_segment_chars(p.as_slice())
}

// ---------------------------------------------------------------------------
// Scoring
// ---------------------------------------------------------------------------
pub open spec fn contains_listed(s: Seq<char>, list: Seq<&'static str>) -> bool {
    exists|k: int| 0 <= k < list.len() && contains_sub(s, (#[trigger] list[k])@)
}

pub open spec fn starts_listed(s: Seq<char>, list: Seq<&'static str>) -> bool {
    exists|k: int| 0 <= k < list.len() && starts_with(s, (#[trigger] list[k])@)
}

pub open spec fn equals_listed(s: Seq<char>, list: Seq<&'static str>) -> bool {
    exists|k: int| 0 <= k < list.len() && (#[trigger] list[k])@ == s
}

pub open spec fn host_or_empty(u: UrlView) -> Seq<char> {
    match u.host {
        Some(h) => h,
        None => Seq::empty(),
    }
}

/// The crawl priority of a URL found at `depth`: 100 less 10 per level, +50 for
/// documentation-like paths, -70 for listing-like paths, -20 with a query, +30 on the
/// top documentation hosts.
pub open spec fn url_score(u: UrlView, depth: u16) -> int {
    let path = lower(u.path);
    let host = lower(host_or_empty(u));
    100 - depth * 10
        + (if contains_listed(path, high_signal()) { 50int } else { 0int })
        - (if contains_listed(path, low_signal()) { 70int } else { 0int })
        - (if u.pairs.len() > 0 { 20int } else { 0int })
        + (if exists|k: int| 0 <= k < s_tier().len() && rule_matches(host, (#[trigger] s_tier()[k])@) { 30int } else { 0int })
}

pub fn score_url(url: &UrlParts, depth: u16) -> (r: i32)
    ensures
        r == url_score(url@, depth),
{
    let mut score: i32 = 100 - (depth as i32) * 10;
    let path = lower_chars(to_chars(url.path.as_str()).as_slice());
    let host_raw = match &url.host {
        Some(h) => to_chars(h.as_str()),
        None => Vec::new(),
    };
    let host = lower_chars(host_raw.as_slice());
    if contains_any(path.as_slice(), &high_signal_list()) {
        score = score + 50;
    }
    if contains_any(path.as_slice(), &low_signal_list()) {
        score = score - 70;
    }
    if url.query_pairs.len() > 0 {
        score = score - 20;
    }
    let top = matches_any_rule(host.as_slice(), &s_tier_list());
    if top {
        score = score + 30;
    }
    proof {
        assert(url@.pairs.len() == url.query_pairs@.len());
    }
    score
}

// ---------------------------------------------------------------------------
// URL filter
// ---------------------------------------------------------------------------
/// A subdomain the crawl does not want under a domain it otherwise takes.
pub open spec fn unwanted_subdomain(h: Seq<char>) -> bool {
    ||| (rule_matches(h, "stackoverflow.com"@) && h != "stackoverflow.com"@)
    ||| (rule_matches(h, "research.google"@) && h != "research.google"@)
    ||| (rule_matches(h, "arxiv.org"@) && h != "arxiv.org"@)
    ||| (rule_matches(h, "usenix.org"@) && h != "www.usenix.org"@)
    ||| (rule_matches(h, "kernel.org"@) && h != "www.kernel.org"@ && h != "docs.kernel.org"@)
    ||| (rule_matches(h, "haskell.org"@) && h != "www.haskell.org"@ && h != "wiki.haskell.org"@
        && h != "downloads.haskell.org"@)
    ||| h == "git.kernel.org"@
}

fn unwanted_subdomain_exec(h: &[char]) -> (r: bool)
    ensures
        r == unwanted_subdomain(h@),
{
    (matches_lit(h, "stackoverflow.com") && !eq_lit(h, "stackoverflow.com"))
        || (matches_lit(h, "research.google") && !eq_lit(h, "research.google"))
        || (matches_lit(h, "arxiv.org") && !eq_lit(h, "arxiv.org"))
        || (matches_lit(h, "usenix.org") && !eq_lit(h, "www.usenix.org"))
        || (matches_lit(h, "kernel.org") && !eq_lit(h, "www.kernel.org") && !eq_lit(h, "docs.kernel.org"))
        || (matches_lit(h, "haskell.org") && !eq_lit(h, "www.haskell.org") && !eq_lit(h, "wiki.haskell.org")
        && !eq_lit(h, "downloads.haskell.org"))
        || eq_lit(h, "git.kernel.org")
}

/// Generated API listings and source views.
pub open spec fn generated_doc_path(lp: Seq<char>) -> bool {
    contains_sub(lp, "/doxygen/"@) || ends_with(lp, "-members.html"@) || ends_with(lp, "_source.html"@)
}

/// The (lower-case) path is, or lies under, a locale prefix such as `/de` or `/pt-br`.
pub open spec fn localized_path(lp: Seq<char>) -> bool {
    exists|k: int|
        0 <= k < localized_prefixes().len() && {
            let p = (#[trigger] localized_prefixes()[k])@;
            lp == p || starts_with(lp, p + seq!['/']) || starts_with(lp, p + seq!['-'])
        }
}

fn localized_path_exec(lp: &[char]) -> (r: bool)
    ensures
        r == localized_path(lp@),
{
    let list = localized_prefixes_list();
    let mut k: usize = 0;
    while k < list.len()
        invariant
            k <= list.len(),
            list@ == localized_prefixes(),
            forall|j: int|
                0 <= j < k ==> {
                    let p = (#[trigger] list@[j])@;
                    !(lp@ == p || starts_with(lp@, p + seq!['/']) || starts_with(lp@, p + seq!['-']))
                },
        decreases list.len() - k,
    {
        let p = to_chars(list[k]);
        let mut slash = p.clone();
        slash.push('/');
        let mut dash = p.clone();
        dash.push('-');
        assert(slash@ =~= p@ + seq!['/']);
        assert(dash@ =~= p@ + seq!['-']);
        if seq_eq(lp, p.as_slice()) || crate::text::has_prefix(lp, slash.as_slice())
            || crate::text::has_prefix(lp, dash.as_slice()) {
            return true;
        }
        k = k + 1;
    }
    false
}

/// A Wikipedia article title (lower-cased) that the crawl takes.
pub open spec fn wiki_title_ok(t: Seq<char>) -> bool {
    &&& !t.contains(':')
    &&& !(t.len() > 0 && is_digit(t[0]))
    &&& !contains_listed(t, wiki_noise())
    &&& topic_allowed(t)
}

/// An English Wikipedia path that the crawl takes: an article outside the special
/// namespaces, on a computing topic.
pub open spec fn wiki_path_ok(path: Seq<char>) -> bool {
    &&& !starts_with(path, "/w/"@)
    &&& starts_with(path, "/wiki/"@)
    &&& !starts_with(path, "/wiki/Special:"@)
    &&& !starts_with(path, "/wiki/Talk:"@)
    &&& wiki_title_ok(lower(path.skip(6)))
}

fn wiki_path_ok_exec(path: &[char]) -> (r: bool)
    ensures
        r == wiki_path_ok(path@),
{
    if starts_lit(path, "/w/") || !starts_lit(path, "/wiki/") || starts_lit(path, "/wiki/Special:")
        || starts_lit(path, "/wiki/Talk:") {
        return false;
    }
    proof {
        reveal_strlit("/wiki/");
    }
    let t = lower_chars(&path[6..path.len()]);
    assert(path@.subrange(6, path@.len() as int) =~= path@.skip(6));
    if contains_char(t.as_slice(), ':') {
        return false;
    }
    if t.len() > 0 && '0' <= t[0] && t[0] <= '9' {
        return false;
    }
    if contains_any(t.as_slice(), &wiki_noise_list()) {
        return false;
    }
    wiki_topic_allowed_chars(t.as_slice())
}

/// Per-site path rules.
pub open spec fn site_path_ok(h: Seq<char>, path: Seq<char>, lp: Seq<char>) -> bool {
    &&& h == "en.wikipedia.org"@ ==> wiki_path_ok(path)
    &&& h == "stackoverflow.com"@ ==> starts_listed(path, so_paths())
    &&& rule_matches(h, "cppreference.com"@) ==> {
        &&& (h == "cppreference.com"@ || h == "en.cppreference.com"@)
        &&& !starts_with(lp, "/mwiki/"@)
        &&& !starts_with(lp, "/w/special:"@)
        &&& (starts_with(lp, "/w/c/"@) || starts_with(lp, "/w/cpp/"@))
    }
    &&& rule_matches(h, "aws.amazon.com"@) ==> {
        ||| h == "docs.aws.amazon.com"@
        ||| ((h == "aws.amazon.com"@ || h == "www.aws.amazon.com"@) && starts_with(lp, "/blogs/"@))
    }
    &&& rule_matches(h, "databricks.com"@) ==> {
        ||| h == "docs.databricks.com"@
        ||| ((h == "databricks.com"@ || h == "www.databricks.com"@) && starts_with(lp, "/blog"@))
    }
    &&& rule_matches(h, "medium.com"@) ==> {
        &&& h == "medium.com"@
        &&& !starts_listed(lp, medium_blocked())
        &&& !ends_with(lp, "/followers"@)
        &&& !ends_with(lp, "/following"@)
    }
    &&& h == "downloads.haskell.org"@ ==> {
        &&& (starts_with(lp, "/ghc/latest/"@) || starts_with(lp, "/~ghc/latest/"@))
        &&& !contains_sub(lp, "/src/"@)
        &&& !contains_sub(lp, "doc-index"@)
    }
    &&& !(h == "gcc.gnu.org"@ && (starts_with(lp, "/bugzilla/"@) || starts_with(lp, "/legacy-ml/"@)))
}

fn site_path_ok_exec(h: &[char], path: &[char], lp: &[char]) -> (r: bool)
    ensures
        r == site_path_ok(h@, path@, lp@),
{
    if eq_lit(h, "en.wikipedia.org") && !wiki_path_ok_exec(path) {
        return false;
    }
    if eq_lit(h, "stackoverflow.com") && !starts_with_any(path, &so_paths_list()) {
        return false;
    }
    if matches_lit(h, "cppreference.com") {
        let ok = (eq_lit(h, "cppreference.com") || eq_lit(h, "en.cppreference.com"))
            && !starts_lit(lp, "/mwiki/") && !starts_lit(lp, "/w/special:")
            && (starts_lit(lp, "/w/c/") || starts_lit(lp, "/w/cpp/"));
        if !ok {
            return false;
        }
    }
    if matches_lit(h, "aws.amazon.com") {
        let ok = eq_lit(h, "docs.aws.amazon.com") || ((eq_lit(h, "aws.amazon.com") || eq_lit(
            h,
            "www.aws.amazon.com",
        )) && starts_lit(lp, "/blogs/"));
        if !ok {
            return false;
        }
    }
    if matches_lit(h, "databricks.com") {
        let ok = eq_lit(h, "docs.databricks.com") || ((eq_lit(h, "databricks.com") || eq_lit(
            h,
            "www.databricks.com",
        )) && starts_lit(lp, "/blog"));
        if !ok {
            return false;
        }
    }
    if matches_lit(h, "medium.com") {
        let ok = eq_lit(h, "medium.com") && !starts_with_any(lp, &medium_blocked_list())
            && !ends_lit(lp, "/followers") && !ends_lit(lp, "/following");
        if !ok {
            return false;
        }
    }
    if eq_lit(h, "downloads.haskell.org") {
        let ok = (starts_lit(lp, "/ghc/latest/") || starts_lit(lp, "/~ghc/latest/"))
            && !contains_lit(lp, "/src/") && !contains_lit(lp, "doc-index");
        if !ok {
            return false;
        }
    }
    !(eq_lit(h, "gcc.gnu.org") && (starts_lit(lp, "/bugzilla/") || starts_lit(lp, "/legacy-ml/")))
}

/// A query parameter (key and value lower-cased) that disqualifies a URL.
pub open spec fn bad_param(key: Seq<char>, value: Seq<char>) -> bool {
    ||| equals_listed(key, blocked_params())
    ||| (key == "action"@ && (value == "edit"@ || value == "history"@))
    ||| starts_with(key, "utm_"@)
    ||| equals_listed(key, tracking_params())
}

pub open spec fn params_ok(pairs: Seq<(Seq<char>, Seq<char>)>) -> bool {
    forall|i: int| 0 <= i < pairs.len() ==> !bad_param(lower(#[trigger] pairs[i].0), lower(pairs[i].1))
}

fn params_ok_exec(pairs: &Vec<(String, String)>) -> (r: bool)
    ensures
        r == params_ok(crate::crawler::urlparts::pair_views(pairs@)),
{
    let ghost pv = crate::crawler::urlparts::pair_views(pairs@);
    let blocked = blocked_params_list();
    let tracking = tracking_params_list();
    let mut i: usize = 0;
    while i < pairs.len()
        invariant
            i <= pairs.len(),
            pv == crate::crawler::urlparts::pair_views(pairs@),
            blocked@ == blocked_params(),
            tracking@ == tracking_params(),
            forall|j: int| 0 <= j < i ==> !bad_param(lower(#[trigger] pv[j].0), lower(pv[j].1)),
        decreases pairs.len() - i,
    {
        let key = lower_chars(to_chars(pairs[i].0.as_str()).as_slice());
        let value = lower_chars(to_chars(pairs[i].1.as_str()).as_slice());
        assert(pv[i as int] == (pairs@[i as int].0@, pairs@[i as int].1@));
        if eq_any(key.as_slice(), &blocked) || (eq_lit(key.as_slice(), "action") && (eq_lit(
            value.as_slice(),
            "edit",
        ) || eq_lit(value.as_slice(), "history"))) || starts_lit(key.as_slice(), "utm_") || eq_any(
            key.as_slice(),
            &tracking,
        ) {
            assert(bad_param(lower(pv[i as int].0), lower(pv[i as int].1)));
            return false;
        }
        i = i + 1;
    }
    true
}

/// Whether the crawl takes a URL: an allowlisted host, a non-binary English page the site
/// rules accept, and no edit, search or tracking parameters.
pub open spec fn url_ok(u: UrlView) -> bool {
    match u.host {
        None => false,
        Some(h) => {
            let lp = lower(u.path);
            &&& allowed_host(h)
            &&& !binary_path(u.path)
            &&& !unwanted_subdomain(h)
            &&& !generated_doc_path(lp)
            &&& !localized_path(lp)
            &&& !contains_listed(lower(u.ser), lang_markers())
            &&& !locale_segment(u.path)
            &&& site_path_ok(h, u.path, lp)
            &&& params_ok(u.pairs)
        },
    }
}

pub fn url_allowed(url: &UrlParts) -> (r: bool)
    ensures
        r == url_ok(url@),
{
    let h = match &url.host {
        Some(h) => to_chars(h.as_str()),
        None => {
            return false;
        },
    };
    let path = to_chars(url.path.as_str());
    if !host_allowed_chars(h.as_slice()) || path_looks_binary_chars(path.as_slice()) {
        return false;
    }
    if unwanted_subdomain_exec(h.as_slice()) {
        return false;
    }
    let lp = lower_chars(path.as_slice());
    if contains_lit(lp.as_slice(), "/doxygen/") || ends_lit(lp.as_slice(), "-members.html") || ends_lit(
        lp.as_slice(),
        "_source.html",
    ) {
        return false;
    }
    if localized_path_exec(lp.as_slice()) {
        return false;
    }
    let full = lower_chars(to_chars(url.serialization.as_str()).as_slice());
    if contains_any(full.as_slice(), &lang_markers_list()) {
        return false;
    }
    if path_has_locale_segment_chars(path.as_slice()) {
        return false;
    }
    if !site_path_ok_exec(h.as_slice(), path.as_slice(), lp.as_slice()) {
        return false;
    }
    params_ok_exec(&url.query_pairs)
}

/// Path prefixes of localized pages.
pub open spec fn localized_prefixes() -> Seq<&'static str> {
    localized_prefixes_0()
}

pub open spec fn localized_prefixes_0() -> Seq<&'static str> {
    seq!["/zh", "/ja", "/ko", "/ru", "/uk", "/it", "/es", "/fr", "/de", "/pt", "/tr", "/pl", "/cs", "/nl", "/sv", "/fi", "/no", "/da", "/hu", "/ro"]
}

fn push_localized_prefixes_0(v: &mut Vec<&'static str>)
    ensures
        final(v)@ == old(v)@ + localized_prefixes_0(),
{
    let ghost v0 = v@;
    v.push("/zh");
    v.push("/ja");
    v.push("/ko");
    v.push("/ru");
    v.push("/uk");
    v.push("/it");
    v.push("/es");
    v.push("/fr");
    v.push("/de");
    v.push("/pt");
    v.push("/tr");
    v.push("/pl");
    v.push("/cs");
    v.push("/nl");
    v.push("/sv");
    v.push("/fi");
    v.push("/no");
    v.push("/da");
    v.push("/hu");
    v.push("/ro");
    assert(v@ =~= v0 + localized_prefixes_0());
}

fn localized_prefixes_list() -> (v: Vec<&'static str>)
    ensures
        v@ == localized_prefixes(),
{
    let mut v: Vec<&'static str> = Vec::new();
    push_localized_prefixes_0(&mut v);
    assert(v@ =~= localized_prefixes_0());
    v
}

/// URL fragments that select a non-English language.
pub open spec fn lang_markers() -> Seq<&'static str> {
    lang_markers_0()
}

pub open spec fn lang_markers_0() -> Seq<&'static str> {
    seq!["locale=", "lang=", "/zh-cn/", "/zh-tw/", "/ja-jp/", "/ko-kr/", "/ru-ru/", "/uk-ua/", "/it-it/", "/es-ar/", "/fr-fr/", "/de-de/", "/pt-br/"]
}

fn push_lang_markers_0(v: &mut Vec<&'static str>)
    ensures
        final(v)@ == old(v)@ + lang_markers_0(),
{
    let ghost v0 = v@;
    v.push("locale=");
    v.push("lang=");
    v.push("/zh-cn/");
    v.push("/zh-tw/");
    v.push("/ja-jp/");
    v.push("/ko-kr/");
    v.push("/ru-ru/");
    v.push("/uk-ua/");
    v.push("/it-it/");
    v.push("/es-ar/");
    v.push("/fr-fr/");
    v.push("/de-de/");
    v.push("/pt-br/");
    assert(v@ =~= v0 + lang_markers_0());
}

fn lang_markers_list() -> (v: Vec<&'static str>)
    ensures
        v@ == lang_markers(),
{
    let mut v: Vec<&'static str> = Vec::new();
    push_lang_markers_0(&mut v);
    assert(v@ =~= lang_markers_0());
    v
}

/// Title fragments of Wikipedia articles on off-topic subjects.
pub open spec fn wiki_noise() -> Seq<&'static str> {
    wiki_noise_0()
}

pub open spec fn wiki_noise_0() -> Seq<&'static str> {
    seq!["_in_", "election", "_season", "_cup", "_championship", "_league", "football", "basketball", "olympics"]
}

fn push_wiki_noise_0(v: &mut Vec<&'static str>)
    ensures
        final(v)@ == old(v)@ + wiki_noise_0(),
{
    let ghost v0 = v@;
    v.push("_in_");
    v.push("election");
    v.push("_season");
    v.push("_cup");
    v.push("_championship");
    v.push("_league");
    v.push("football");
    v.push("basketball");
    v.push("olympics");
    assert(v@ =~= v0 + wiki_noise_0());
}

fn wiki_noise_list() -> (v: Vec<&'static str>)
    ensures
        v@ == wiki_noise(),
{
    let mut v: Vec<&'static str> = Vec::new();
    push_wiki_noise_0(&mut v);
    assert(v@ =~= wiki_noise_0());
    v
}

/// Stack Overflow path prefixes worth crawling.
pub open spec fn so_paths() -> Seq<&'static str> {
    so_paths_0()
}

pub open spec fn so_paths_0() -> Seq<&'static str> {
    seq!["/questions", "/q/", "/a/", "/tags"]
}

fn push_so_paths_0(v: &mut Vec<&'static str>)
    ensures
        final(v)@ == old(v)@ + so_paths_0(),
{
    let ghost v0 = v@;
    v.push("/questions");
    v.push("/q/");
    v.push("/a/");
    v.push("/tags");
    assert(v@ =~= v0 + so_paths_0());
}

fn so_paths_list() -> (v: Vec<&'static str>)
    ensures
        v@ == so_paths(),
{
    let mut v: Vec<&'static str> = Vec::new();
    push_so_paths_0(&mut v);
    assert(v@ =~= so_paths_0());
    v
}

/// Medium path prefixes that are not articles.
pub open spec fn medium_blocked() -> Seq<&'static str> {
    medium_blocked_0()
}

pub open spec fn medium_blocked_0() -> Seq<&'static str> {
    seq!["/about", "/help", "/membership", "/m/signin", "/m/signout", "/search", "/tag/", "/topics", "/me", "/following", "/followers"]
}

fn push_medium_blocked_0(v: &mut Vec<&'static str>)
    ensures
        final(v)@ == old(v)@ + medium_blocked_0(),
{
    let ghost v0 = v@;
    v.push("/about");
    v.push("/help");
    v.push("/membership");
    v.push("/m/signin");
    v.push("/m/signout");
    v.push("/search");
    v.push("/tag/");
    v.push("/topics");
    v.push("/me");
    v.push("/following");
    v.push("/followers");
    assert(v@ =~= v0 + medium_blocked_0());
}

fn medium_blocked_list() -> (v: Vec<&'static str>)
    ensures
        v@ == medium_blocked(),
{
    let mut v: Vec<&'static str> = Vec::new();
    push_medium_blocked_0(&mut v);
    assert(v@ =~= medium_blocked_0());
    v
}

/// Query parameters of edit, history and search pages.
pub open spec fn blocked_params() -> Seq<&'static str> {
    blocked_params_0()
}

pub open spec fn blocked_params_0() -> Seq<&'static str> {
    seq!["action", "oldid", "diff", "lastactivity", "answertab", "tab", "printable", "veaction", "search"]
}

fn push_blocked_params_0(v: &mut Vec<&'static str>)
    ensures
        final(v)@ == old(v)@ + blocked_params_0(),
{
    let ghost v0 = v@;
    v.push("action");
    v.push("oldid");
    v.push("diff");
    v.push("lastactivity");
    v.push("answertab");
    v.push("tab");
    v.push("printable");
    v.push("veaction");
    v.push("search");
    assert(v@ =~= v0 + blocked_params_0());
}

fn blocked_params_list() -> (v: Vec<&'static str>)
    ensures
        v@ == blocked_params(),
{
    let mut v: Vec<&'static str> = Vec::new();
    push_blocked_params_0(&mut v);
    assert(v@ =~= blocked_params_0());
    v
}

/// Query parameters used for tracking.
pub open spec fn tracking_params() -> Seq<&'static str> {
    tracking_params_0()
}

pub open spec fn tracking_params_0() -> Seq<&'static str> {
    seq!["source", "ref", "ref_src", "fbclid", "gclid", "mc_cid", "mc_eid"]
}

fn push_tracking_params_0(v: &mut Vec<&'static str>)
    ensures
        final(v)@ == old(v)@ + tracking_params_0(),
{
    let ghost v0 = v@;
    v.push("source");
    v.push("ref");
    v.push("ref_src");
    v.push("fbclid");
    v.push("gclid");
    v.push("mc_cid");
    v.push("mc_eid");
    assert(v@ =~= v0 + tracking_params_0());
}

fn tracking_params_list() -> (v: Vec<&'static str>)
    ensures
        v@ == tracking_params(),
{
    let mut v: Vec<&'static str> = Vec::new();
    push_tracking_params_0(&mut v);
    assert(v@ =~= tracking_params_0());
    v
}

/// Path fragments of documentation and articles.
pub open spec fn high_signal() -> Seq<&'static str> {
    high_signal_0()
}

pub open spec fn high_signal_0() -> Seq<&'static str> {
    seq!["/docs/", "/api/", "/guide/", "/tutorial/", "/manual/", "/reference/", "/wiki/", "/blog/", "/articles/", "/post/", "/news/"]
}

fn push_high_signal_0(v: &mut Vec<&'static str>)
    ensures
        final(v)@ == old(v)@ + high_signal_0(),
{
    let ghost v0 = v@;
    v.push("/docs/");
    v.push("/api/");
    v.push("/guide/");
    v.push("/tutorial/");
    v.push("/manual/");
    v.push("/reference/");
    v.push("/wiki/");
    v.push("/blog/");
    v.push("/articles/");
    v.push("/post/");
    v.push("/news/");
    assert(v@ =~= v0 + high_signal_0());
}

fn high_signal_list() -> (v: Vec<&'static str>)
    ensures
        v@ == high_signal(),
{
    let mut v: Vec<&'static str> = Vec::new();
    push_high_signal_0(&mut v);
    assert(v@ =~= high_signal_0());
    v
}

/// Path fragments of listing, archive and source pages.
pub open spec fn low_signal() -> Seq<&'static str> {
    low_signal_0()
}

pub open spec fn low_signal_0() -> Seq<&'static str> {
    seq!["/tag/", "/category/", "/archive/", "/search/", "/page/", "/index/", "/commit/", "/diff/", "/blob/", "/source/", "/raw/", "/v-", "/rev-"]
}

fn push_low_signal_0(v: &mut Vec<&'static str>)
    ensures
        final(v)@ == old(v)@ + low_signal_0(),
{
    let ghost v0 = v@;
    v.push("/tag/");
    v.push("/category/");
    v.push("/archive/");
    v.push("/search/");
    v.push("/page/");
    v.push("/index/");
    v.push("/commit/");
    v.push("/diff/");
    v.push("/blob/");
    v.push("/source/");
    v.push("/raw/");
    v.push("/v-");
    v.push("/rev-");
    assert(v@ =~= v0 + low_signal_0());
}

fn low_signal_list() -> (v: Vec<&'static str>)
    ensures
        v@ == low_signal(),
{
    let mut v: Vec<&'static str> = Vec::new();
    push_low_signal_0(&mut v);
    assert(v@ =~= low_signal_0());
    v
}

/// The highest-value documentation hosts.
pub open spec fn s_tier() -> Seq<&'static str> {
    s_tier_0()
}

pub open spec fn s_tier_0() -> Seq<&'static str> {
    seq!["docs.rs", "doc.rust-lang.org", "docs.python.org", "en.cppreference.com", "developer.mozilla.org", "en.wikipedia.org"]
}

fn push_s_tier_0(v: &mut Vec<&'static str>)
    ensures
        final(v)@ == old(v)@ + s_tier_0(),
{
    let ghost v0 = v@;
    v.push("docs.rs");
    v.push("doc.rust-lang.org");
    v.push("docs.python.org");
    v.push("en.cppreference.com");
    v.push("developer.mozilla.org");
    v.push("en.wikipedia.org");
    assert(v@ =~= v0 + s_tier_0());
}

fn s_tier_list() -> (v: Vec<&'static str>)
    ensures
        v@ == s_tier(),
{
    let mut v: Vec<&'static str> = Vec::new();
    push_s_tier_0(&mut v);
    assert(v@ =~= s_tier_0());
    v
}

// ---------------------------------------------------------------------------
// Laws
// ---------------------------------------------------------------------------
/// A URL the crawl takes has a host, and that host is on the allowlist; its path does not
/// name a binary file.
pub proof fn law_allowed_url_has_allowed_host(u: UrlView)
    requires
        url_ok(u),
    ensures
        u.host is Some,
        allowed_host(u.host.unwrap()),
        !binary_path(u.path),
{
}

/// The same URL found deeper never scores higher: each hop costs ten points.
pub proof fn law_deeper_scores_lower(u: UrlView, d1: u16, d2: u16)
    requires
        d1 <= d2,
    ensures
        url_score(u, d2) == url_score(u, d1) - 10 * (d2 - d1),
{
}

/// The crawl delay of a host is never below the default, and Wikipedia hosts wait at least
/// 1200 ms.
pub proof fn law_rate_limit_floor(default_ms: u64, host: Seq<char>)
    ensures
        rate_limit_for(default_ms, host) >= default_ms,
        rule_matches(host, "wikipedia.org"@) ==> rate_limit_for(default_ms, host) >= 1200,
{
}


/// A host label: non-empty and without a dot.
pub open spec fn is_label(l: Seq<char>) -> bool {
    l.len() > 0 && !l.contains('.')
}

/// The subdomain `l` of `h`.
pub open spec fn subdomain(l: Seq<char>, h: Seq<char>) -> Seq<char> {
    l + seq!['.'] + h
}

/// A host rule ignores a leading `www.` of the host, and a rule that takes a host (not
/// itself written with `www.`) takes its subdomains.
pub proof fn lemma_rule_www_and_subdomains(h: Seq<char>, l: Seq<char>, rule: Seq<char>)
    requires
        !starts_with(h, "www."@),
        is_label(l),
    ensures
        rule_matches("www."@ + h, rule) == rule_matches(h, rule),
        rule_matches(h, rule) ==> rule_matches(subdomain(l, h), rule),
{
    reveal_strlit("www.");
    reveal_strlit("www");
    let w = "www."@;
    let wh = w + h;
    assert(wh.take(4) =~= w);
    assert(wh.skip(4) =~= h);
    assert(strip_prefix(wh, w) == h);
    assert(strip_prefix(h, w) == h);
    let x = subdomain(l, h);
    let r = strip_prefix(rule, w);
    if rule_matches(h, rule) {
        if l =~= "www"@ {
            assert(x =~= wh);
        } else {
            assert(!starts_with(x, w)) by {
                if starts_with(x, w) {
                    assert(x.take(4) == w);
                    if l.len() >= 4 {
                        assert(x[3] == l[3]);
                        assert(w[3] == '.');
                        assert(l.contains(l[3]));
                    } else if l.len() == 3 {
                        assert forall|i: int| 0 <= i < 3 implies l[i] == "www"@[i] by {
                            assert(x[i] == l[i]);
                            assert(x.take(4)[i] == w[i]);
                        }
                        assert(l =~= "www"@);
                    } else {
                        assert(x[l.len() as int] == '.');
                        assert(x.take(4)[l.len() as int] == w[l.len() as int]);
                    }
                }
            }
            assert(strip_prefix(x, w) == x);
            let d = seq!['.'] + r;
            if h == r {
                assert(x.skip(x.len() - d.len()) =~= d);
            } else {
                assert(ends_with(h, d));
                assert(h.skip(h.len() - d.len()) == d);
                assert(x.skip(x.len() - d.len()) =~= h.skip(h.len() - d.len()));
            }
        }
    }
}

/// The crawl allowlist ignores a leading `www.` of the host and takes every subdomain of a
/// host it takes.
pub proof fn law_allowed_host_www_and_subdomains(h: Seq<char>, l: Seq<char>)
    requires
        !starts_with(h, "www."@),
        is_label(l),
    ensures
        allowed_host("www."@ + h) == allowed_host(h),
        allowed_host(h) ==> allowed_host(subdomain(l, h)),
{
    assert forall|k: int| 0 <= k < allowed_hosts().len() implies rule_matches("www."@ + h, (#[trigger] allowed_hosts()[k])@)
        == rule_matches(h, allowed_hosts()[k]@) && (rule_matches(h, allowed_hosts()[k]@) ==> rule_matches(
        subdomain(l, h),
        allowed_hosts()[k]@,
    )) by {
        lemma_rule_www_and_subdomains(h, l, allowed_hosts()[k]@);
    }
}


/// A URL whose query carries a tracking parameter (`utm_*`, `source`, `ref`, `ref_src`,
/// `fbclid`, `gclid`, `mc_cid`, `mc_eid`) or a wiki or forum view parameter (`action`,
/// `oldid`, `diff`, `lastactivity`, `answertab`, `tab`, `printable`, `veaction`, `search`),
/// in any case, is never crawled.
pub proof fn law_tracking_and_view_params_refused(u: UrlView, k: int)
    requires
        0 <= k < u.pairs.len(),
        ({
            let key = lower(u.pairs[k].0);
            ||| starts_with(key, "utm_"@)
            ||| key == "source"@ || key == "ref"@ || key == "ref_src"@ || key == "fbclid"@
            ||| key == "gclid"@ || key == "mc_cid"@ || key == "mc_eid"@
            ||| key == "action"@ || key == "oldid"@ || key == "diff"@ || key == "lastactivity"@
            ||| key == "answertab"@ || key == "tab"@ || key == "printable"@ || key == "veaction"@
            ||| key == "search"@
        }),
    ensures
        !url_ok(u),
{
    let key = lower(u.pairs[k].0);
    let t = tracking_params();
    let b = blocked_params();
    assert(t[0] == "source" && t[1] == "ref" && t[2] == "ref_src" && t[3] == "fbclid" && t[4] == "gclid"
        && t[5] == "mc_cid" && t[6] == "mc_eid");
    assert(b[0] == "action" && b[1] == "oldid" && b[2] == "diff" && b[3] == "lastactivity" && b[4]
        == "answertab" && b[5] == "tab" && b[6] == "printable" && b[7] == "veaction" && b[8] == "search");
    assert(bad_param(key, lower(u.pairs[k].1)));
    assert(!params_ok(u.pairs));
}


/// A URL whose path names a download (an archive, PDF, image, video, audio file or font,
/// by its extension in any case) is never crawled.
pub proof fn law_download_urls_refused(u: UrlView)
    requires
        ({
            let lp = lower(u.path);
            ||| ends_with(lp, ".tar"@)
            ||| ends_with(lp, ".tar.gz"@)
            ||| ends_with(lp, ".tgz"@)
            ||| ends_with(lp, ".zip"@)
            ||| ends_with(lp, ".7z"@)
            ||| ends_with(lp, ".gz"@)
            ||| ends_with(lp, ".xz"@)
            ||| ends_with(lp, ".bz2"@)
            ||| ends_with(lp, ".pdf"@)
            ||| ends_with(lp, ".png"@)
            ||| ends_with(lp, ".jpg"@)
            ||| ends_with(lp, ".jpeg"@)
            ||| ends_with(lp, ".gif"@)
            ||| ends_with(lp, ".webp"@)
            ||| ends_with(lp, ".svg"@)
            ||| ends_with(lp, ".mp4"@)
            ||| ends_with(lp, ".mp3"@)
            ||| ends_with(lp, ".woff"@)
            ||| ends_with(lp, ".woff2"@)
            ||| ends_with(lp, ".ttf"@)
        }),
    ensures
        !url_ok(u),
{
    let e = binary_extensions();
    assert(e[0] == ".tar" && e[1] == ".tar.gz" && e[2] == ".tgz" && e[3] == ".zip" && e[4] == ".7z" && e[5] == ".gz" && e[6] == ".xz" && e[7] == ".bz2" && e[8] == ".pdf" && e[9] == ".png" && e[10] == ".jpg" && e[11] == ".jpeg" && e[12] == ".gif" && e[13] == ".webp" && e[14] == ".svg" && e[15] == ".mp4" && e[16] == ".mp3" && e[17] == ".woff" && e[18] == ".woff2" && e[19] == ".ttf");
    assert(binary_path(u.path));
}

/// A URL that names a language or locale (`lang=`, `locale=`, or a regional segment such as
/// `/de-de/`, anywhere in it, in any case) is never crawled.
pub proof fn law_language_urls_refused(u: UrlView)
    requires
        ({
            let ls = lower(u.ser);
            ||| contains_sub(ls, "locale="@)
            ||| contains_sub(ls, "lang="@)
            ||| contains_sub(ls, "/zh-cn/"@)
            ||| contains_sub(ls, "/zh-tw/"@)
            ||| contains_sub(ls, "/ja-jp/"@)
            ||| contains_sub(ls, "/ko-kr/"@)
            ||| contains_sub(ls, "/ru-ru/"@)
            ||| contains_sub(ls, "/uk-ua/"@)
            ||| contains_sub(ls, "/it-it/"@)
            ||| contains_sub(ls, "/es-ar/"@)
            ||| contains_sub(ls, "/fr-fr/"@)
            ||| contains_sub(ls, "/de-de/"@)
            ||| contains_sub(ls, "/pt-br/"@)
        }),
    ensures
        !url_ok(u),
{
    let m = lang_markers();
    assert(m[0] == "locale=" && m[1] == "lang=" && m[2] == "/zh-cn/" && m[3] == "/zh-tw/" && m[4] == "/ja-jp/" && m[5] == "/ko-kr/" && m[6] == "/ru-ru/" && m[7] == "/uk-ua/" && m[8] == "/it-it/" && m[9] == "/es-ar/" && m[10] == "/fr-fr/" && m[11] == "/de-de/" && m[12] == "/pt-br/");
    assert(contains_listed(lower(u.ser), lang_markers()));
}

} // verus!
