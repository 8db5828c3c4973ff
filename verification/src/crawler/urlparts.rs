//! The parts of a parsed URL that the crawl policy reads, and the calls into the `url`
//! crate that produce them.
use crate::text::join;
use vstd::prelude::*;

verus! {

/// A URL as the crawler reads it: its full serialization and the components that
/// `url::Url` exposes for it.
#[derive(Clone)]
pub struct UrlParts {
    /// `Url::as_str`
    pub serialization: String,
    /// `Url::scheme`
    pub scheme: String,
    /// `Url::host_str`
    pub host: Option<String>,
    /// `Url::path`
    pub path: String,
    /// `Url::query`
    pub query: Option<String>,
    /// `Url::query_pairs`, percent-decoded, in order
    pub query_pairs: Vec<(String, String)>,
}

/// The mathematical value of a `UrlParts`.
pub struct UrlView {
    pub ser: Seq<char>,
    pub scheme: Seq<char>,
    pub host: Option<Seq<char>>,
    pub path: Seq<char>,
    pub query: Option<Seq<char>>,
    pub pairs: Seq<(Seq<char>, Seq<char>)>,
}

pub open spec fn opt_view(o: Option<String>) -> Option<Seq<char>> {
    match o {
        Some(s) => Some(s@),
        None => None,
    }
}

pub open spec fn pair_views(v: Seq<(String, String)>) -> Seq<(Seq<char>, Seq<char>)> {
    v.map_values(|p: (String, String)| (p.0@, p.1@))
}

impl View for UrlParts {
    type V = UrlView;

    open spec fn view(&self) -> UrlView {
        UrlView {
            ser: self.serialization@,
            scheme: self.scheme@,
            host: opt_view(self.host),
            path: self.path@,
            query: opt_view(self.query),
            pairs: pair_views(self.query_pairs@),
        }
    }
}

impl UrlParts {
    /// The full serialization of the URL.
    pub fn as_str(&self) -> (r: &str)
        ensures
            r@ == self.serialization@,
    {
        self.serialization.as_str()
    }

    /// The host, when the URL has one.
    pub fn host_str(&self) -> (r: Option<&str>)
        ensures
            r is Some <==> self.host is Some,
            r matches Some(h) ==> h@ == self.host.unwrap()@,
    {
        match &self.host {
            Some(h) => Some(h.as_str()),
            None => None,
        }
    }
}

/// What `url::Url::parse` makes of `raw`, read through its accessors; `None` when it
/// rejects `raw`.
pub uninterp spec fn parsed_url(raw: Seq<char>) -> Option<UrlView>;

/// Calls `url::Url::parse` and reads `as_str`, `scheme`, `host_str`, `path`, `query` and
/// `query_pairs` of the result. The contract claims only that the result is a function of
/// `raw` (named `parsed_url`); what the parser accepts and how it normalises is the `url`
/// crate's and is not stated.
#[verifier::external_body]
pub(crate) fn parse_url(raw: &str) -> (r: Option<UrlParts>)
    ensures
        match r {
            Some(p) => parsed_url(raw@) == Some(p@),
            None => parsed_url(raw@) is None,
        },
{
    let u = url::Url::parse(raw).ok()?;
    Some(UrlParts {
        serialization: u.as_str().to_string(),
        scheme: u.scheme().to_string(),
        host: u.host_str().map(|h| h.to_string()),
        path: u.path().to_string(),
        query: u.query().map(|q| q.to_string()),
        query_pairs: u.query_pairs().map(|(k, v)| (k.into_owned(), v.into_owned())).collect(),
    })
}

/// The serialization that results from parsing `raw` and then setting, in this order,
/// the host, user name, password, port, fragment, query and path to the given values;
/// `None` when parsing or one of the fallible setters fails.
pub uninterp spec fn rebuilt_url(
    raw: Seq<char>,
    host: Seq<char>,
    username: Seq<char>,
    password: Option<Seq<char>>,
    port: Option<u16>,
    fragment: Option<Seq<char>>,
    query: Option<Seq<char>>,
    path: Seq<char>,
) -> Option<Seq<char>>;

pub open spec fn opt_str_view(o: Option<&str>) -> Option<Seq<char>> {
    match o {
        Some(s) => Some(s@),
        None => None,
    }
}

/// Parses `raw` with `url::Url::parse` and applies, in this order, `set_host(Some(host))`,
/// `set_username(username)`, `set_password(password)`, `set_port(port)`,
/// `set_fragment(fragment)`, `set_query(query)` and `set_path(path)`, returning `as_str`
/// of the result. The contract claims only that the result is a function of the
/// arguments (named `rebuilt_url`).
#[verifier::external_body]
pub(crate) fn rebuild_url(
    raw: &str,
    host: &str,
    username: &str,
    password: Option<&str>,
    port: Option<u16>,
    fragment: Option<&str>,
    query: Option<&str>,
    path: &str,
) -> (r: Option<String>)
    ensures
        opt_view(r) == rebuilt_url(
            raw@,
            host@,
            username@,
            opt_str_view(password),
            port,
            opt_str_view(fragment),
            opt_str_view(query),
            path@,
        ),
{
    let mut u = url::Url::parse(raw).ok()?;
    u.set_host(Some(host)).ok()?;
    u.set_username(username).ok()?;
    u.set_password(password).ok()?;
    u.set_port(port).ok()?;
    u.set_fragment(fragment);
    u.set_query(query);
    u.set_path(path);
    Some(u.as_str().to_string())
}

/// The bytes the form serializer copies as they are: ASCII letters and digits and `*-._`.
pub open spec fn form_unchanged(b: u8) -> bool {
    b == 42 || b == 45 || b == 46 || b == 95 || (48 <= b <= 57) || (65 <= b <= 90) || (97 <= b <= 122)
}

/// An upper-case hexadecimal digit.
pub open spec fn hex_digit(n: u8) -> char {
    if n < 10 {
        (48 + n) as char
    } else {
        (55 + n) as char
    }
}

/// One byte serialized: kept, a space as `+`, anything else as `%` and two upper-case
/// hexadecimal digits.
pub open spec fn form_byte(b: u8) -> Seq<char> {
    if form_unchanged(b) {
        seq![b as char]
    } else if b == 32 {
        seq!['+']
    } else {
        seq!['%', hex_digit(b / 16), hex_digit(b % 16)]
    }
}

/// The bytes serialized one after the other.
pub open spec fn form_bytes(bs: Seq<u8>) -> Seq<char>
    decreases bs.len(),
{
    if bs.len() == 0 {
        Seq::empty()
    } else {
        form_bytes(bs.drop_last()) + form_byte(bs.last())
    }
}

/// One pair: the UTF-8 bytes of the name serialized, `=`, and those of the value.
pub open spec fn form_pair(p: (Seq<char>, Seq<char>)) -> Seq<char> {
    form_bytes(vstd::utf8::encode_utf8(p.0)) + seq!['='] + form_bytes(vstd::utf8::encode_utf8(p.1))
}

/// The `application/x-www-form-urlencoded` serialization of the pairs, in order, joined
/// by `&`.
pub open spec fn form_encoded(pairs: Seq<(Seq<char>, Seq<char>)>) -> Seq<char> {
    join(pairs.map_values(|p: (Seq<char>, Seq<char>)| form_pair(p)), seq!['&'])
}

/// Serializes the pairs, in order, with `url::form_urlencoded::Serializer::extend_pairs`
/// and `finish`. The contract claims what the `form_urlencoded` source does: each pair is
/// appended as its serialized name, `=` and its serialized value, with `&` before every
/// pair but the first; a name or value is serialized byte by byte from its UTF-8 encoding
/// (`byte_serialize`: ASCII letters, digits and `*-._` kept, a space as `+`, any other byte
/// as `%XX` in upper-case hexadecimal, `percent_encode_byte`).
#[verifier::external_body]
pub(crate) fn encode_pairs(pairs: &Vec<(String, String)>) -> (r: String)
    ensures
        r@ == form_encoded(pair_views(pairs@)),
{
    url::form_urlencoded::Serializer::new(String::new()).extend_pairs(pairs.iter()).finish()
}

/// The URL that `url::Url::join` resolves `href` to against the base URL serialized as
/// `base`, as its serialization; `None` when `base` does not parse or the join fails.
pub uninterp spec fn joined_url(base: Seq<char>, href: Seq<char>) -> Option<Seq<char>>;

/// Parses `base` with `url::Url::parse`, joins `href` onto it with `Url::join` and returns
/// `as_str` of the result. The contract claims only that the result is a function of the
/// arguments (named `joined_url`).
#[verifier::external_body]
pub(crate) fn join_url(base: &str, href: &str) -> (r: Option<String>)
    ensures
        opt_view(r) == joined_url(base@, href@),
{
    let b = url::Url::parse(base).ok()?;
    Some(b.join(href).ok()?.as_str().to_string())
}

} // verus!
