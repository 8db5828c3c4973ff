//! Regular-expression searches, through the `regex` crate.
use crate::text::views;
use vstd::prelude::*;

verus! {

/// The text of every non-overlapping match of `pattern` in `text`, left to right; `None`
/// when `pattern` is not a valid expression.
pub uninterp spec fn regex_find_all(pattern: Seq<char>, text: Seq<char>) -> Option<Seq<Seq<char>>>;

/// The text of the first capture group of every non-overlapping match of `pattern` in
/// `text`, left to right (`None` for a match where the group did not take part); `None`
/// when `pattern` is not a valid expression.
pub uninterp spec fn regex_first_groups(pattern: Seq<char>, text: Seq<char>) -> Option<Seq<Option<Seq<char>>>>;

pub open spec fn group_views(v: Seq<Option<String>>) -> Seq<Option<Seq<char>>> {
    v.map_values(|g: Option<String>| match g {
        Some(s) => Some(s@),
        None => None,
    })
}

pub open spec fn opt_views(o: Option<Vec<String>>) -> Option<Seq<Seq<char>>> {
    match o {
        Some(v) => Some(views(v@)),
        None => None,
    }
}

/// Compiles `pattern` with `regex::Regex::new` and collects `find_iter` over `text`. The
/// contract claims only that the result is a function of the two strings (named
/// `regex_find_all`); the matching is the crate's.
#[verifier::external_body]
pub(crate) fn find_all(pattern: &str, text: &str) -> (r: Option<Vec<String>>)
    ensures
        opt_views(r) == regex_find_all(pattern@, text@),
{
    let re = regex::Regex::new(pattern).ok()?;
    Some(re.find_iter(text).map(|m| m.as_str().to_string()).collect())
}

/// Compiles `pattern` with `regex::Regex::new` and collects, for each item of
/// `captures_iter` over `text`, group 1 (`Captures::get(1)`) as text. The contract claims
/// only that the result is a function of the two strings (named `regex_first_groups`).
#[verifier::external_body]
pub(crate) fn first_groups(pattern: &str, text: &str) -> (r: Option<Vec<Option<String>>>)
    ensures
        match r {
            Some(v) => regex_first_groups(pattern@, text@) == Some(group_views(v@)),
            None => regex_first_groups(pattern@, text@) is None,
        },
{
    let re = regex::Regex::new(pattern).ok()?;
    Some(re.captures_iter(text).map(|c| c.get(1).map(|g| g.as_str().to_string())).collect())
}

} // verus!
