//! robots.txt rules: reading the disallow list for the wildcard user agent, and testing a
//! path against it.
use crate::text::{
    chars_to_string, eq_lit, has_prefix, is_upper, is_ws, join, join_range, lead, lemma_lead_bounds,
    lemma_trim_bounds, lemma_trim_idempotent, lower, lower_char, lower_chars, starts_with, to_chars,
    trail, trim, trim_chars, views,
};
use vstd::prelude::*;

verus! {

/// The pieces of `s` between newlines (`s.split('\n')`).
pub open spec fn split_lines(s: Seq<char>) -> Seq<Seq<char>>
    decreases s.len(),
{
    if s.len() == 0 {
        seq![Seq::empty()]
    } else {
        let rest = split_lines(s.drop_last());
        if s.last() == '\n' {
            rest.push(Seq::empty())
        } else {
            rest.update(rest.len() - 1, rest.last().push(s.last()))
        }
    }
}

proof fn lemma_split_lines_nonempty(s: Seq<char>)
    ensures
        split_lines(s).len() > 0,
    decreases s.len(),
{
    if s.len() > 0 {
        lemma_split_lines_nonempty(s.drop_last());
    }
}

/// The part of a line before its first `:` (all of it when it has none).
pub open spec fn before_colon(line: Seq<char>) -> Seq<char>
    decreases line.len(),
{
    if line.len() == 0 {
        line
    } else if line[0] == ':' {
        Seq::empty()
    } else {
        seq![line[0]] + before_colon(line.drop_first())
    }
}

/// The part of a line after its first `:` (empty when it has none).
pub open spec fn after_colon(line: Seq<char>) -> Seq<char>
    decreases line.len(),
{
    if line.len() == 0 {
        line
    } else if line[0] == ':' {
        line.drop_first()
    } else {
        after_colon(line.drop_first())
    }
}

/// The disallow rules found in `lines[i..]` when the current user-agent group is (or is not)
/// the wildcard group.
pub open spec fn rules_from(lines: Seq<Seq<char>>, i: int, wildcard: bool) -> Seq<Seq<char>>
    decreases lines.len() - i,
{
    if i < 0 || i >= lines.len() {
        Seq::empty()
    } else {
        let line = trim(lines[i]);
        if line.len() == 0 || line[0] == '#' {
            rules_from(lines, i + 1, wildcard)
        } else {
            let key = lower(trim(before_colon(line)));
            let value = trim(after_colon(line));
            if key == "user-agent"@ {
                rules_from(lines, i + 1, value == "*"@)
            } else if key == "disallow"@ && wildcard && value.len() > 0 {
                seq![value] + rules_from(lines, i + 1, wildcard)
            } else {
                rules_from(lines, i + 1, wildcard)
            }
        }
    }
}

/// The `Disallow` values of the `User-agent: *` groups of a robots.txt, in order.
pub open spec fn robots_rules(txt: Seq<char>) -> Seq<Seq<char>> {
    rules_from(split_lines(txt), 0, false)
}

/// Splits a line at its first `:`.
fn split_key_value(line: &[char]) -> (r: (Vec<char>, Vec<char>))
    ensures
        r.0@ == before_colon(line@),
        r.1@ == after_colon(line@),
{
    let mut i: usize = 0;
    let mut key: Vec<char> = Vec::new();
    assert(line@.skip(0) =~= line@);
    assert(key@ + before_colon(line@) =~= before_colon(line@));
    while i < line.len() && line[i] != ':'
        invariant
            i <= line.len(),
            key@ + before_colon(line@.skip(i as int)) == before_colon(line@),
            after_colon(line@.skip(i as int)) == after_colon(line@),
        decreases line.len() - i,
    {
        proof {
            assert(line@.skip(i as int).drop_first() =~= line@.skip(i + 1));
            assert(line@.skip(i as int)[0] == line@[i as int]);
        }
        let ghost k0 = key@;
        key.push(line[i]);
        proof {
            assert(key@ + before_colon(line@.skip(i + 1)) =~= k0 + (seq![line@[i as int]]
                + before_colon(line@.skip(i + 1))));
        }
        i = i + 1;
    }
    let mut value: Vec<char> = Vec::new();
    if i < line.len() {
        let mut j = i + 1;
        while j < line.len()
            invariant
                i < j <= line.len(),
                value@ == line@.subrange(i + 1, j as int),
            decreases line.len() - j,
        {
            value.push(line[j]);
            j = j + 1;
            assert(value@ =~= line@.subrange(i + 1, j as int));
        }
        proof {
            assert(line@.skip(i as int)[0] == ':');
            assert(line@.skip(i as int).drop_first() =~= line@.subrange(i + 1, line@.len() as int));
            assert(before_colon(line@.skip(i as int)) =~= Seq::<char>::empty());
            assert(key@ + Seq::<char>::empty() =~= key@);
        }
    } else {
        proof {
            assert(line@.skip(i as int) =~= Seq::<char>::empty());
            assert(key@ + Seq::<char>::empty() =~= key@);
            assert(value@ =~= Seq::<char>::empty());
        }
    }
    (key, value)
}

pub open spec fn char_views(v: Seq<Vec<char>>) -> Seq<Seq<char>> {
    v.map_values(|l: Vec<char>| l@)
}

/// The lines of the text, split at newlines.
fn split_lines_exec(chars: &[char]) -> (r: Vec<Vec<char>>)
    ensures
        char_views(r@) == split_lines(chars@),
{
    let mut lines: Vec<Vec<char>> = Vec::new();
    lines.push(Vec::new());
    let mut i: usize = 0;
    proof {
        assert(chars@.take(0) =~= Seq::<char>::empty());
        assert(char_views(lines@) =~= seq![Seq::<char>::empty()]);
    }
    while i < chars.len()
        invariant
            i <= chars.len(),
            lines@.len() > 0,
            char_views(lines@) == split_lines(chars@.take(i as int)),
        decreases chars.len() - i,
    {
        let ghost before = char_views(lines@);
        proof {
            assert(chars@.take(i + 1).drop_last() =~= chars@.take(i as int));
            assert(chars@.take(i + 1).last() == chars@[i as int]);
        }
        if chars[i] == '\n' {
            lines.push(Vec::new());
            assert(char_views(lines@) =~= before.push(Seq::<char>::empty()));
        } else {
            let last = lines.len() - 1;
            let mut cur = lines.pop().unwrap();
            let ghost c0 = cur@;
            cur.push(chars[i]);
            lines.push(cur);
            assert(char_views(lines@) =~= before.update(last as int, before.last().push(chars@[i as int])));
        }
        i = i + 1;
    }
    assert(chars@.take(chars@.len() as int) =~= chars@);
    lines
}

/// The disallow rules of the wildcard user agent in a robots.txt body.
pub fn parse_robots_txt(txt: &str) -> (r: Vec<String>)
    ensures
        views(r@) == robots_rules(txt@),
{
    let chars = to_chars(txt);
    let lines = split_lines_exec(chars.as_slice());
    let ghost ls = char_views(lines@);
    let mut out: Vec<String> = Vec::new();
    let mut wildcard = false;
    let mut k: usize = 0;
    assert(views(out@) + rules_from(ls, 0, false) =~= rules_from(ls, 0, false));
    while k < lines.len()
        invariant
            k <= lines.len(),
            ls == char_views(lines@),
            ls == split_lines(txt@),
            views(out@) + rules_from(ls, k as int, wildcard) == robots_rules(txt@),
        decreases lines.len() - k,
    {
        let ghost before = views(out@);
        let t = trim_chars(lines[k].as_slice());
        assert(ls[k as int] == lines@[k as int]@);
        if t.len() > 0 && t[0] != '#' {
            let (kk, v) = split_key_value(t.as_slice());
            let key = lower_chars(trim_chars(kk.as_slice()).as_slice());
            let value = trim_chars(v.as_slice());
            if eq_lit(key.as_slice(), "user-agent") {
                wildcard = eq_lit(value.as_slice(), "*");
            } else if eq_lit(key.as_slice(), "disallow") && wildcard && value.len() > 0 {
                out.push(chars_to_string(value.as_slice()));
                assert(views(out@) =~= before.push(value@));
                assert(before + (seq![value@] + rules_from(ls, k + 1, wildcard)) =~= views(out@)
                    + rules_from(ls, k + 1, wildcard));
            }
        }
        k = k + 1;
    }
    assert(views(out@) + rules_from(ls, k as int, wildcard) =~= views(out@));
    out
}

/// The non-empty trimmed lines of a stored rule list.
pub open spec fn stored_rules(s: Seq<char>) -> Seq<Seq<char>> {
    nonempty_trimmed(split_lines(s), 0)
}

pub open spec fn nonempty_trimmed(lines: Seq<Seq<char>>, i: int) -> Seq<Seq<char>>
    decreases lines.len() - i,
{
    if i < 0 || i >= lines.len() {
        Seq::empty()
    } else if trim(lines[i]).len() == 0 {
        nonempty_trimmed(lines, i + 1)
    } else {
        seq![trim(lines[i])] + nonempty_trimmed(lines, i + 1)
    }
}

/// Reads a rule list stored one rule per line: each line trimmed, blank lines dropped.
pub fn parse_stored_rules(stored: &str) -> (r: Vec<String>)
    ensures
        views(r@) == stored_rules(stored@),
{
    let chars = to_chars(stored);
    let lines = split_lines_exec(chars.as_slice());
    let ghost ls = char_views(lines@);
    let mut out: Vec<String> = Vec::new();
    let mut k: usize = 0;
    assert(views(out@) + nonempty_trimmed(ls, 0) =~= nonempty_trimmed(ls, 0));
    while k < lines.len()
        invariant
            k <= lines.len(),
            ls == char_views(lines@),
            ls == split_lines(stored@),
            views(out@) + nonempty_trimmed(ls, k as int) == stored_rules(stored@),
        decreases lines.len() - k,
    {
        let ghost before = views(out@);
        let t = trim_chars(lines[k].as_slice());
        assert(ls[k as int] == lines@[k as int]@);
        if t.len() > 0 {
            out.push(chars_to_string(t.as_slice()));
            assert(views(out@) =~= before.push(t@));
            assert(before + (seq![t@] + nonempty_trimmed(ls, k + 1)) =~= views(out@)
                + nonempty_trimmed(ls, k + 1));
        }
        k = k + 1;
    }
    assert(views(out@) + nonempty_trimmed(ls, k as int) =~= views(out@));
    out
}

/// `path` is allowed unless a non-empty rule is a prefix of it.
pub open spec fn path_allowed(path: Seq<char>, rules: Seq<Seq<char>>) -> bool {
    !exists|k: int| 0 <= k < rules.len() && rules[k].len() > 0 && starts_with(path, #[trigger] rules[k])
}

/// Return true if `path` is allowed to crawl given the disallow list.
pub fn is_allowed(path: &str, disallowed: &[String]) -> (r: bool)
    ensures
        r == path_allowed(path@, views(disallowed@)),
{
    let p = to_chars(path);
    let ghost rs = views(disallowed@);
    let mut k: usize = 0;
    while k < disallowed.len()
        invariant
            k <= disallowed.len(),
            rs == views(disallowed@),
            p@ == path@,
            forall|j: int| 0 <= j < k ==> !(rs[j].len() > 0 && starts_with(path@, #[trigger] rs[j])),
        decreases disallowed.len() - k,
    {
        let rule = to_chars(disallowed[k].as_str());
        assert(rs[k as int] == disallowed@[k as int]@);
        if rule.len() > 0 && has_prefix(p.as_slice(), rule.as_slice()) {
            return false;
        }
        k = k + 1;
    }
    true
}


/// Without rules every path is allowed.
pub proof fn law_no_rules_allow_all(path: Seq<char>)
    ensures
        path_allowed(path, Seq::empty()),
{
}

/// A path that starts with a non-empty rule is blocked, whatever the other rules say.
pub proof fn law_rule_prefix_blocks(path: Seq<char>, rules: Seq<Seq<char>>, k: int)
    requires
        0 <= k < rules.len(),
        rules[k].len() > 0,
        starts_with(path, rules[k]),
    ensures
        !path_allowed(path, rules),
{
}

/// Joining two rule lists allows a path exactly when both lists allow it: adding rules
/// never allows a path again.
pub proof fn law_joined_rules(path: Seq<char>, a: Seq<Seq<char>>, b: Seq<Seq<char>>)
    ensures
        path_allowed(path, a + b) == (path_allowed(path, a) && path_allowed(path, b)),
{
    let ab = a + b;
    if !path_allowed(path, a) {
        let k = choose|k: int| 0 <= k < a.len() && a[k].len() > 0 && starts_with(path, #[trigger] a[k]);
        assert(ab[k] == a[k]);
    }
    if !path_allowed(path, b) {
        let k = choose|k: int| 0 <= k < b.len() && b[k].len() > 0 && starts_with(path, #[trigger] b[k]);
        assert(ab[a.len() + k] == b[k]);
    }
    if !path_allowed(path, ab) {
        let k = choose|k: int| 0 <= k < ab.len() && ab[k].len() > 0 && starts_with(path, #[trigger] ab[k]);
        if k < a.len() {
            assert(ab[k] == a[k]);
        } else {
            assert(ab[k] == b[k - a.len()]);
        }
    }
}


/// The form a rule list is stored in: one rule per line.
pub open spec fn stored_form(rules: Seq<Seq<char>>) -> Seq<char> {
    join(rules, seq!['\n'])
}

/// Write a rule list in its stored form (see `stored_form`).
pub fn store_rules(rules: &[String]) -> (r: String)
    ensures
        r@ == stored_form(views(rules@)),
{
    let r = join_range(rules, 0, rules.len(), "\n");
    proof {
        reveal_strlit("\n");
        assert("\n"@ =~= seq!['\n']);
        assert(rules@.subrange(0, rules@.len() as int) =~= rules@);
    }
    r
}

/// `s` holds no newline.
pub open spec fn one_line(s: Seq<char>) -> bool {
    !s.contains('\n')
}

proof fn lemma_split_one_line(s: Seq<char>)
    requires
        one_line(s),
    ensures
        split_lines(s) == seq![s],
    decreases s.len(),
{
    if s.len() > 0 {
        let p = s.drop_last();
        assert(one_line(p)) by {
            if p.contains('\n') {
                let k = choose|k: int| 0 <= k < p.len() && p[k] == '\n';
                assert(s[k] == '\n');
            }
        }
        lemma_split_one_line(p);
        assert(s.last() != '\n') by {
            assert(s[s.len() - 1] == s.last());
        }
        assert(p.push(s.last()) =~= s);
    } else {
        assert(s =~= Seq::<char>::empty());
    }
}

proof fn lemma_split_append_one_line(x: Seq<char>, b: Seq<char>)
    requires
        one_line(b),
    ensures
        split_lines(x + b) == split_lines(x).update(
            split_lines(x).len() - 1,
            split_lines(x).last() + b,
        ),
    decreases b.len(),
{
    lemma_split_lines_nonempty(x);
    let sx = split_lines(x);
    if b.len() == 0 {
        assert(x + b =~= x);
        assert(sx.last() + b =~= sx.last());
        assert(sx.update(sx.len() - 1, sx.last()) =~= sx);
    } else {
        let bp = b.drop_last();
        assert(one_line(bp)) by {
            if bp.contains('\n') {
                let k = choose|k: int| 0 <= k < bp.len() && bp[k] == '\n';
                assert(b[k] == '\n');
            }
        }
        lemma_split_append_one_line(x, bp);
        let c = b.last();
        assert(c != '\n') by {
            assert(b[b.len() - 1] == c);
        }
        assert((x + b).drop_last() =~= x + bp);
        assert((x + b).last() == c);
        lemma_split_lines_nonempty(x + bp);
        let r = split_lines(x + bp);
        assert(r.len() == sx.len());
        assert(r.last() == sx.last() + bp);
        assert(split_lines(x + b) == r.update(r.len() - 1, r.last().push(c)));
        assert(r.last().push(c) =~= sx.last() + b);
        assert(r.update(r.len() - 1, r.last().push(c)) =~= sx.update(sx.len() - 1, sx.last() + b));
    }
}

proof fn lemma_split_join(rules: Seq<Seq<char>>)
    requires
        rules.len() > 0,
        forall|k: int| 0 <= k < rules.len() ==> one_line(#[trigger] rules[k]),
    ensures
        split_lines(join(rules, seq!['\n'])) == rules,
    decreases rules.len(),
{
    if rules.len() == 1 {
        lemma_split_one_line(rules[0]);
        assert(seq![rules[0]] =~= rules);
    } else {
        let p = rules.drop_last();
        assert forall|k: int| 0 <= k < p.len() implies one_line(#[trigger] p[k]) by {
            assert(p[k] == rules[k]);
        }
        lemma_split_join(p);
        let a = join(p, seq!['\n']);
        let b = rules.last();
        assert(one_line(b)) by {
            assert(rules[rules.len() - 1] == b);
        }
        assert(join(rules, seq!['\n']) == a + seq!['\n'] + b);
        let an = a + seq!['\n'];
        assert(an.drop_last() =~= a);
        assert(an.last() == '\n');
        assert(split_lines(an) == p.push(Seq::<char>::empty()));
        lemma_split_append_one_line(an, b);
        let sa = p.push(Seq::<char>::empty());
        assert(Seq::<char>::empty() + b =~= b);
        assert(sa.update(sa.len() - 1, sa.last() + b) =~= rules);
    }
}

proof fn lemma_nonempty_trimmed_identity(rules: Seq<Seq<char>>, i: int)
    requires
        0 <= i <= rules.len(),
        forall|k: int| 0 <= k < rules.len() ==> (#[trigger] rules[k]).len() > 0 && trim(rules[k]) == rules[k],
    ensures
        nonempty_trimmed(rules, i) == rules.skip(i),
    decreases rules.len() - i,
{
    if i < rules.len() {
        lemma_nonempty_trimmed_identity(rules, i + 1);
        assert(rules[i].len() > 0 && trim(rules[i]) == rules[i]);
        assert(seq![rules[i]] + rules.skip(i + 1) =~= rules.skip(i));
    } else {
        assert(rules.skip(i) =~= Seq::<Seq<char>>::empty());
    }
}

/// Rules written to the store are read back as they were: a list of non-empty, trimmed,
/// one-line rules survives `store_rules` followed by `parse_stored_rules`.
pub proof fn law_stored_rules_round_trip(rules: Seq<Seq<char>>)
    requires
        forall|k: int|
            0 <= k < rules.len() ==> (#[trigger] rules[k]).len() > 0 && trim(rules[k]) == rules[k]
                && one_line(rules[k]),
    ensures
        stored_rules(stored_form(rules)) == rules,
{
    if rules.len() == 0 {
        let e = Seq::<char>::empty();
        assert(stored_form(rules) == e);
        assert(split_lines(e) == seq![e]);
        assert(lead(e, 0) == 0);
        assert(trim(e).len() == 0);
        assert(nonempty_trimmed(seq![e], 1) == Seq::<Seq<char>>::empty());
        assert(nonempty_trimmed(seq![e], 0) =~= rules);
    } else {
        lemma_split_join(rules);
        lemma_nonempty_trimmed_identity(rules, 0);
        assert(rules.skip(0) =~= rules);
    }
}


proof fn lemma_split_lines_one_line(s: Seq<char>)
    ensures
        forall|k: int| 0 <= k < split_lines(s).len() ==> one_line(#[trigger] split_lines(s)[k]),
    decreases s.len(),
{
    if s.len() > 0 {
        let p = s.drop_last();
        lemma_split_lines_one_line(p);
        lemma_split_lines_nonempty(p);
        let rest = split_lines(p);
        let c = s.last();
        if c != '\n' {
            let l = rest.last().push(c);
            assert(one_line(rest[rest.len() - 1]));
            assert(one_line(l)) by {
                if l.contains('\n') {
                    let k = choose|k: int| 0 <= k < l.len() && l[k] == '\n';
                    if k < l.len() - 1 {
                        assert(rest.last()[k] == '\n');
                        assert(rest.last().contains('\n'));
                    }
                }
            }
            let r = rest.update(rest.len() - 1, l);
            assert forall|k: int| 0 <= k < r.len() implies one_line(#[trigger] r[k]) by {
                if k < rest.len() - 1 {
                    assert(r[k] == rest[k]);
                }
            }
        } else {
            let r = rest.push(Seq::<char>::empty());
            assert forall|k: int| 0 <= k < r.len() implies one_line(#[trigger] r[k]) by {
                if k < rest.len() {
                    assert(r[k] == rest[k]);
                } else {
                    assert(!Seq::<char>::empty().contains('\n'));
                }
            }
        }
    }
}

proof fn lemma_after_colon_one_line(line: Seq<char>)
    requires
        one_line(line),
    ensures
        one_line(after_colon(line)),
    decreases line.len(),
{
    if line.len() > 0 {
        let d = line.drop_first();
        assert(one_line(d)) by {
            if d.contains('\n') {
                let k = choose|k: int| 0 <= k < d.len() && d[k] == '\n';
                assert(line[k + 1] == '\n');
            }
        }
        if line[0] != ':' {
            lemma_after_colon_one_line(d);
        }
    }
}

proof fn lemma_rules_from_storable(lines: Seq<Seq<char>>, i: int, wildcard: bool)
    requires
        forall|k: int| 0 <= k < lines.len() ==> one_line(#[trigger] lines[k]),
    ensures
        forall|k: int|
            0 <= k < rules_from(lines, i, wildcard).len() ==> {
                let r = #[trigger] rules_from(lines, i, wildcard)[k];
                r.len() > 0 && trim(r) == r && one_line(r)
            },
    decreases lines.len() - i,
{
    if 0 <= i < lines.len() {
        let line = trim(lines[i]);
        if line.len() == 0 || line[0] == '#' {
            lemma_rules_from_storable(lines, i + 1, wildcard);
            assert(rules_from(lines, i, wildcard) == rules_from(lines, i + 1, wildcard));
        } else {
            let key = lower(trim(before_colon(line)));
            let value = trim(after_colon(line));
            if key == "user-agent"@ {
                lemma_rules_from_storable(lines, i + 1, value == "*"@);
                assert(rules_from(lines, i, wildcard) == rules_from(lines, i + 1, value == "*"@));
            } else if key == "disallow"@ && wildcard && value.len() > 0 {
                lemma_rules_from_storable(lines, i + 1, wildcard);
                assert(one_line(lines[i]));
                lemma_trim_idempotent(lines[i]);
                assert(one_line(line));
                lemma_after_colon_one_line(line);
                lemma_trim_idempotent(after_colon(line));
                assert(one_line(value));
                let rest = rules_from(lines, i + 1, wildcard);
                let all = seq![value] + rest;
                assert forall|k: int| 0 <= k < all.len() implies {
                    let r = #[trigger] all[k];
                    r.len() > 0 && trim(r) == r && one_line(r)
                } by {
                    if k > 0 {
                        assert(all[k] == rest[k - 1]);
                    }
                }
                assert(rules_from(lines, i, wildcard) == all);
            } else {
                lemma_rules_from_storable(lines, i + 1, wildcard);
                assert(rules_from(lines, i, wildcard) == rules_from(lines, i + 1, wildcard));
            }
        }
    }
}

/// The rules read from a robots.txt can be stored and read back unchanged: each is
/// non-empty, trimmed and on one line, so `law_stored_rules_round_trip` applies to them.
pub proof fn law_parsed_rules_round_trip(txt: Seq<char>)
    ensures
        forall|k: int|
            0 <= k < robots_rules(txt).len() ==> {
                let r = #[trigger] robots_rules(txt)[k];
                r.len() > 0 && trim(r) == r && one_line(r)
            },
        stored_rules(stored_form(robots_rules(txt))) == robots_rules(txt),
{
    lemma_split_lines_one_line(txt);
    lemma_rules_from_storable(split_lines(txt), 0, false);
    law_stored_rules_round_trip(robots_rules(txt));
}


// ---------------------------------------------------------------------------
// Directive keys are read without regard to case
// ---------------------------------------------------------------------------
/// The two texts differ at most in ASCII letter case, character by character.
pub open spec fn same_but_case(x: Seq<char>, y: Seq<char>) -> bool {
    &&& x.len() == y.len()
    &&& forall|j: int| 0 <= j < x.len() ==> lower_char(#[trigger] x[j]) == lower_char(y[j])
}

/// The two lines differ at most in the letter case of their directive key: they agree up to
/// ASCII case, and exactly after their first `:`.
pub open spec fn key_case_only(a: Seq<char>, b: Seq<char>) -> bool {
    same_but_case(a, b) && after_colon(a) == after_colon(b)
}

proof fn lemma_case_class(c: char, d: char)
    requires
        lower_char(c) == lower_char(d),
    ensures
        is_ws(c) == is_ws(d),
        (c == ':') == (d == ':'),
        (c == '#') == (d == '#'),
{
    if c != d {
        if is_upper(c) {
            assert('a' <= lower_char(c) <= 'z');
        }
        if is_upper(d) {
            assert('a' <= lower_char(d) <= 'z');
        }
    }
}

proof fn lemma_lead_same(x: Seq<char>, y: Seq<char>, i: int)
    requires
        same_but_case(x, y),
    ensures
        lead(x, i) == lead(y, i),
    decreases x.len() - i,
{
    if 0 <= i < x.len() {
        lemma_case_class(x[i], y[i]);
        lemma_lead_same(x, y, i + 1);
    }
}

proof fn lemma_trail_same(x: Seq<char>, y: Seq<char>, j: int)
    requires
        same_but_case(x, y),
    ensures
        trail(x, j) == trail(y, j),
    decreases j,
{
    if 0 < j <= x.len() {
        lemma_case_class(x[j - 1], y[j - 1]);
        lemma_trail_same(x, y, j - 1);
    }
}

proof fn lemma_trim_same(x: Seq<char>, y: Seq<char>)
    requires
        same_but_case(x, y),
    ensures
        same_but_case(trim(x), trim(y)),
        trim(x).len() == 0 || lead(x, 0) < trail(x, x.len() as int) <= x.len(),
        trim(x).len() > 0 ==> trim(x) == x.subrange(lead(x, 0), trail(x, x.len() as int)),
        trim(y).len() > 0 ==> trim(y) == y.subrange(lead(x, 0), trail(x, x.len() as int)),
        trim(x).len() == trim(y).len(),
{
    lemma_lead_same(x, y, 0);
    lemma_trail_same(x, y, x.len() as int);
    lemma_trim_bounds(x);
    lemma_lead_bounds(x, 0);
    let tx = trim(x);
    let ty = trim(y);
    if lead(x, 0) < x.len() {
        let a = lead(x, 0);
        let b = trail(x, x.len() as int);
        assert(a < b <= x.len());
        let sx = x.subrange(a, b);
        let sy = y.subrange(a, b);
        assert forall|j: int| 0 <= j < sx.len() implies lower_char(#[trigger] sx[j]) == lower_char(sy[j]) by {
            assert(sx[j] == x[a + j]);
            assert(sy[j] == y[a + j]);
        }
        assert(same_but_case(sx, sy));
        assert(tx == sx);
        assert(ty == sy);
    }
}

proof fn lemma_lower_same(x: Seq<char>, y: Seq<char>)
    requires
        same_but_case(x, y),
    ensures
        lower(x) == lower(y),
{
    assert(lower(x) =~= lower(y));
}

/// `before_colon` is the part before the first `:`, and `after_colon` what follows it.
proof fn lemma_colon_split(x: Seq<char>)
    ensures
        before_colon(x).len() <= x.len(),
        before_colon(x) == x.take(before_colon(x).len() as int),
        forall|j: int| 0 <= j < before_colon(x).len() ==> #[trigger] x[j] != ':',
        before_colon(x).len() < x.len() ==> x[before_colon(x).len() as int] == ':' && after_colon(x)
            == x.skip(before_colon(x).len() + 1int),
        before_colon(x).len() == x.len() ==> after_colon(x).len() == 0,
    decreases x.len(),
{
    if x.len() > 0 {
        if x[0] == ':' {
            assert(x.take(0) =~= Seq::<char>::empty());
            assert(x.drop_first() =~= x.skip(1));
        } else {
            let r = x.drop_first();
            lemma_colon_split(r);
            let b = before_colon(x);
            assert(b =~= seq![x[0]] + before_colon(r));
            assert(b =~= x.take(b.len() as int));
            assert forall|j: int| 0 <= j < b.len() implies #[trigger] x[j] != ':' by {
                if j > 0 {
                    assert(x[j] == r[j - 1]);
                }
            }
            if b.len() < x.len() {
                assert(x[b.len() as int] == r[b.len() - 1]);
                assert(r.skip(before_colon(r).len() + 1int) =~= x.skip(b.len() + 1int));
            }
        }
    }
}

/// The first `:` of a line is at `k`.
proof fn lemma_first_colon(x: Seq<char>, k: int)
    requires
        0 <= k < x.len(),
        x[k] == ':',
        forall|j: int| 0 <= j < k ==> x[j] != ':',
    ensures
        before_colon(x).len() == k,
        after_colon(x) == x.skip(k + 1),
{
    lemma_colon_split(x);
    let m = before_colon(x).len() as int;
    if m < k {
        assert(x[m] == ':');
    } else if m > k {
        assert(x[k] != ':');
    }
}

proof fn lemma_colon_same(x: Seq<char>, y: Seq<char>)
    requires
        same_but_case(x, y),
    ensures
        before_colon(x).len() == before_colon(y).len(),
        same_but_case(before_colon(x), before_colon(y)),
{
    lemma_colon_split(x);
    lemma_colon_split(y);
    let m = before_colon(x).len() as int;
    let n = before_colon(y).len() as int;
    if m < n {
        lemma_case_class(x[m], y[m]);
        assert(y[m] != ':');
    } else if n < m {
        lemma_case_class(x[n], y[n]);
        assert(x[n] != ':');
    }
    assert forall|j: int| 0 <= j < m implies lower_char(#[trigger] before_colon(x)[j]) == lower_char(before_colon(y)[j]) by {
        assert(before_colon(x)[j] == x[j]);
        assert(before_colon(y)[j] == y[j]);
    }
}

/// Two lines that differ only in the case of their key are read alike: both blank or
/// comments, or with the same lower-cased key and the same value.
proof fn lemma_line_alike(a: Seq<char>, b: Seq<char>)
    requires
        key_case_only(a, b),
    ensures
        ({
            let la = trim(a);
            let lb = trim(b);
            &&& (la.len() == 0 || la[0] == '#') == (lb.len() == 0 || lb[0] == '#')
            &&& (la.len() > 0 && la[0] != '#') ==> {
                &&& lower(trim(before_colon(la))) == lower(trim(before_colon(lb)))
                &&& trim(after_colon(la)) == trim(after_colon(lb))
            }
        }),
{
    let la = trim(a);
    let lb = trim(b);
    lemma_trim_same(a, b);
    if la.len() > 0 {
        lemma_case_class(la[0], lb[0]);
        lemma_colon_same(la, lb);
        lemma_trim_same(before_colon(la), before_colon(lb));
        lemma_lower_same(trim(before_colon(la)), trim(before_colon(lb)));
        lemma_colon_split(la);
        lemma_colon_split(lb);
        let p = lead(a, 0);
        let q = trail(a, a.len() as int);
        let n = before_colon(la).len() as int;
        if n < la.len() {
            // the first colon of `a` (and of `b`) is at p + n
            lemma_lead_bounds(a, 0);
            assert forall|j: int| 0 <= j < p + n implies a[j] != ':' by {
                if j < p {
                    assert(is_ws(a[j]));
                } else {
                    assert(la[j - p] == a[j]);
                }
            }
            assert(a[p + n] == la[n]);
            lemma_first_colon(a, p + n);
            assert forall|j: int| 0 <= j < p + n implies b[j] != ':' by {
                lemma_case_class(a[j], b[j]);
            }
            lemma_case_class(a[p + n], b[p + n]);
            lemma_first_colon(b, p + n);
            assert(after_colon(la) =~= a.subrange(p + n + 1, q));
            assert(after_colon(lb) =~= b.subrange(p + n + 1, q));
            assert forall|j: int| p + n + 1 <= j < q implies a[j] == b[j] by {
                assert(a.skip(p + n + 1)[j - (p + n + 1)] == a[j]);
                assert(b.skip(p + n + 1)[j - (p + n + 1)] == b[j]);
            }
            assert(after_colon(la) =~= after_colon(lb));
        } else {
            assert(after_colon(la).len() == 0 && after_colon(lb).len() == 0);
            assert(after_colon(la) =~= after_colon(lb));
        }
    }
}

proof fn lemma_rules_from_alike(l1: Seq<Seq<char>>, l2: Seq<Seq<char>>, i: int, wildcard: bool)
    requires
        l1.len() == l2.len(),
        forall|k: int| 0 <= k < l1.len() ==> key_case_only(#[trigger] l1[k], l2[k]),
    ensures
        rules_from(l1, i, wildcard) == rules_from(l2, i, wildcard),
    decreases l1.len() - i,
{
    if 0 <= i < l1.len() {
        lemma_line_alike(l1[i], l2[i]);
        lemma_rules_from_alike(l1, l2, i + 1, wildcard);
        lemma_rules_from_alike(l1, l2, i + 1, true);
        lemma_rules_from_alike(l1, l2, i + 1, false);
    }
}

/// Directive keys are read without regard to letter case: two robots.txt bodies whose lines
/// differ only in the case of their keys (`User-agent`, `user-agent`, `DISALLOW`, ...) give
/// the same rules.
pub proof fn law_keys_ignore_case(t1: Seq<char>, t2: Seq<char>)
    requires
        split_lines(t1).len() == split_lines(t2).len(),
        forall|k: int| 0 <= k < split_lines(t1).len() ==> key_case_only(#[trigger] split_lines(t1)[k], split_lines(t2)[k]),
    ensures
        robots_rules(t1) == robots_rules(t2),
{
    lemma_rules_from_alike(split_lines(t1), split_lines(t2), 0, false);
}


proof fn lemma_trim_unpadded(x: Seq<char>)
    requires
        x.len() > 0,
        !is_ws(x[0]),
        !is_ws(x.last()),
    ensures
        trim(x) == x,
{
    assert(lead(x, 0) == 0);
    assert(trail(x, x.len() as int) == x.len());
    assert(x.subrange(0, x.len() as int) =~= x);
}

/// The line `User-agent: *` opens the wildcard group, and a following line `Disallow: p`
/// (with `p` not blank at either end) adds the rule `p`, whatever group came before.
pub proof fn law_wildcard_disallow(lines: Seq<Seq<char>>, i: int, wildcard: bool, p: Seq<char>)
    requires
        0 <= i,
        i + 1 < lines.len(),
        lines[i] == "User-agent: *"@,
        lines[i + 1] == "Disallow: "@ + p,
        p.len() > 0,
        !is_ws(p[0]),
        !is_ws(p.last()),
    ensures
        rules_from(lines, i, wildcard) == seq![p] + rules_from(lines, i + 2, true),
{
    reveal_strlit("User-agent: *");
    reveal_strlit("Disallow: ");
    reveal_strlit("user-agent");
    reveal_strlit("disallow");
    reveal_strlit("*");
    let u = lines[i];
    lemma_trim_unpadded(u);
    lemma_first_colon(u, 10);
    assert(before_colon(u) =~= u.take(10)) by {
        lemma_colon_split(u);
    }
    let uk = u.take(10);
    lemma_trim_unpadded(uk);
    assert(lower(uk) =~= "user-agent"@);
    let uv = u.skip(11);
    assert(uv =~= seq![' ', '*']);
    assert(is_ws(uv[0]) && !is_ws(uv[1]));
    assert(lead(uv, 1) == 1);
    assert(lead(uv, 0) == 1);
    assert(trail(uv, 2) == 2);
    assert(trim(uv) =~= "*"@);
    let d = lines[i + 1];
    lemma_trim_unpadded(d);
    lemma_first_colon(d, 8);
    assert(before_colon(d) =~= d.take(8)) by {
        lemma_colon_split(d);
    }
    let dk = d.take(8);
    lemma_trim_unpadded(dk);
    assert(lower(dk) =~= "disallow"@);
    assert(dk != "user-agent"@);
    assert(lower(dk) != "user-agent"@);
    let dv = d.skip(9);
    assert(dv =~= seq![' '] + p);
    assert(is_ws(dv[0]) && !is_ws(dv[1]));
    assert(lead(dv, 1) == 1);
    assert(lead(dv, 0) == 1);
    assert(trail(dv, dv.len() as int) == dv.len());
    assert(trim(dv) =~= p);
    assert(trim(u) == u && u[0] == 'U');
    assert(lower(trim(before_colon(trim(u)))) == "user-agent"@);
    assert(trim(after_colon(trim(u))) == "*"@);
    assert(rules_from(lines, i, wildcard) == rules_from(lines, i + 1, true));
    assert(trim(d) == d && d[0] == 'D');
    assert(lower(trim(before_colon(trim(d)))) == "disallow"@);
    assert(trim(after_colon(trim(d))) == p);
    assert(rules_from(lines, i + 1, true) == seq![p] + rules_from(lines, i + 2, true));
}

} // verus!
