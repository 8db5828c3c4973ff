//! Statement chaining: sentences that lean on the previous one get it prepended.
use crate::text::{
    chars_to_string, lower, lower_chars, starts_with, starts_with_any, to_chars, trim, trim_chars,
};
use vstd::prelude::*;

verus! {

/// Openings that refer back to an earlier sentence (pronouns and connectors).
pub open spec fn context_cues() -> Seq<&'static str> {
    seq![
        "it ", "this ", "that ", "these ", "those ", "they ", "he ", "she ", "therefore",
        "however", "thus", "so ", "then ", "instead", "also",
    ]
}

/// Openings of introductory sentences.
pub open spec fn intro_cues() -> Seq<&'static str> {
    seq!["here are", "for example", "note:", "in summary"]
}

fn context_cue_list() -> (v: Vec<&'static str>)
    ensures
        v@ == context_cues(),
{
    let mut v: Vec<&'static str> = Vec::new();
    v.push("it "); v.push("this "); v.push("that "); v.push("these "); v.push("those ");
    v.push("they "); v.push("he "); v.push("she "); v.push("therefore"); v.push("however");
    v.push("thus"); v.push("so "); v.push("then "); v.push("instead"); v.push("also");
    v
}

fn intro_cue_list() -> (v: Vec<&'static str>)
    ensures
        v@ == intro_cues(),
{
    let mut v: Vec<&'static str> = Vec::new();
    v.push("here are"); v.push("for example"); v.push("note:"); v.push("in summary");
    v
}

pub open spec fn starts_with_cue(s: Seq<char>, cues: Seq<&'static str>) -> bool {
    exists|k: int| 0 <= k < cues.len() && starts_with(s, (#[trigger] cues[k])@)
}

/// An introductory sentence: it ends with a colon or opens with a lead-in phrase.
pub open spec fn looks_intro(lowered: Seq<char>) -> bool {
    (lowered.len() > 0 && lowered.last() == ':') || starts_with_cue(lowered, intro_cues())
}

/// What `apply_statement_chaining` returns for `sentence` after the sentences `preceding`.
pub open spec fn chained(sentence: Seq<char>, preceding: Seq<Seq<char>>) -> (Seq<char>, bool) {
    let t = trim(sentence);
    let l = lower(t);
    if looks_intro(l) {
        (t, false)
    } else if starts_with_cue(l, context_cues()) {
        if preceding.len() > 0 {
            (trim(preceding.last()) + seq![' '] + t, true)
        } else {
            (t, false)
        }
    } else {
        (t, true)
    }
}

/// Heuristic statement chaining fallback.
///
/// - If a sentence starts with anaphora/connector cues, prepend the previous sentence when
///   available.
/// - Introductory sentences (lead-ins) are marked non-leaf and should not be directly
///   surfaced as final snippets.
pub fn apply_statement_chaining(sentence: &str, preceding: &[String]) -> (r: (String, bool))
    ensures
        (r.0@, r.1) == chained(sentence@, preceding@.map_values(|p: String| p@)),
{
    let chars = to_chars(sentence);
    let trimmed = trim_chars(chars.as_slice());
    let lowered = lower_chars(trimmed.as_slice());
    let ghost pv = preceding@.map_values(|p: String| p@);
    let intro = (lowered.len() > 0 && lowered[lowered.len() - 1] == ':') || starts_with_any(
        lowered.as_slice(),
        &intro_cue_list(),
    );
    if intro {
        return (chars_to_string(trimmed.as_slice()), false);
    }
    if starts_with_any(lowered.as_slice(), &context_cue_list()) {
        if preceding.len() > 0 {
            let prev = to_chars(preceding[preceding.len() - 1].as_str());
            let mut joined = trim_chars(prev.as_slice());
            joined.push(' ');
            let ghost head = joined@;
            let mut i: usize = 0;
            while i < trimmed.len()
                invariant
                    i <= trimmed.len(),
                    joined@ == head + trimmed@.take(i as int),
                decreases trimmed.len() - i,
            {
                joined.push(trimmed[i]);
                i = i + 1;
                assert(joined@ =~= head + trimmed@.take(i as int));
            }
            proof {
                assert(trimmed@.take(trimmed@.len() as int) =~= trimmed@);
                assert(pv.last() == preceding@.last()@);
            }
            return (chars_to_string(joined.as_slice()), true);
        }
        return (chars_to_string(trimmed.as_slice()), false);
    }
    (chars_to_string(trimmed.as_slice()), true)
}


/// An introductory sentence is never a leaf and is returned trimmed, whatever precedes it.
pub proof fn law_intro_is_not_leaf(sentence: Seq<char>, preceding: Seq<Seq<char>>)
    requires
        looks_intro(lower(trim(sentence))),
    ensures
        chained(sentence, preceding) == (trim(sentence), false),
{
}

/// A sentence that opens with a back-reference (and is no introduction) gets the previous
/// sentence prepended when there is one, and is then a leaf; without one it stays as it
/// is and is not a leaf.
pub proof fn law_cue_takes_previous(sentence: Seq<char>, preceding: Seq<Seq<char>>)
    requires
        !looks_intro(lower(trim(sentence))),
        starts_with_cue(lower(trim(sentence)), context_cues()),
    ensures
        preceding.len() > 0 ==> chained(sentence, preceding) == (
            trim(preceding.last()) + seq![' '] + trim(sentence),
            true,
        ),
        preceding.len() == 0 ==> chained(sentence, preceding) == (trim(sentence), false),
{
}

/// Any other sentence is a leaf, trimmed, and does not depend on what precedes it.
pub proof fn law_plain_sentence_is_leaf(sentence: Seq<char>, preceding: Seq<Seq<char>>)
    requires
        !looks_intro(lower(trim(sentence))),
        !starts_with_cue(lower(trim(sentence)), context_cues()),
    ensures
        chained(sentence, preceding) == (trim(sentence), true),
{
}


/// A sentence opens with a back-reference: a pronoun (`it`, `this`, `that`, `these`,
/// `those`, `they`, `he`, `she`, each followed by a space) or a connector (`therefore`,
/// `however`, `thus`, `so `, `then `, `instead`, `also`), in any case.
pub open spec fn opens_with_back_reference(lowered: Seq<char>) -> bool {
    ||| starts_with(lowered, "it "@) || starts_with(lowered, "this "@) || starts_with(lowered, "that "@)
    ||| starts_with(lowered, "these "@) || starts_with(lowered, "those "@) || starts_with(lowered, "they "@)
    ||| starts_with(lowered, "he "@) || starts_with(lowered, "she "@)
    ||| starts_with(lowered, "therefore"@) || starts_with(lowered, "however"@) || starts_with(lowered, "thus"@)
    ||| starts_with(lowered, "so "@) || starts_with(lowered, "then "@) || starts_with(lowered, "instead"@)
    ||| starts_with(lowered, "also"@)
}

/// A sentence is a lead-in: it ends with a colon, or opens with `here are`, `for example`,
/// `note:` or `in summary`, in any case.
pub open spec fn is_lead_in(lowered: Seq<char>) -> bool {
    ||| (lowered.len() > 0 && lowered.last() == ':')
    ||| starts_with(lowered, "here are"@) || starts_with(lowered, "for example"@)
    ||| starts_with(lowered, "note:"@) || starts_with(lowered, "in summary"@)
}

proof fn lemma_cue_lists(l: Seq<char>)
    ensures
        opens_with_back_reference(l) ==> starts_with_cue(l, context_cues()),
        looks_intro(l) == is_lead_in(l),
{
    let c = context_cues();
    assert(c[0] == "it " && c[1] == "this " && c[2] == "that " && c[3] == "these " && c[4] == "those "
        && c[5] == "they " && c[6] == "he " && c[7] == "she " && c[8] == "therefore" && c[9] == "however"
        && c[10] == "thus" && c[11] == "so " && c[12] == "then " && c[13] == "instead" && c[14] == "also");
    let n = intro_cues();
    assert(n[0] == "here are" && n[1] == "for example" && n[2] == "note:" && n[3] == "in summary");
    if starts_with_cue(l, n) {
        let k = choose|k: int| 0 <= k < n.len() && starts_with(l, (#[trigger] n[k])@);
        assert(0 <= k < 4);
    }
}

/// A sentence that opens with a back-reference and is no lead-in gets the previous sentence
/// prepended (both trimmed, joined by a space) and is a leaf.
pub proof fn law_back_reference_takes_previous(sentence: Seq<char>, preceding: Seq<Seq<char>>)
    requires
        preceding.len() > 0,
        opens_with_back_reference(lower(trim(sentence))),
        !is_lead_in(lower(trim(sentence))),
    ensures
        chained(sentence, preceding) == (trim(preceding.last()) + seq![' '] + trim(sentence), true),
{
    lemma_cue_lists(lower(trim(sentence)));
}

/// A lead-in is returned trimmed and is not a leaf, whatever precedes it.
pub proof fn law_lead_in_is_not_leaf(sentence: Seq<char>, preceding: Seq<Seq<char>>)
    requires
        is_lead_in(lower(trim(sentence))),
    ensures
        chained(sentence, preceding) == (trim(sentence), false),
{
    lemma_cue_lists(lower(trim(sentence)));
}

} // verus!
