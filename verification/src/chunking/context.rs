//! Heading context for chunk text.
use crate::text::{join, lemma_join_push, str_eq, views};
use vstd::prelude::*;

verus! {

/// The last `depth` headings of the chain (all of them when there are fewer).
pub open spec fn last_headings(chain: Seq<Seq<char>>, depth: nat) -> Seq<Seq<char>> {
    if depth >= chain.len() {
        chain
    } else {
        chain.skip(chain.len() - depth)
    }
}

/// The heading chain and the sentence, one per line.
pub open spec fn contextual(chain: Seq<Seq<char>>, sentence: Seq<char>) -> Seq<char> {
    if chain.len() == 0 {
        sentence
    } else {
        join(chain, seq!['\n']) + seq!['\n'] + sentence
    }
}

fn join_lines_then(chain: &[String], from: usize, last: &str) -> (r: String)
    requires
        from <= chain.len(),
    ensures
        r@ == contextual(views(chain@.skip(from as int)), last@),
{
    let mut r = String::new();
    let mut i = from;
    proof {
        reveal_strlit("\n");
        assert("\n"@ =~= seq!['\n']);
    }
    while i < chain.len()
        invariant
            from <= i <= chain.len(),
            "\n"@ == seq!['\n'],
            r@ == join(views(chain@.subrange(from as int, i as int)), seq!['\n']),
        decreases chain.len() - i,
    {
        proof {
            lemma_join_push(views(chain@.subrange(from as int, i as int)), seq!['\n'], chain@[i as int]@);
            assert(views(chain@.subrange(from as int, i + 1)) =~= views(
                chain@.subrange(from as int, i as int),
            ).push(chain@[i as int]@));
        }
        if i > from {
            r.append("\n");
        }
        r.append(chain[i].as_str());
        i = i + 1;
    }
    assert(chain@.subrange(from as int, chain@.len() as int) =~= chain@.skip(from as int));
    if i > from {
        r.append("\n");
    }
    r.append(last);
    r
}

/// Attach heading context to a sentence for embedding.
pub fn with_context(heading_chain: &[String], sentence: &str) -> (r: String)
    ensures
        r@ == contextual(views(heading_chain@), sentence@),
{
    assert(heading_chain@.skip(0) =~= heading_chain@);
    join_lines_then(heading_chain, 0, sentence)
}

/// Attach only up to `depth` levels from the end of heading chain.
pub fn with_context_depth(heading_chain: &[String], sentence: &str, depth: usize) -> (r: String)
    ensures
        r@ == contextual(last_headings(views(heading_chain@), depth as nat), sentence@),
{
    let len = heading_chain.len();
    let start = if depth >= len {
        0
    } else {
        len - depth
    };
    proof {
        if depth >= len {
            assert(heading_chain@.skip(0) =~= heading_chain@);
        } else {
            assert(views(heading_chain@.skip(start as int)) =~= views(heading_chain@).skip(
                start as int,
            ));
        }
    }
    join_lines_then(heading_chain, start, sentence)
}

/// Adds the headings in turn, skipping any heading equal to the page title `title` (none
/// is skipped when there is no title).
pub open spec fn add_headings(parts: Seq<Seq<char>>, hs: Seq<Seq<char>>, title: Option<Seq<char>>) -> Seq<
    Seq<char>,
>
    decreases hs.len(),
{
    if hs.len() == 0 {
        parts
    } else {
        let next = if title == Some(hs[0]) {
            parts
        } else {
            parts.push(hs[0])
        };
        add_headings(next, hs.drop_first(), title)
    }
}

/// The page title as a line of the embedding text: present and non-empty, or none.
pub open spec fn title_line(title: Option<Seq<char>>) -> Option<Seq<char>> {
    match title {
        Some(t) => if t.len() > 0 {
            Some(t)
        } else {
            None
        },
        None => None,
    }
}

/// The lines of the embedding text: the title when it is present and non-empty, the last
/// `depth` headings except those that repeat the title, and the body.
pub open spec fn embed_lines(
    title: Option<Seq<char>>,
    chain: Seq<Seq<char>>,
    body: Seq<char>,
    depth: nat,
) -> Seq<Seq<char>> {
    let start: Seq<Seq<char>> = match title_line(title) {
        Some(t) => seq![t],
        None => Seq::empty(),
    };
    let hs = if depth > 0 {
        last_headings(chain, depth)
    } else {
        Seq::empty()
    };
    add_headings(start, hs, title_line(title)).push(body)
}

/// Build embedding text with page title, heading chain, and body text, one per line.
pub fn with_embed_context(
    page_title: Option<&str>,
    heading_chain: &[String],
    body_text: &str,
    depth: usize,
) -> (r: String)
    ensures
        r@ == join(
            embed_lines(
                match page_title {
                    Some(t) => Some(t@),
                    None => None,
                },
                views(heading_chain@),
                body_text@,
                depth as nat,
            ),
            seq!['\n'],
        ),
{
    let mut parts: Vec<String> = Vec::new();
    let mut title_text: &str = "";
    let mut has_title = false;
    match page_title {
        Some(title) => {
            if !title.is_empty() {
                parts.push(title.to_owned());
                title_text = title;
                has_title = true;
            }
        },
        None => {},
    }
    let ghost start_parts = views(parts@);
    let ghost key = title_line(
        match page_title {
            Some(t) => Some(t@),
            None => None,
        },
    );
    proof {
        let t0: Seq<Seq<char>> = match key {
            Some(t) => seq![t],
            None => Seq::empty(),
        };
        assert(start_parts =~= t0);
        assert(has_title ==> key == Some(title_text@));
        assert(!has_title ==> key is None);
    }
    let len = heading_chain.len();
    let start = if depth == 0 || depth >= len {
        0
    } else {
        len - depth
    };
    let ghost hs: Seq<Seq<char>> = if depth > 0 {
        last_headings(views(heading_chain@), depth as nat)
    } else {
        Seq::empty()
    };
    let stop = if depth == 0 {
        0
    } else {
        len
    };
    proof {
        if depth > 0 {
            if depth >= len {
                assert(views(heading_chain@.subrange(0, len as int)) =~= views(heading_chain@));
            } else {
                assert(views(heading_chain@.subrange(start as int, len as int)) =~= views(
                    heading_chain@,
                ).skip(start as int));
            }
        } else {
            assert(views(heading_chain@.subrange(0, 0)) =~= Seq::<Seq<char>>::empty());
        }
    }
    let mut i = start;
    while i < stop
        invariant
            start <= i <= stop <= len == heading_chain@.len(),
            hs == views(heading_chain@.subrange(start as int, stop as int)),
            has_title ==> key == Some(title_text@),
            !has_title ==> key is None,
            add_headings(start_parts, hs, key) == add_headings(
                views(parts@),
                views(heading_chain@.subrange(i as int, stop as int)),
                key,
            ),
        decreases stop - i,
    {
        let h = &heading_chain[i];
        let ghost rest = views(heading_chain@.subrange(i as int, stop as int));
        let ghost before = views(parts@);
        let dup = has_title && str_eq(title_text, h.as_str());
        if !dup {
            parts.push(h.clone());
        }
        proof {
            assert(rest[0] == h@);
            assert(rest.drop_first() =~= views(heading_chain@.subrange(i + 1, stop as int)));
            if dup {
                assert(key == Some(rest[0]));
            } else {
                assert(views(parts@) =~= before.push(h@));
            }
        }
        i = i + 1;
    }
    proof {
        assert(heading_chain@.subrange(stop as int, stop as int).len() == 0);
        assert(views(heading_chain@.subrange(stop as int, stop as int)) =~= Seq::<Seq<char>>::empty());
    }
    assert(views(parts@) == add_headings(start_parts, hs, key));
    let ghost mid = views(parts@);
    parts.push(body_text.to_owned());
    assert(views(parts@) =~= mid.push(body_text@));
    let n = parts.len();
    let r = crate::text::join_range(parts.as_slice(), 0, n, "\n");
    proof {
        reveal_strlit("\n");
        assert("\n"@ =~= seq!['\n']);
        assert(parts@.subrange(0, n as int) =~= parts@);
    }
    r
}

} // verus!
