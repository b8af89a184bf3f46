//! Which lines are hits: the model that the search is held to, and what
//! follows from it.

use crate::lines::{after_first_line, first_line, lemma_line_end_bound, lines_of};
use crate::lowercase::folded;
use crate::substring::{lemma_empty_occurs, occurs_in};
use vstd::prelude::*;

verus! {

/// Whether `line` is a hit for `query`.
///
/// Case-sensitively, the query occurs in the line as it stands. Otherwise the
/// folded query occurs in the folded line.
pub open spec fn line_matches(query: Seq<char>, line: Seq<char>, case_insensitive: bool) -> bool {
    if case_insensitive {
        occurs_in(folded(query), folded(line))
    } else {
        occurs_in(query, line)
    }
}

/// Those of `lines` that are hits for `query`, in their order.
pub open spec fn matching(lines: Seq<Seq<char>>, query: Seq<char>, case_insensitive: bool) -> Seq<
    Seq<char>,
> {
    lines.filter(|line: Seq<char>| line_matches(query, line, case_insensitive))
}

/// The lines of `text` that are hits for `query`, in their order.
pub open spec fn matching_lines(query: Seq<char>, text: Seq<char>, case_insensitive: bool) -> Seq<
    Seq<char>,
> {
    matching(lines_of(text), query, case_insensitive)
}

/// Whether `picks` lists, in rising order, the offsets in `lines` of exactly
/// the hits for `query`.
pub open spec fn picks_hits(
    picks: Seq<int>,
    lines: Seq<Seq<char>>,
    query: Seq<char>,
    case_insensitive: bool,
) -> bool {
    &&& forall|k: int|
        0 <= k < picks.len() ==> 0 <= #[trigger] picks[k] < lines.len() && line_matches(
            query,
            lines[picks[k]],
            case_insensitive,
        )
    &&& forall|j: int, k: int| 0 <= j < k < picks.len() ==> picks[j] < picks[k]
    &&& forall|i: int|
        0 <= i < lines.len() && line_matches(query, #[trigger] lines[i], case_insensitive)
            ==> picks.contains(i)
}

/// No lines, no hits.
pub proof fn lemma_matching_none(query: Seq<char>, case_insensitive: bool)
    ensures
        matching(Seq::empty(), query, case_insensitive) == Seq::<Seq<char>>::empty(),
{
    reveal(Seq::filter);
}

/// One more line at the end is one more hit at the end, or none.
pub proof fn lemma_matching_push(
    lines: Seq<Seq<char>>,
    line: Seq<char>,
    query: Seq<char>,
    case_insensitive: bool,
)
    ensures
        matching(lines.push(line), query, case_insensitive) == if line_matches(
            query,
            line,
            case_insensitive,
        ) {
            matching(lines, query, case_insensitive).push(line)
        } else {
            matching(lines, query, case_insensitive)
        },
{
    reveal(Seq::filter);
    assert(lines.push(line).drop_last() =~= lines);
}

/// Where every line is a hit, the hits are all the lines.
pub proof fn lemma_matching_all(lines: Seq<Seq<char>>, query: Seq<char>, case_insensitive: bool)
    requires
        forall|i: int|
            0 <= i < lines.len() ==> line_matches(query, #[trigger] lines[i], case_insensitive),
    ensures
        matching(lines, query, case_insensitive) == lines,
    decreases lines.len(),
{
    if lines.len() == 0 {
        lemma_matching_none(query, case_insensitive);
        assert(lines =~= Seq::<Seq<char>>::empty());
    } else {
        lemma_matching_all(lines.drop_last(), query, case_insensitive);
        lemma_matching_push(lines.drop_last(), lines.last(), query, case_insensitive);
        assert(lines.drop_last().push(lines.last()) =~= lines);
    }
}

/// Taking the first line off what is left of a text adds it to the lines
/// before, and leaves less.
pub proof fn lemma_line_taken(text: Seq<char>, before: Seq<Seq<char>>, rest: Seq<char>)
    requires
        lines_of(text) == before + lines_of(rest),
        rest.len() > 0,
    ensures
        lines_of(text) == before.push(first_line(rest)) + lines_of(after_first_line(rest)),
        after_first_line(rest).len() < rest.len(),
{
    lemma_line_end_bound(rest);
    assert(before.push(first_line(rest)) + lines_of(after_first_line(rest)) =~= before + lines_of(
        rest,
    ));
}

/// The empty query finds every line of the text, in either mode.
pub proof fn lemma_empty_query_finds_every_line(text: Seq<char>, case_insensitive: bool)
    ensures
        matching_lines(Seq::empty(), text, case_insensitive) == lines_of(text),
{
    let lines = lines_of(text);
    assert forall|i: int| 0 <= i < lines.len() implies line_matches(
        Seq::empty(),
        #[trigger] lines[i],
        case_insensitive,
    ) by {
        lemma_empty_occurs(lines[i]);
        lemma_empty_occurs(folded(lines[i]));
    }
    lemma_matching_all(lines, Seq::empty(), case_insensitive);
}

/// A text without characters has no lines, so no query finds anything in it,
/// in either mode.
pub proof fn lemma_empty_text_has_no_hits(query: Seq<char>, case_insensitive: bool)
    ensures
        lines_of(Seq::empty()) == Seq::<Seq<char>>::empty(),
        matching_lines(query, Seq::empty(), case_insensitive) == Seq::<Seq<char>>::empty(),
{
    lemma_matching_none(query, case_insensitive);
}

/// The hits are the lines that match, each once and in the order of the
/// lines: walking the offsets of the matching lines upwards gives the hits
/// one by one. Returns those offsets.
pub proof fn lemma_hits_keep_order(
    lines: Seq<Seq<char>>,
    query: Seq<char>,
    case_insensitive: bool,
) -> (picks: Seq<int>)
    ensures
        picks_hits(picks, lines, query, case_insensitive),
        picks.len() == matching(lines, query, case_insensitive).len(),
        forall|k: int|
            0 <= k < picks.len() ==> matching(lines, query, case_insensitive)[k]
                == lines[#[trigger] picks[k]],
    decreases lines.len(),
{
    if lines.len() == 0 {
        lemma_matching_none(query, case_insensitive);
        assert(lines =~= Seq::<Seq<char>>::empty());
        Seq::empty()
    } else {
        let front = lines.drop_last();
        let last = lines.len() - 1;
        let front_picks = lemma_hits_keep_order(front, query, case_insensitive);
        lemma_matching_push(front, lines.last(), query, case_insensitive);
        assert(front.push(lines.last()) =~= lines);
        let picks = if line_matches(query, lines.last(), case_insensitive) {
            front_picks.push(last)
        } else {
            front_picks
        };
        assert forall|i: int|
            0 <= i < lines.len() && line_matches(
                query,
                #[trigger] lines[i],
                case_insensitive,
            ) implies picks.contains(i) by {
            if i < last {
                assert(front[i] == lines[i]);
                let k = choose|k: int| 0 <= k < front_picks.len() && front_picks[k] == i;
                assert(picks[k] == i);
            } else {
                assert(picks[picks.len() - 1] == i);
            }
        }
        assert forall|k: int| 0 <= k < picks.len() implies 0 <= #[trigger] picks[k] < lines.len()
            && line_matches(query, lines[picks[k]], case_insensitive) && matching(
            lines,
            query,
            case_insensitive,
        )[k] == lines[picks[k]] by {
            if k < front_picks.len() {
                assert(picks[k] == front_picks[k]);
                assert(front[picks[k]] == lines[picks[k]]);
            }
        }
        picks
    }
}

/// Leaving out of the case-insensitive hits those that are no case-sensitive
/// hits gives the case-sensitive hits: the case-insensitive search finds every
/// line that the case-sensitive search finds, and in the same order.
///
/// This holds where folding keeps the query inside each line that holds it.
/// Unicode's lowercase forms do not always: a capital sigma becomes a
/// different letter at the end of a word than elsewhere, so a word that ends
/// in one holds a lone capital sigma, but its lowercase form does not hold the
/// lowercase form of the lone letter.
pub proof fn lemma_insensitive_covers_sensitive(query: Seq<char>, text: Seq<char>)
    requires
        forall|i: int|
            0 <= i < lines_of(text).len() && line_matches(query, #[trigger] lines_of(text)[i], false)
                ==> line_matches(query, lines_of(text)[i], true),
    ensures
        matching_lines(query, text, false) == matching(
            matching_lines(query, text, true),
            query,
            false,
        ),
        forall|line: Seq<char>|
            matching_lines(query, text, false).contains(line) ==> matching_lines(
                query,
                text,
                true,
            ).contains(line),
{
    lemma_narrower_hits(lines_of(text), query);
    let wide = matching_lines(query, text, true);
    let narrow = matching_lines(query, text, false);
    assert forall|line: Seq<char>| narrow.contains(line) implies wide.contains(line) by {
        wide.lemma_filter_contains_rev(|line: Seq<char>| line_matches(query, line, false), line);
    }
}

/// Over lines of which each case-sensitive hit is a case-insensitive hit too,
/// the case-sensitive hits are those among the case-insensitive hits.
proof fn lemma_narrower_hits(lines: Seq<Seq<char>>, query: Seq<char>)
    requires
        forall|i: int|
            0 <= i < lines.len() && line_matches(query, #[trigger] lines[i], false)
                ==> line_matches(query, lines[i], true),
    ensures
        matching(lines, query, false) == matching(matching(lines, query, true), query, false),
    decreases lines.len(),
{
    if lines.len() == 0 {
        lemma_matching_none(query, false);
        lemma_matching_none(query, true);
        assert(lines =~= Seq::<Seq<char>>::empty());
    } else {
        let front = lines.drop_last();
        let line = lines.last();
        assert forall|i: int|
            0 <= i < front.len() && line_matches(
                query,
                #[trigger] front[i],
                false,
            ) implies line_matches(query, front[i], true) by {
            assert(front[i] == lines[i]);
        }
        lemma_narrower_hits(front, query);
        assert(front.push(line) =~= lines);
        lemma_matching_push(front, line, query, false);
        lemma_matching_push(front, line, query, true);
        if line_matches(query, line, true) {
            lemma_matching_push(matching(front, query, true), line, query, false);
        }
    }
}

/// A search has one answer: whatever two runs over the same query, the same
/// text and the same mode return holds the same lines in the same order.
pub proof fn lemma_search_repeats(
    query: Seq<char>,
    text: Seq<char>,
    case_insensitive: bool,
    first: Vec<&str>,
    second: Vec<&str>,
)
    requires
        first.deep_view() == matching_lines(query, text, case_insensitive),
        second.deep_view() == matching_lines(query, text, case_insensitive),
    ensures
        first.deep_view() == second.deep_view(),
        first@.len() == second@.len(),
        forall|i: int| 0 <= i < first@.len() ==> first@[i]@ == second@[i]@,
{
    assert(first.deep_view().len() == first@.len());
    assert(second.deep_view().len() == second@.len());
    assert forall|i: int| 0 <= i < first@.len() implies first@[i]@ == second@[i]@ by {
        assert(first.deep_view()[i] == first@[i]@);
        assert(second.deep_view()[i] == second@[i]@);
    }
}

} // verus!
