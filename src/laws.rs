//! What holds of the two searches together.

use vstd::prelude::*;

use crate::fold::lower_of;
use crate::lines::lines_of;
use crate::search::{
    contains_folded_query,
    contains_query,
    exact_matches,
    folded_matches,
    keep_lines,
};
use crate::text::has_substring;

verus! {

/// The positions in `lines` of the lines on which `keep` holds, ascending.
pub open spec fn kept_positions(lines: Seq<Seq<char>>, keep: spec_fn(Seq<char>) -> bool) -> Seq<
    int,
>
    decreases lines.len(),
{
    if lines.len() == 0 {
        seq![]
    } else {
        let kept = kept_positions(lines.drop_last(), keep);
        if keep(lines.last()) {
            kept.push(lines.len() - 1)
        } else {
            kept
        }
    }
}

/// `positions` are ascending positions in `whole`, and `part` holds the
/// elements of `whole` found there.
pub open spec fn picks(positions: Seq<int>, part: Seq<Seq<char>>, whole: Seq<Seq<char>>) -> bool {
    &&& positions.len() == part.len()
    &&& forall|j: int|
        0 <= j < positions.len() ==> 0 <= #[trigger] positions[j] < whole.len() && part[j]
            == whole[positions[j]]
    &&& forall|j: int, k: int| 0 <= j < k < positions.len() ==> positions[j] < positions[k]
}

/// `part` is `whole` with some elements left out and the others in their order.
pub open spec fn is_ordered_sublist(part: Seq<Seq<char>>, whole: Seq<Seq<char>>) -> bool {
    exists|positions: Seq<int>| picks(positions, part, whole)
}

/// The kept lines are the lines at the kept positions, and a position is kept
/// exactly when `keep` holds of the line there.
proof fn lemma_kept_positions(lines: Seq<Seq<char>>, keep: spec_fn(Seq<char>) -> bool)
    ensures
        picks(kept_positions(lines, keep), keep_lines(lines, keep), lines),
        forall|p: int|
            #[trigger] kept_positions(lines, keep).contains(p) <==> 0 <= p < lines.len() && keep(
                lines[p],
            ),
    decreases lines.len(),
{
    if lines.len() > 0 {
        let rest = lines.drop_last();
        lemma_kept_positions(rest, keep);
        let pos = kept_positions(lines, keep);
        let rest_pos = kept_positions(rest, keep);
        assert forall|p: int| #[trigger] pos.contains(p) <==> 0 <= p < lines.len() && keep(
            lines[p],
        ) by {
            if keep(lines.last()) {
                if pos.contains(p) && p != lines.len() - 1 {
                    let j = choose|j: int| 0 <= j < pos.len() && pos[j] == p;
                    assert(rest_pos[j] == p);
                }
                if rest_pos.contains(p) {
                    let j = choose|j: int| 0 <= j < rest_pos.len() && rest_pos[j] == p;
                    assert(pos[j] == p);
                }
                if p == lines.len() - 1 {
                    assert(pos[pos.len() - 1] == p);
                }
            }
        }
    }
}

/// Each search returns lines of `contents` in the order in which they stand
/// there, each line at most once: the lines at the kept positions, ascending.
pub proof fn lemma_matches_keep_line_order(query: Seq<char>, contents: Seq<char>)
    ensures
        picks(
            kept_positions(lines_of(contents), contains_query(query)),
            exact_matches(query, contents),
            lines_of(contents),
        ),
        picks(
            kept_positions(lines_of(contents), contains_folded_query(query)),
            folded_matches(query, contents),
            lines_of(contents),
        ),
        is_ordered_sublist(exact_matches(query, contents), lines_of(contents)),
        is_ordered_sublist(folded_matches(query, contents), lines_of(contents)),
{
    lemma_kept_positions(lines_of(contents), contains_query(query));
    lemma_kept_positions(lines_of(contents), contains_folded_query(query));
}

/// Every line contains the empty query.
proof fn lemma_empty_query_keeps_all(lines: Seq<Seq<char>>)
    ensures
        keep_lines(lines, contains_query(Seq::empty())) == lines,
    decreases lines.len(),
{
    if lines.len() > 0 {
        lemma_empty_query_keeps_all(lines.drop_last());
        let last = lines.last();
        let nothing = Seq::<char>::empty();
        assert(last.subrange(0, 0 + nothing.len() as int) =~= nothing);
        assert(has_substring(last, nothing));
        assert(lines.drop_last().push(last) =~= lines);
    }
}

/// The exact search for the empty query returns every line of `contents`,
/// in order.
pub proof fn lemma_empty_query_matches_every_line(contents: Seq<char>)
    ensures
        exact_matches(Seq::empty(), contents) == lines_of(contents),
{
    lemma_empty_query_keeps_all(lines_of(contents));
}

/// Where every line that contains `query` still contains it once both are
/// lowercased, the folded search keeps every position that the exact search
/// keeps. The condition can fail: lowercasing a whole line may turn a capital
/// sigma at the end of a word into a final sigma, which the lowercased query
/// does not hold.
pub proof fn lemma_folded_search_keeps_exact_matches(query: Seq<char>, contents: Seq<char>)
    requires
        forall|p: int|
            0 <= p < lines_of(contents).len() && has_substring(#[trigger] lines_of(contents)[p], query)
                ==> has_substring(lower_of(lines_of(contents)[p]), lower_of(query)),
    ensures
        forall|p: int|
            #[trigger] kept_positions(lines_of(contents), contains_query(query)).contains(p)
                ==> kept_positions(lines_of(contents), contains_folded_query(query)).contains(p),
{
    lemma_kept_positions(lines_of(contents), contains_query(query));
    lemma_kept_positions(lines_of(contents), contains_folded_query(query));
}

/// Two exact searches on the same query and contents return the same lines.
pub proof fn lemma_exact_search_is_repeatable(
    query: Seq<char>,
    contents: Seq<char>,
    first: Seq<Seq<char>>,
    second: Seq<Seq<char>>,
)
    requires
        first == exact_matches(query, contents),
        second == exact_matches(query, contents),
    ensures
        first == second,
{
}

/// Two folded searches on the same query and contents return the same lines.
pub proof fn lemma_folded_search_is_repeatable(
    query: Seq<char>,
    contents: Seq<char>,
    first: Seq<Seq<char>>,
    second: Seq<Seq<char>>,
)
    requires
        first == folded_matches(query, contents),
        second == folded_matches(query, contents),
    ensures
        first == second,
{
}

} // verus!
