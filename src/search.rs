//! Selecting the lines of a text that contain a query.

use vstd::prelude::*;

use crate::fold::{lower_of, lowercase};
use crate::lines::{lines_of, split_lines};
use crate::text::{has_substring, line_contains};

verus! {

/// The lines of `lines` on which `keep` holds, in the order of `lines`.
pub open spec fn keep_lines(lines: Seq<Seq<char>>, keep: spec_fn(Seq<char>) -> bool) -> Seq<
    Seq<char>,
>
    decreases lines.len(),
{
    if lines.len() == 0 {
        seq![]
    } else {
        let kept = keep_lines(lines.drop_last(), keep);
        if keep(lines.last()) {
            kept.push(lines.last())
        } else {
            kept
        }
    }
}

/// A line matches when it contains `query` exactly.
pub open spec fn contains_query(query: Seq<char>) -> spec_fn(Seq<char>) -> bool {
    |line: Seq<char>| has_substring(line, query)
}

/// A line matches when its lowercase form contains the lowercase form of `query`.
pub open spec fn contains_folded_query(query: Seq<char>) -> spec_fn(Seq<char>) -> bool {
    |line: Seq<char>| has_substring(lower_of(line), lower_of(query))
}

/// The lines of `contents` that contain `query`.
pub open spec fn exact_matches(query: Seq<char>, contents: Seq<char>) -> Seq<Seq<char>> {
    keep_lines(lines_of(contents), contains_query(query))
}

/// The lines of `contents` that contain `query` once both are lowercased.
pub open spec fn folded_matches(query: Seq<char>, contents: Seq<char>) -> Seq<Seq<char>> {
    keep_lines(lines_of(contents), contains_folded_query(query))
}

/// The lines of `contents` that contain `query`, compared character for
/// character, in the order in which they stand there.
pub fn search_case_sensitive<'a>(query: &str, contents: &'a str) -> (r: Vec<&'a str>)
    ensures
        r.deep_view() == exact_matches(query@, contents@),
{
    let lines = split_lines(contents);
    let ghost all = lines.deep_view();
    let mut found: Vec<&'a str> = Vec::new();
    for i in 0..lines.len()
        invariant
            all == lines.deep_view(),
            all == lines_of(contents@),
            found.deep_view() == keep_lines(all.subrange(0, i as int), contains_query(query@)),
    {
        let line: &'a str = lines[i];
        if line_contains(line, query) {
            found.push(line);
        }
        proof {
            assert(all.subrange(0, i + 1).drop_last() =~= all.subrange(0, i as int));
            assert(found.deep_view() =~= keep_lines(
                all.subrange(0, i + 1),
                contains_query(query@),
            ));
        }
    }
    proof {
        assert(all.subrange(0, all.len() as int) =~= all);
    }
    found
}

/// The lines of `contents` that contain `query` when both are lowercased, in
/// the order in which they stand there; each line is returned as it stands in
/// `contents`, not lowercased.
pub fn search_case_insensitive<'a>(query: &str, contents: &'a str) -> (r: Vec<&'a str>)
    ensures
        r.deep_view() == folded_matches(query@, contents@),
{
    let lines = split_lines(contents);
    let folded_query = lowercase(query);
    let ghost all = lines.deep_view();
    let mut found: Vec<&'a str> = Vec::new();
    for i in 0..lines.len()
        invariant
            all == lines.deep_view(),
            all == lines_of(contents@),
            folded_query@ == lower_of(query@),
            found.deep_view() == keep_lines(
                all.subrange(0, i as int),
                contains_folded_query(query@),
            ),
    {
        let line: &'a str = lines[i];
        let folded_line = lowercase(line);
        if line_contains(folded_line.as_str(), folded_query.as_str()) {
            found.push(line);
        }
        proof {
            assert(all.subrange(0, i + 1).drop_last() =~= all.subrange(0, i as int));
            assert(found.deep_view() =~= keep_lines(
                all.subrange(0, i + 1),
                contains_folded_query(query@),
            ));
        }
    }
    proof {
        assert(all.subrange(0, all.len() as int) =~= all);
    }
    found
}

} // verus!
