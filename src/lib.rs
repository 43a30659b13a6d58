//! Line-oriented substring search over a block of text, with an exact and a
//! case-folded variant.

mod fold;
mod laws;
mod lines;
mod search;
mod slicing;
mod text;

pub use fold::lower_of;
pub use laws::{
    is_ordered_sublist,
    kept_positions,
    lemma_empty_query_matches_every_line,
    lemma_exact_search_is_repeatable,
    lemma_folded_search_is_repeatable,
    lemma_folded_search_keeps_exact_matches,
    lemma_matches_keep_line_order,
    picks,
};
pub use lines::{lines_from, lines_of, split_lines, terminated_line};
pub use search::{
    contains_folded_query,
    contains_query,
    exact_matches,
    folded_matches,
    keep_lines,
    search_case_insensitive,
    search_case_sensitive,
};
pub use text::{has_substring, line_contains};
