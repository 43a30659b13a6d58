//! Characters of a string slice and substring containment.

use vstd::prelude::*;

verus! {

/// `pattern` occurs as a contiguous run somewhere inside `text`.
pub open spec fn has_substring(text: Seq<char>, pattern: Seq<char>) -> bool {
    exists|at: int|
        0 <= at && at + pattern.len() <= text.len() && #[trigger] text.subrange(
            at,
            at + pattern.len(),
        ) == pattern
}

/// The characters of `s`, in order.
pub(crate) fn chars_of(s: &str) -> (r: Vec<char>)
    ensures
        r@ == s@,
{
    let mut r: Vec<char> = Vec::new();
    for c in it: s.chars()
        invariant
            it.seq() == s@,
            r@ == it.seq().subrange(0, it.index() as int),
    {
        r.push(c);
    }
    r
}

/// Whether `pattern` matches `text` starting at position `at`.
fn occurs_at(text: &Vec<char>, pattern: &Vec<char>, at: usize) -> (r: bool)
    requires
        at + pattern@.len() <= text@.len(),
    ensures
        r == (text@.subrange(at as int, at + pattern@.len()) == pattern@),
{
    let n: usize = text.len();
    let mut j: usize = 0;
    while j < pattern.len()
        invariant
            n == text@.len(),
            j <= pattern@.len(),
            at + pattern@.len() <= text@.len(),
            text@.subrange(at as int, at + j) =~= pattern@.subrange(0, j as int),
        decreases pattern@.len() - j,
    {
        if text[at + j] != pattern[j] {
            assert(text@.subrange(at as int, at + pattern@.len())[j as int] != pattern@[j as int]);
            return false;
        }
        j = j + 1;
        assert(text@.subrange(at as int, at + j) =~= pattern@.subrange(0, j as int));
    }
    assert(pattern@.subrange(0, j as int) =~= pattern@);
    true
}

/// Whether `pattern` occurs in `text`, by trying each starting position in turn.
fn contains_chars(text: &Vec<char>, pattern: &Vec<char>) -> (r: bool)
    ensures
        r == has_substring(text@, pattern@),
{
    if pattern.len() > text.len() {
        return false;
    }
    let last: usize = text.len() - pattern.len();
    let mut at: usize = 0;
    loop
        invariant
            at <= last,
            last + pattern@.len() == text@.len(),
            forall|k: int|
                0 <= k < at ==> #[trigger] text@.subrange(k, k + pattern@.len()) != pattern@,
        decreases last - at,
    {
        if occurs_at(text, pattern, at) {
            return true;
        }
        if at == last {
            return false;
        }
        at = at + 1;
    }
}

/// Whether `query` occurs as a contiguous run of characters in `line`.
pub fn line_contains(line: &str, query: &str) -> (r: bool)
    ensures
        r == has_substring(line@, query@),
{
    let text = chars_of(line);
    let pattern = chars_of(query);
    contains_chars(&text, &pattern)
}

} // verus!
