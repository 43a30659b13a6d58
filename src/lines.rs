//! Splitting text into lines.
//!
//! A line ends at a `'\n'`, which is not part of it; a `'\r'` just before that
//! `'\n'` is dropped too. A `'\n'` at the very end of the text does not open
//! an empty last line, and empty text has no lines at all.

use vstd::prelude::*;
use vstd::utf8::{encode_scalar, encode_utf8};

use crate::slicing::{lemma_encode_prefix_len, lemma_encode_prefix_step, slice_chars, utf8_width};

verus! {

/// The line that runs from `start` to the newline at `end`, without a
/// carriage return that stands just before that newline.
pub open spec fn terminated_line(s: Seq<char>, start: int, end: int) -> Seq<char> {
    if start < end && s[end - 1] == '\r' {
        s.subrange(start, end - 1)
    } else {
        s.subrange(start, end)
    }
}

/// The lines of `s` that remain when the scan stands at position `i` and the
/// line being read began at `start`.
pub open spec fn lines_from(s: Seq<char>, start: int, i: int) -> Seq<Seq<char>>
    decreases s.len() - i,
{
    if i >= s.len() {
        if start < s.len() {
            seq![s.subrange(start, s.len() as int)]
        } else {
            seq![]
        }
    } else if s[i] == '\n' {
        seq![terminated_line(s, start, i)] + lines_from(s, i + 1, i + 1)
    } else {
        lines_from(s, start, i + 1)
    }
}

/// The lines of `s`, in order.
pub open spec fn lines_of(s: Seq<char>) -> Seq<Seq<char>> {
    lines_from(s, 0, 0)
}

/// Splits `contents` into its lines; each one is a slice of `contents`.
pub fn split_lines<'a>(contents: &'a str) -> (r: Vec<&'a str>)
    ensures
        r.deep_view() == lines_of(contents@),
{
    let ghost s = contents@;
    let n: usize = contents.unicode_len();
    let total: usize = contents.as_bytes().len();
    let mut lines: Vec<&'a str> = Vec::new();
    // Character positions, with their byte offsets in the UTF-8 encoding.
    let mut start: usize = 0;
    let mut start_byte: usize = 0;
    let mut i: usize = 0;
    let mut i_byte: usize = 0;
    let mut after_cr: bool = false;
    proof {
        assert(s.subrange(0, 0) =~= Seq::<char>::empty());
    }
    for c in it: contents.chars()
        invariant
            it.seq() == s,
            s == contents@,
            i == it.index(),
            n == s.len(),
            total == encode_utf8(s).len(),
            start <= i <= n,
            start_byte == encode_utf8(s.subrange(0, start as int)).len(),
            i_byte == encode_utf8(s.subrange(0, i as int)).len(),
            after_cr == (start < i && s[i - 1] == '\r'),
            lines_of(s) == lines.deep_view() + lines_from(s, start as int, i as int),
    {
        proof {
            assert(c == s[i as int]);
            lemma_encode_prefix_step(s, i as int);
            lemma_encode_prefix_len(s, i + 1);
        }
        let next_byte: usize = i_byte + utf8_width(c);
        if c == '\n' {
            let end: usize;
            let end_byte: usize;
            if after_cr {
                proof {
                    lemma_encode_prefix_step(s, i - 1);
                    assert(encode_scalar('\r' as u32).len() == 1);
                }
                end = i - 1;
                end_byte = i_byte - 1;
            } else {
                end = i;
                end_byte = i_byte;
            }
            let line = slice_chars(contents, start_byte, end_byte, Ghost(start as int), Ghost(end as int));
            let ghost before = lines.deep_view();
            lines.push(line);
            proof {
                assert(lines.deep_view() =~= before.push(line@));
                assert(lines.deep_view() + lines_from(s, i + 1, i + 1) =~= before + lines_from(
                    s,
                    start as int,
                    i as int,
                ));
            }
            start = i + 1;
            start_byte = next_byte;
        }
        after_cr = c == '\r';
        i = i + 1;
        i_byte = next_byte;
    }
    if start < n {
        proof {
            assert(s.subrange(0, n as int) =~= s);
        }
        let line = slice_chars(contents, start_byte, total, Ghost(start as int), Ghost(n as int));
        let ghost before = lines.deep_view();
        lines.push(line);
        proof {
            assert(lines.deep_view() =~= before.push(line@));
        }
    }
    proof {
        assert(lines.deep_view() =~= lines_of(s));
    }
    lines
}

} // verus!
