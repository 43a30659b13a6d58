//! Slicing a string slice between two character positions in constant time,
//! by way of the byte offsets of those positions in its UTF-8 encoding.

use vstd::prelude::*;
use vstd::string::StringSliceAdditionalSpecFns;
use vstd::utf8::{
    char_is_scalar,
    encode_scalar,
    encode_utf8,
    encode_utf8_decode_utf8,
    encode_utf8_first_scalar,
    encode_utf8_valid_utf8,
    is_char_boundary,
    pop_first_scalar,
};

verus! {

/// Encoding distributes over concatenation.
pub(crate) proof fn lemma_encode_concat(x: Seq<char>, y: Seq<char>)
    ensures
        encode_utf8(x + y) == encode_utf8(x) + encode_utf8(y),
    decreases x.len(),
{
    if x.len() > 0 {
        assert((x + y).drop_first() =~= x.drop_first() + y);
        lemma_encode_concat(x.drop_first(), y);
        assert(encode_utf8(x + y) =~= encode_utf8(x) + encode_utf8(y));
    } else {
        assert(x + y =~= y);
    }
}

/// The end of the encoding of `x` starts a character in the encoding of `x + y`.
proof fn lemma_encode_boundary(x: Seq<char>, y: Seq<char>)
    ensures
        is_char_boundary(encode_utf8(x + y), encode_utf8(x).len() as int),
    decreases x.len(),
{
    if x.len() > 0 {
        let bytes = encode_utf8(x + y);
        encode_utf8_valid_utf8(x + y);
        encode_utf8_first_scalar(x + y);
        assert((x + y).drop_first() =~= x.drop_first() + y);
        assert(pop_first_scalar(bytes) =~= encode_utf8((x + y).drop_first()));
        lemma_encode_concat(x, y);
        lemma_encode_boundary(x.drop_first(), y);
        assert(encode_utf8(x).len() == encode_scalar(x[0] as u32).len() + encode_utf8(
            x.drop_first(),
        ).len());
        reveal_with_fuel(is_char_boundary, 2);
    } else {
        encode_utf8_valid_utf8(x + y);
        assert(encode_utf8(x).len() == 0);
    }
}

/// Encoding the first `i + 1` characters adds the encoding of character `i`
/// to that of the first `i`.
pub(crate) proof fn lemma_encode_prefix_step(s: Seq<char>, i: int)
    requires
        0 <= i < s.len(),
    ensures
        encode_utf8(s.subrange(0, i + 1)) == encode_utf8(s.subrange(0, i)) + encode_scalar(
            s[i] as u32,
        ),
{
    lemma_encode_concat(s.subrange(0, i), seq![s[i]]);
    assert(s.subrange(0, i) + seq![s[i]] =~= s.subrange(0, i + 1));
    assert(seq![s[i]].drop_first() =~= Seq::<char>::empty());
    assert(encode_utf8(seq![s[i]]) =~= encode_scalar(s[i] as u32) + encode_utf8(Seq::empty()));
    assert(encode_utf8(seq![s[i]]) =~= encode_scalar(s[i] as u32));
}

/// The encoding of a prefix of `s` is no longer than that of `s`.
pub(crate) proof fn lemma_encode_prefix_len(s: Seq<char>, i: int)
    requires
        0 <= i <= s.len(),
    ensures
        encode_utf8(s.subrange(0, i)).len() <= encode_utf8(s).len(),
{
    lemma_encode_concat(s.subrange(0, i), s.subrange(i, s.len() as int));
    assert(s.subrange(0, i) + s.subrange(i, s.len() as int) =~= s);
}

/// The number of bytes in the UTF-8 encoding of `c`.
pub(crate) fn utf8_width(c: char) -> (w: usize)
    ensures
        w == encode_scalar(c as u32).len(),
{
    proof {
        char_is_scalar(c);
    }
    let v = c as u32;
    if v <= 0x7f {
        1
    } else if v <= 0x7ff {
        2
    } else if v <= 0xffff {
        3
    } else {
        4
    }
}

/// The characters of `s` from position `a` up to position `b`, where `from`
/// and `to` are the byte offsets of those positions.
pub(crate) fn slice_chars<'a>(
    s: &'a str,
    from: usize,
    to: usize,
    Ghost(a): Ghost<int>,
    Ghost(b): Ghost<int>,
) -> (r: &'a str)
    requires
        0 <= a <= b <= s@.len(),
        from == encode_utf8(s@.subrange(0, a)).len(),
        to == encode_utf8(s@.subrange(0, b)).len(),
    ensures
        r@ == s@.subrange(a, b),
{
    let ghost head_chars = s@.subrange(0, b);
    let ghost piece = s@.subrange(a, b);
    proof {
        assert(head_chars + s@.subrange(b, s@.len() as int) =~= s@);
        lemma_encode_boundary(head_chars, s@.subrange(b, s@.len() as int));
        lemma_encode_concat(head_chars, s@.subrange(b, s@.len() as int));
        assert(s@.subrange(0, a) + piece =~= head_chars);
        lemma_encode_boundary(s@.subrange(0, a), piece);
        lemma_encode_concat(s@.subrange(0, a), piece);
    }
    let (head, _) = s.split_at(to);
    proof {
        assert(head.spec_bytes() =~= encode_utf8(head_chars));
    }
    let (_, r) = head.split_at(from);
    proof {
        assert(r.spec_bytes() =~= encode_utf8(piece));
        encode_utf8_decode_utf8(r@);
        encode_utf8_decode_utf8(piece);
    }
    r
}

} // verus!
