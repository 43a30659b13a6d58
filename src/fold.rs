//! Case folding, as the standard library does it.

use vstd::prelude::*;

verus! {

/// The lowercase form of `s`, under the Unicode mapping that the standard
/// library applies; it may depend on a character's neighbours (a final sigma).
pub uninterp spec fn lower_of(s: Seq<char>) -> Seq<char>;

/// Relies on `str::to_lowercase`, whose result depends on the characters of
/// `s` alone.
#[verifier::external_body]
pub(crate) fn lowercase(s: &str) -> (r: String)
    ensures
        r@ == lower_of(s@),
{
    s.to_lowercase()
}

} // verus!
