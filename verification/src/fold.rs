//! Case folding, as the standard library does it.

use vstd::prelude::*;

verus! {

/// The lowercase form that `str::to_lowercase` of the standard library gives
/// to a string: each character replaced as Unicode's lowercase mapping says,
/// which may change the number of characters. Nothing but the characters of
/// the string decides it.
pub uninterp spec fn lowercase(s: Seq<char>) -> Seq<char>;

/// Calls `str::to_lowercase`. The result is the lowercase form of `s`, and
/// the empty string stays empty.
#[verifier::external_body]
pub(crate) fn to_lowercase(s: &str) -> (folded: String)
    ensures
        folded@ == lowercase(s@),
        s@.len() == 0 ==> folded@.len() == 0,
{
    s.to_lowercase()
}

} // verus!
