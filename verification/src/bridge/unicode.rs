//! Decoding of bytes and Unicode normalization.
use unicode_normalization::UnicodeNormalization;
use vstd::prelude::*;
use vstd::utf8::{decode_utf8, valid_utf8};

verus! {

/// What `String::from_utf8_lossy` makes of `bytes`.
pub uninterp spec fn lossy(bytes: Seq<u8>) -> Seq<char>;

/// What `UnicodeNormalization::nfc` makes of `s`.
pub uninterp spec fn nfc(s: Seq<char>) -> Seq<char>;

/// `std::str::from_utf8`: it succeeds exactly on valid UTF-8.
#[verifier::external_body]
pub(crate) fn is_utf8(bytes: &[u8]) -> (r: bool)
    ensures
        r == valid_utf8(bytes@),
{
    std::str::from_utf8(bytes).is_ok()
}

/// `String::from_utf8_lossy`: a function of the bytes, which decodes valid UTF-8 as it is.
/// What it puts in place of invalid sequences is left unsaid.
#[verifier::external_body]
pub(crate) fn decode_lossy(bytes: &[u8]) -> (r: String)
    ensures
        r@ == lossy(bytes@),
        valid_utf8(bytes@) ==> r@ == decode_utf8(bytes@),
{
    String::from_utf8_lossy(bytes).into_owned()
}

/// `UnicodeNormalization::nfc`, collected: a function of the string. The result is in
/// Normalization Form C, and a string in that form is its own normalization: that is how
/// Unicode Standard Annex #15 defines the form, and how `is_nfc` decides on it.
#[verifier::external_body]
pub(crate) fn to_nfc(s: &str) -> (r: String)
    ensures
        r@ == nfc(s@),
        nfc(r@) == r@,
{
    s.nfc().collect()
}

} // verus!
