//! Decoding of the text and bytes that arrive on the message bus: UTF-8
//! (through std) and Base64 (through the `base64` crate).
use base64::Engine;
use rand::Rng;
use vstd::prelude::*;
use vstd::utf8::*;

verus! {

/// The bytes that the `base64` crate's standard engine (RFC 4648 alphabet,
/// canonical padding required) decodes from `input`, or `None` where it
/// reports an error.
pub uninterp spec fn base64_standard_decode(input: Seq<char>) -> Option<Seq<u8>>;

/// Decodes Base64 text with `base64::engine::general_purpose::STANDARD`.
///
/// Trusted: `Engine::decode` is a function of its input alone; the contract
/// only names its result (`base64_standard_decode`), it states nothing of
/// the alphabet or padding rules.
#[verifier::external_body]
pub(crate) fn decode_base64(input: &str) -> (r: Option<Vec<u8>>)
    ensures
        match r {
            Some(v) => base64_standard_decode(input@) == Some(v@),
            None => base64_standard_decode(input@) is None,
        },
{
    base64::engine::general_purpose::STANDARD.decode(input).ok()
}

/// `std::str::from_utf8`.
///
/// Trusted: std documents that it succeeds exactly on valid UTF-8 and that
/// the string then holds the characters those bytes encode.
#[verifier::external_body]
pub(crate) fn str_from_utf8(bytes: &[u8]) -> (r: Option<&str>)
    ensures
        match r {
            Some(s) => valid_utf8(bytes@) && s@ == decode_utf8(bytes@),
            None => !valid_utf8(bytes@),
        },
{
    std::str::from_utf8(bytes).ok()
}

/// The characters that `String::from_utf8_lossy` gives for `bytes`.
pub uninterp spec fn utf8_lossy(bytes: Seq<u8>) -> Seq<char>;

/// `String::from_utf8_lossy`, made owned.
///
/// Trusted: the result is named `utf8_lossy`; std documents that valid UTF-8
/// is decoded unchanged. How invalid sequences are replaced is not stated.
#[verifier::external_body]
pub(crate) fn string_from_utf8_lossy(bytes: &[u8]) -> (s: String)
    ensures
        s@ == utf8_lossy(bytes@),
        valid_utf8(bytes@) ==> s@ == decode_utf8(bytes@),
{
    String::from_utf8_lossy(bytes).into_owned()
}

/// A number drawn by `rand::thread_rng().gen_range(0..n)`.
///
/// Trusted: `gen_range` returns a value of the half-open range; it panics on
/// an empty range, which the `requires` rules out. Which value comes back
/// depends on chance and is not stated.
#[verifier::external_body]
pub(crate) fn random_below(n: usize) -> (r: usize)
    requires
        n > 0,
    ensures
        r < n,
{
    rand::thread_rng().gen_range(0..n)
}

} // verus!
