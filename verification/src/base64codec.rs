//! The outer text layer of a credential: standard padded base64 over the
//! hexadecimal text's bytes.

use vstd::prelude::*;

verus! {

/// The base64 rendering of a byte sequence, as base64::encode produces it
/// (standard alphabet, padded). Named, not spelled out: the bit-packing
/// table would restate the crate's algorithm without anything to check it
/// against.
pub uninterp spec fn spec_base64_encode(b: Seq<u8>) -> Seq<char>;

/// What base64::decode returns for a string: the decoded bytes, or nothing
/// where it rejects the string. Deterministic in the input alone.
pub uninterp spec fn spec_base64_decode(s: Seq<char>) -> Option<Seq<u8>>;

/// Relies on base64::encode (standard alphabet, padded), and on
/// base64::decode accepting its output and giving the input bytes back.
#[verifier::external_body]
pub(crate) fn base64_encode(data: &[u8]) -> (r: String)
    ensures
        r@ == spec_base64_encode(data@),
        spec_base64_decode(r@) == Some(data@),
{
    base64::encode(data)
}

/// Relies on base64::decode: deterministic in the input string, rejects
/// text outside the padded standard alphabet.
#[verifier::external_body]
pub(crate) fn base64_decode(data: &str) -> (r: Option<Vec<u8>>)
    ensures
        match r {
            Some(v) => spec_base64_decode(data@) == Some(v@),
            None => spec_base64_decode(data@) is None,
        },
{
    match base64::decode(data) {
        Ok(v) => Some(v),
        Err(_) => None,
    }
}

} // verus!
