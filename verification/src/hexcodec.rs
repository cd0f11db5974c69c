//! The lower of the credential's two text layers: ciphertext bytes rendered
//! as lowercase hexadecimal text, and the inverse.

use vstd::prelude::*;

verus! {

/// The ASCII byte for the lowercase hexadecimal digit of a value below 16.
pub open spec fn hex_digit_byte(v: u8) -> u8
    recommends
        v < 16,
{
    if v < 10 {
        (48 + v) as u8
    } else {
        (87 + v) as u8
    }
}

/// True of an ASCII byte that is a hexadecimal digit, in either case.
pub open spec fn is_hex_digit(c: u8) -> bool {
    (48 <= c <= 57) || (97 <= c <= 102) || (65 <= c <= 70)
}

/// The value of a hexadecimal digit byte.
pub open spec fn hex_digit_value(c: u8) -> u8
    recommends
        is_hex_digit(c),
{
    if 48 <= c <= 57 {
        (c - 48) as u8
    } else if 97 <= c <= 102 {
        (c - 87) as u8
    } else {
        (c - 55) as u8
    }
}

/// The lowercase hexadecimal rendering of a byte sequence: two digit bytes
/// for each input byte, high nibble first.
pub open spec fn spec_hex_encode(b: Seq<u8>) -> Seq<u8> {
    Seq::new(
        2 * b.len(),
        |i: int|
            if i % 2 == 0 {
                hex_digit_byte(b[i / 2] / 16)
            } else {
                hex_digit_byte(b[i / 2] % 16)
            },
    )
}

/// True of text that hexadecimal decoding accepts: even length, every byte a
/// hexadecimal digit of either case.
pub open spec fn spec_hex_ok(s: Seq<u8>) -> bool {
    &&& s.len() % 2 == 0
    &&& forall|i: int| 0 <= i < s.len() ==> is_hex_digit(#[trigger] s[i])
}

/// The bytes that hexadecimal text decodes to.
pub open spec fn spec_hex_decode(s: Seq<u8>) -> Seq<u8>
    recommends
        spec_hex_ok(s),
{
    Seq::new(
        s.len() / 2,
        |i: int| (hex_digit_value(s[2 * i]) * 16 + hex_digit_value(s[2 * i + 1])) as u8,
    )
}

/// Encoding then decoding gives the bytes back, and the encoding is always
/// acceptable hexadecimal text.
pub proof fn lemma_hex_round_trip(b: Seq<u8>)
    ensures
        spec_hex_ok(spec_hex_encode(b)),
        spec_hex_decode(spec_hex_encode(b)) =~= b,
{
    let e = spec_hex_encode(b);
    assert forall|i: int| 0 <= i < e.len() implies is_hex_digit(#[trigger] e[i]) by {
        if i % 2 == 0 {
            assert(b[i / 2] / 16 < 16);
        } else {
            assert(b[i / 2] % 16 < 16);
        }
    }
    assert forall|i: int| 0 <= i < b.len() implies spec_hex_decode(e)[i] == b[i] by {
        assert(e[2 * i] == hex_digit_byte(b[i] / 16));
        assert(e[2 * i + 1] == hex_digit_byte(b[i] % 16));
        assert(hex_digit_value(hex_digit_byte(b[i] / 16)) == b[i] / 16);
        assert(hex_digit_value(hex_digit_byte(b[i] % 16)) == b[i] % 16);
        assert(b[i] / 16 * 16 + b[i] % 16 == b[i]);
    }
}

/// Relies on hex::encode: renders bytes as lowercase hexadecimal text, two
/// digits per byte, high nibble first.
#[verifier::external_body]
pub(crate) fn hex_encode(data: &[u8]) -> (r: Vec<u8>)
    ensures
        r@ == spec_hex_encode(data@),
{
    hex::encode(data).into_bytes()
}

/// Relies on hex::decode: accepts exactly the even-length strings of
/// hexadecimal digits of either case, and pairs digits into bytes, high
/// nibble first.
#[verifier::external_body]
pub(crate) fn hex_decode(data: &[u8]) -> (r: Option<Vec<u8>>)
    ensures
        match r {
            Some(v) => spec_hex_ok(data@) && v@ == spec_hex_decode(data@),
            None => !spec_hex_ok(data@),
        },
{
    match hex::decode(data) {
        Ok(v) => Some(v),
        Err(_) => None,
    }
}

} // verus!
