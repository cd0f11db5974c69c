//! The asymmetric cipher behind the codec: SM2 public-key encryption, with
//! the syntactic key checks that keep its calls total.

use vstd::prelude::*;
use vstd::slice::slice_index_get;
use vstd::string::StringSliceAdditionalSpecFns;
use crate::hexcodec::is_hex_digit;

verus! {

/// A private key handle the cipher can consume: 64 hexadecimal digit bytes.
pub open spec fn valid_private_key(b: Seq<u8>) -> bool {
    &&& b.len() == 64
    &&& forall|i: int| 0 <= i < b.len() ==> is_hex_digit(#[trigger] b[i])
}

/// A public key handle the cipher can consume: 128 hexadecimal digit bytes,
/// or the same with a leading `04` tag.
pub open spec fn valid_public_key(b: Seq<u8>) -> bool {
    ||| (b.len() == 128 && forall|i: int| 0 <= i < b.len() ==> is_hex_digit(#[trigger] b[i]))
    ||| (b.len() == 130 && b[0] == 48 && b[1] == 52 && forall|i: int|
        2 <= i < b.len() ==> is_hex_digit(#[trigger] b[i]))
}

/// The 128 digits the cipher works with: a tagged key with its `04` prefix
/// dropped, a bare one unchanged.
pub open spec fn public_key_body(b: Seq<u8>) -> Seq<u8> {
    if b.len() == 130 {
        b.skip(2)
    } else {
        b
    }
}

/// The public key that SM2 derives from a private key, as hexadecimal
/// digit bytes.
pub uninterp spec fn spec_sm2_public_of(sk: Seq<u8>) -> Seq<u8>;

/// What SM2 decryption recovers from a private key and a ciphertext of at
/// least the 96-byte header. Deterministic in both; for a mismatched key or
/// a mangled ciphertext it is simply some other byte sequence.
pub uninterp spec fn spec_sm2_decrypt(sk: Seq<u8>, c: Seq<u8>) -> Seq<u8>;

/// True of a hexadecimal digit byte; the executable form of `is_hex_digit`.
pub fn check_hex_digit(c: u8) -> (r: bool)
    ensures
        r == is_hex_digit(c),
{
    (48 <= c && c <= 57) || (97 <= c && c <= 102) || (65 <= c && c <= 70)
}

/// Whether a string is a private key handle the cipher accepts.
pub fn check_private_key(private_key: &str) -> (r: bool)
    ensures
        r == valid_private_key(private_key.spec_bytes()),
{
    let b = private_key.as_bytes();
    if b.len() != 64 {
        return false;
    }
    let mut i: usize = 0;
    while i < b.len()
        invariant
            i <= b@.len(),
            b@ == private_key.spec_bytes(),
            b@.len() == 64,
            forall|j: int| 0 <= j < i ==> is_hex_digit(#[trigger] b@[j]),
        decreases b@.len() - i,
    {
        if !check_hex_digit(*slice_index_get(b, i)) {
            return false;
        }
        i = i + 1;
    }
    true
}

/// Whether a string is a public key handle the cipher accepts, with or
/// without the `04` tag.
pub fn check_public_key(public_key: &str) -> (r: bool)
    ensures
        r == valid_public_key(public_key.spec_bytes()),
{
    let b = public_key.as_bytes();
    let start: usize = if b.len() == 128 {
        0
    } else if b.len() == 130 {
        if *slice_index_get(b, 0) == 48 && *slice_index_get(b, 1) == 52 {
            2
        } else {
            return false;
        }
    } else {
        return false;
    };
    let mut i: usize = start;
    while i < b.len()
        invariant
            start <= i <= b@.len(),
            b@ == public_key.spec_bytes(),
            b@.len() == 128 || b@.len() == 130,
            b@.len() == 128 ==> start == 0,
            b@.len() == 130 ==> start == 2 && b@[0] == 48 && b@[1] == 52,
            forall|j: int| start <= j < i ==> is_hex_digit(#[trigger] b@[j]),
        decreases b@.len() - i,
    {
        if !check_hex_digit(*slice_index_get(b, i)) {
            return false;
        }
        i = i + 1;
    }
    true
}

/// Relies on smcrypto's sm2::Encrypt::new and sm2::Encrypt::encrypt: a
/// well-formed public key yields either the cipher's empty failure signal
/// or a ciphertext of the plaintext's length plus the 96-byte header, and
/// SM2 decryption under any well-formed private key behind that public key
/// recovers a plaintext that does not begin with a zero byte. (The cipher
/// carries the plaintext as a big-endian number, so a leading zero byte
/// would be dropped on recovery.)
#[verifier::external_body]
pub(crate) fn sm2_encrypt(public_key: &str, data: &[u8]) -> (r: Vec<u8>)
    requires
        valid_public_key(public_key.spec_bytes()),
    ensures
        r@.len() == 0 || r@.len() == data@.len() + 96,
        (r@.len() != 0 && data@.len() > 0 && data@[0] != 0) ==> forall|sk: Seq<u8>|
            valid_private_key(sk) && #[trigger] spec_sm2_public_of(sk) == public_key_body(
                public_key.spec_bytes(),
            ) ==> spec_sm2_decrypt(sk, r@) == data@,
{
    smcrypto::sm2::Encrypt::new(public_key).encrypt(data)
}

/// Relies on smcrypto's sm2::Decrypt::new and sm2::Decrypt::decrypt: for a
/// well-formed private key and at least 96 bytes of input the call returns,
/// deterministically in the key and the bytes alone.
#[verifier::external_body]
pub(crate) fn sm2_decrypt(private_key: &str, data: &[u8]) -> (r: Vec<u8>)
    requires
        valid_private_key(private_key.spec_bytes()),
        data@.len() >= 96,
    ensures
        r@ == spec_sm2_decrypt(private_key.spec_bytes(), data@),
{
    smcrypto::sm2::Decrypt::new(private_key).decrypt(data)
}

} // verus!
