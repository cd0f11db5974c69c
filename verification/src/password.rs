//! The password utility, independent of the credential codec: salted SM3
//! digests for storage, constant-time verification, and a random-string
//! generator for salts and one-time tokens.

use vstd::prelude::*;
use vstd::slice::slice_index_get;
use vstd::string::StringSliceAdditionalSpecFns;
use vstd::utf8::encode_utf8;
use rand::Rng;
use crate::base64codec::{base64_encode, spec_base64_encode};
use crate::plaintext::{bytes_to_string, lemma_ascii_bytes_utf8, lemma_encode_utf8_injective};

verus! {

/// The SM3 digest of a byte sequence, as smcrypto renders it: 64 lowercase
/// hexadecimal digit bytes. Named, not spelled out: nothing here could
/// check a transcription of the compression function.
pub uninterp spec fn spec_sm3_hex(m: Seq<u8>) -> Seq<u8>;

/// Relies on smcrypto's sm3::sm3_hash: deterministic in the bytes alone,
/// total, and rendered as 64 hexadecimal characters of the 256-bit digest.
#[verifier::external_body]
fn sm3_hex(msg: &[u8]) -> (r: Vec<u8>)
    ensures
        r@ == spec_sm3_hex(msg@),
        r@.len() == 64,
{
    smcrypto::sm3::sm3_hash(msg).into_bytes()
}

/// Relies on rand's thread_rng and Rng::gen_range: an index below the
/// bound, from a cryptographically sound source. Nothing more is promised
/// of which index comes back.
#[verifier::external_body]
fn random_index(bound: usize) -> (r: usize)
    requires
        bound > 0,
    ensures
        r < bound,
{
    rand::thread_rng().gen_range(0..bound)
}

/// The stored digest text for a password and salt: base64 over the
/// hexadecimal SM3 digest of the password's bytes followed by the salt's.
pub open spec fn spec_password_digest(password: Seq<char>, salt: Seq<char>) -> Seq<char> {
    spec_base64_encode(spec_sm3_hex(encode_utf8(password) + encode_utf8(salt)))
}

/// A character of the random-string alphabet `[a-zA-Z0-9]`.
pub open spec fn is_alphanumeric_char(c: char) -> bool {
    ('a' <= c && c <= 'z') || ('A' <= c && c <= 'Z') || ('0' <= c && c <= '9')
}

/// A byte of the same alphabet.
pub open spec fn is_alphanumeric_byte(v: u8) -> bool {
    (97 <= v <= 122) || (65 <= v <= 90) || (48 <= v <= 57)
}

/// The alphabet in its fixed order: lowercase, uppercase, digits.
fn charset_byte(idx: usize) -> (r: u8)
    requires
        idx < 62,
    ensures
        is_alphanumeric_byte(r),
{
    if idx < 26 {
        97 + (idx as u8)
    } else if idx < 52 {
        65 + (idx as u8 - 26)
    } else {
        48 + (idx as u8 - 52)
    }
}

/// Draws a string of the requested length, uniformly over `[a-zA-Z0-9]`,
/// for salts and one-time tokens.
pub fn generate_random_string(length: usize) -> (r: String)
    ensures
        r@.len() == length,
        forall|i: int| 0 <= i < r@.len() ==> is_alphanumeric_char(#[trigger] r@[i]),
{
    let mut bytes: Vec<u8> = Vec::new();
    let mut k: usize = 0;
    while k < length
        invariant
            k <= length,
            bytes@.len() == k,
            forall|j: int| 0 <= j < k ==> is_alphanumeric_byte(#[trigger] bytes@[j]),
        decreases length - k,
    {
        let idx = random_index(62);
        bytes.push(charset_byte(idx));
        k = k + 1;
    }
    proof {
        lemma_ascii_bytes_utf8(bytes@);
    }
    let ghost pre = bytes@;
    match bytes_to_string(bytes) {
        Some(s) => {
            proof {
                assert forall|i: int| 0 <= i < s@.len() implies is_alphanumeric_char(
                    #[trigger] s@[i],
                ) by {
                    assert(is_alphanumeric_byte(pre[i]));
                    assert(s@[i] as u32 == pre[i] as u32);
                    vstd::utf8::char_u32_cast(s@[i], pre[i] as u32);
                    assert((pre[i] as char) as u32 == pre[i] as u32);
                    vstd::utf8::char_u32_cast(pre[i] as char, pre[i] as u32);
                    assert(s@[i] == pre[i] as char);
                }
            }
            s
        },
        None => {
            proof {
                assert(false);
            }
            String::new()
        },
    }
}

/// Digests a password under a salt for storage: the SM3 digest of
/// `password` followed by `salt`, rendered as base64 text. Total over all
/// string inputs.
pub fn encrypt_password(password: &str, salt: &str) -> (r: String)
    ensures
        r@ == spec_password_digest(password@, salt@),
{
    let mut data: Vec<u8> = Vec::new();
    data.extend_from_slice(password.as_bytes());
    data.extend_from_slice(salt.as_bytes());
    proof {
        assert(data@ =~= encode_utf8(password@) + encode_utf8(salt@));
    }
    let digest = sm3_hex(data.as_slice());
    base64_encode(digest.as_slice())
}

/// Compares two byte strings for equality without leaving early, so the
/// time taken does not reveal the first differing position.
fn constant_time_eq(a: &[u8], b: &[u8]) -> (r: bool)
    ensures
        r == (a@ == b@),
{
    if a.len() != b.len() {
        return false;
    }
    let mut acc: u8 = 0;
    let mut i: usize = 0;
    while i < a.len()
        invariant
            a@.len() == b@.len(),
            i <= a@.len(),
            acc == 0 <==> (forall|j: int| 0 <= j < i ==> a@[j] == b@[j]),
        decreases a@.len() - i,
    {
        let x = *slice_index_get(a, i);
        let y = *slice_index_get(b, i);
        proof {
            let acc0 = acc;
            assert((acc0 | (x ^ y)) == 0 <==> acc0 == 0 && x == y) by (bit_vector);
        }
        acc = acc | (x ^ y);
        i = i + 1;
    }
    proof {
        if acc == 0 {
            assert(a@ =~= b@);
        }
    }
    acc == 0
}

/// The acceptance half of verification: a digest stored exactly as the
/// hash operation renders it verifies against the same password and salt.
/// (The rejecting half — distinct passwords giving distinct digests —
/// rests on the digest's collision resistance, which nothing here can
/// state, let alone prove.)
pub proof fn lemma_verify_of_own_digest(password: Seq<char>, salt: Seq<char>, stored: Seq<char>)
    requires
        stored == spec_password_digest(password, salt),
    ensures
        spec_password_digest(password, salt) == stored,
{
}

/// Whether a candidate password and salt reproduce a stored digest: the
/// digest is recomputed exactly as `encrypt_password` builds it, and
/// compared in constant time.
pub fn verify_password(password: &str, salt: &str, encrypted_password: &str) -> (r: bool)
    ensures
        r == (spec_password_digest(password@, salt@) == encrypted_password@),
{
    let fresh = encrypt_password(password, salt);
    let eq = constant_time_eq(fresh.as_str().as_bytes(), encrypted_password.as_bytes());
    proof {
        if encode_utf8(fresh@) == encode_utf8(encrypted_password@) {
            lemma_encode_utf8_injective(fresh@, encrypted_password@);
        }
    }
    eq
}

} // verus!
