//! The credential codec: serialize an (identity, expiry) pair, encrypt it,
//! and layer the two text encodings; and the exact inverse.

use vstd::prelude::*;
use vstd::string::StringSliceAdditionalSpecFns;
use vstd::utf8::{decode_utf8, encode_utf8, valid_utf8};
use crate::base64codec::{base64_decode, base64_encode, spec_base64_decode};
use crate::errors::CredentialError;
use crate::hexcodec::{hex_decode, hex_encode, lemma_hex_round_trip, spec_hex_decode, spec_hex_ok};
use crate::plaintext::{
    bytes_to_string, contains_byte, lemma_ascii_byte_occurrence, lemma_split_of_join,
    split_at_pipe, split_once_pipe, PIPE_BYTE,
};
use crate::sm2cipher::{
    check_private_key, check_public_key, public_key_body, sm2_decrypt, sm2_encrypt,
    spec_sm2_decrypt, spec_sm2_public_of, valid_private_key, valid_public_key,
};
use crate::timestamp::{
    clock_now, rfc3339_format, rfc3339_parse, spec_rfc3339_parse, Timestamp, MAX_FORMAT_SECS,
};

verus! {

/// The SM2 ciphertext header: the curve point and digest that precede the
/// masked plaintext, so no ciphertext below this length can be decrypted.
pub const CIPHER_HEADER_LEN: usize = 96;

/// What decoding a credential string under a private key yields, step by
/// step: base64 text to hexadecimal text, hexadecimal text to ciphertext,
/// ciphertext to plaintext, plaintext split at the single separator into
/// the identity and the timestamp text. Every failure is a typed error.
pub open spec fn spec_decode(code: Seq<char>, sk: Seq<u8>) -> Result<
    (Seq<char>, (i64, u32)),
    CredentialError,
> {
    if !valid_private_key(sk) {
        Err(CredentialError::InvalidKeyMaterial)
    } else {
        match spec_base64_decode(code) {
            None => Err(CredentialError::MalformedCredential),
            Some(hex_text) => {
                if !spec_hex_ok(hex_text) {
                    Err(CredentialError::MalformedCredential)
                } else {
                    let cipher = spec_hex_decode(hex_text);
                    if cipher.len() < CIPHER_HEADER_LEN {
                        Err(CredentialError::DecryptionFailed)
                    } else {
                        let plain = spec_sm2_decrypt(sk, cipher);
                        match split_once_pipe(plain) {
                            None => Err(CredentialError::MalformedCredential),
                            Some(parts) => {
                                if !valid_utf8(parts.0) {
                                    Err(CredentialError::MalformedCredential)
                                } else {
                                    match spec_rfc3339_parse(parts.1) {
                                        None => Err(CredentialError::MalformedCredential),
                                        Some(t) => Ok((decode_utf8(parts.0), t)),
                                    }
                                }
                            },
                        }
                    }
                }
            },
        }
    }
}

/// What decoding gives back for a credential issued over this identity and
/// expiry: the pair itself, unless the identity holds the reserved
/// separator, which corrupts the split and is rejected as malformed.
pub open spec fn issue_outcome(id: Seq<char>, secs: i64, nanos: u32) -> Result<
    (Seq<char>, (i64, u32)),
    CredentialError,
> {
    if id.contains('|') {
        Err(CredentialError::MalformedCredential)
    } else {
        Ok((id, (secs, nanos)))
    }
}

/// The issued credential's round trip, stated of the decode pipeline: under
/// every private key behind the issuing public key, the credential decodes
/// to what was issued. An identity whose first character is the NUL
/// character is left unjudged: the cipher carries the plaintext as a
/// big-endian number and would drop its leading zero byte.
pub open spec fn decodes_as_issued(
    code: Seq<char>,
    id: Seq<char>,
    secs: i64,
    nanos: u32,
    pk_bytes: Seq<u8>,
) -> bool {
    (id.len() == 0 || id[0] != '\0') ==> forall|sk: Seq<u8>|
        valid_private_key(sk) && #[trigger] spec_sm2_public_of(sk) == public_key_body(pk_bytes)
            ==> spec_decode(code, sk) == issue_outcome(id, secs, nanos)
}

/// One issuance seen from outside: the clock read `issue`, and the expiry
/// it led to for the requested number of days.
pub open spec fn issued_with(
    code: Seq<char>,
    id: Seq<char>,
    days: i64,
    issue: (i64, u32),
    expiry_secs: i64,
    pk_bytes: Seq<u8>,
) -> bool {
    &&& 0 <= issue.0
    &&& issue.1 < 1_000_000_000
    &&& expiry_secs == issue.0 + days * 86400
    &&& 0 <= expiry_secs <= MAX_FORMAT_SECS
    &&& decodes_as_issued(code, id, expiry_secs, issue.1, pk_bytes)
}

/// Builds the credential string for an identity and an explicit expiry
/// instant: plaintext `identity|timestamp`, SM2-encrypted, rendered as
/// hexadecimal text and then as base64.
pub fn build_credential(identity: &str, expiry: Timestamp, public_key: &str) -> (r: Result<
    String,
    CredentialError,
>)
    requires
        0 <= expiry.secs <= MAX_FORMAT_SECS,
        expiry.nanos < 1_000_000_000,
    ensures
        match r {
            Ok(code) => decodes_as_issued(
                code@,
                identity@,
                expiry.secs,
                expiry.nanos,
                public_key.spec_bytes(),
            ),
            Err(e) => {
                &&& (e == CredentialError::InvalidKeyMaterial || e
                    == CredentialError::EncryptionFailed)
                &&& (e == CredentialError::InvalidKeyMaterial <==> !valid_public_key(
                    public_key.spec_bytes(),
                ))
            },
        },
{
    if !check_public_key(public_key) {
        return Err(CredentialError::InvalidKeyMaterial);
    }
    let ts_bytes = rfc3339_format(expiry.secs, expiry.nanos);
    let id_bytes = identity.as_bytes();
    let mut plain: Vec<u8> = Vec::new();
    plain.extend_from_slice(id_bytes);
    plain.push(PIPE_BYTE);
    plain.extend_from_slice(ts_bytes.as_slice());
    proof {
        assert(plain@ =~= encode_utf8(identity@) + seq![PIPE_BYTE] + ts_bytes@);
    }
    let cipher = sm2_encrypt(public_key, plain.as_slice());
    if cipher.len() == 0 {
        return Err(CredentialError::EncryptionFailed);
    }
    let hex_text = hex_encode(cipher.as_slice());
    let code = base64_encode(hex_text.as_slice());
    proof {
        lemma_issued_credential_decodes(
            code@,
            identity@,
            expiry,
            public_key.spec_bytes(),
            plain@,
            ts_bytes@,
            cipher@,
        );
    }
    Ok(code)
}

/// From the facts the encode pipeline leaves behind, the decode pipeline's
/// verdict on the new credential, for every private key behind the issuing
/// public key.
proof fn lemma_issued_credential_decodes(
    code: Seq<char>,
    id: Seq<char>,
    expiry: Timestamp,
    pk_bytes: Seq<u8>,
    plain: Seq<u8>,
    ts_bytes: Seq<u8>,
    cipher: Seq<u8>,
)
    requires
        plain == encode_utf8(id) + seq![PIPE_BYTE] + ts_bytes,
        forall|i: int| 0 <= i < ts_bytes.len() ==> 43 <= #[trigger] ts_bytes[i] <= 84,
        ts_bytes.len() >= 20,
        spec_rfc3339_parse(ts_bytes) == Some((expiry.secs, expiry.nanos)),
        cipher.len() == plain.len() + 96,
        (plain.len() > 0 && plain[0] != 0) ==> forall|sk: Seq<u8>|
            valid_private_key(sk) && #[trigger] spec_sm2_public_of(sk) == public_key_body(pk_bytes)
                ==> spec_sm2_decrypt(sk, cipher) == plain,
        spec_base64_decode(code) == Some(crate::hexcodec::spec_hex_encode(cipher)),
    ensures
        decodes_as_issued(code, id, expiry.secs, expiry.nanos, pk_bytes),
{
    lemma_hex_round_trip(cipher);
    let enc_id = encode_utf8(id);
    assert(!contains_byte(ts_bytes, PIPE_BYTE));
    if id.len() == 0 || id[0] != '\0' {
        assert(plain[enc_id.len() as int] == PIPE_BYTE);
        assert(plain.len() > 0);
        if id.len() > 0 {
            crate::plaintext::lemma_encode_utf8_first_byte_nonzero(id);
            assert(plain[0] == enc_id[0]);
        }
        assert(plain[0] != 0);
        assert forall|sk: Seq<u8>|
            valid_private_key(sk) && #[trigger] spec_sm2_public_of(sk) == public_key_body(
                pk_bytes,
            ) implies spec_decode(code, sk) == issue_outcome(
            id,
            expiry.secs,
            expiry.nanos,
        ) by {
            assert(spec_sm2_decrypt(sk, cipher) == plain);
            lemma_ascii_byte_occurrence(id, PIPE_BYTE);
            if id.contains('|') {
                crate::plaintext::lemma_split_extra_pipe(enc_id, ts_bytes);
            } else {
                lemma_split_of_join(enc_id, ts_bytes);
                broadcast use vstd::utf8::encode_utf8_valid_utf8;
                broadcast use vstd::utf8::encode_utf8_decode_utf8;

                assert(valid_utf8(enc_id));
                assert(decode_utf8(enc_id) == id);
            }
        }
    }
}

/// Round trip: a credential issued over a separator-free identity (not
/// beginning with NUL) decodes, under every private key behind the issuing
/// public key, to exactly that identity and the issued expiry instant.
pub proof fn lemma_round_trip(
    code: Seq<char>,
    id: Seq<char>,
    secs: i64,
    nanos: u32,
    pk_bytes: Seq<u8>,
    sk: Seq<u8>,
)
    requires
        decodes_as_issued(code, id, secs, nanos, pk_bytes),
        id.len() == 0 || id[0] != '\0',
        !id.contains('|'),
        valid_private_key(sk),
        spec_sm2_public_of(sk) == public_key_body(pk_bytes),
    ensures
        spec_decode(code, sk) == Ok::<(Seq<char>, (i64, u32)), CredentialError>(
            (id, (secs, nanos)),
        ),
{
}

/// Separator edge case: an identity holding the reserved `|` makes the
/// issued credential decode to a malformed-credential failure — the split
/// sees more than two parts and rejects them.
pub proof fn lemma_separator_rejected(
    code: Seq<char>,
    id: Seq<char>,
    secs: i64,
    nanos: u32,
    pk_bytes: Seq<u8>,
    sk: Seq<u8>,
)
    requires
        decodes_as_issued(code, id, secs, nanos, pk_bytes),
        id.len() == 0 || id[0] != '\0',
        id.contains('|'),
        valid_private_key(sk),
        spec_sm2_public_of(sk) == public_key_body(pk_bytes),
    ensures
        spec_decode(code, sk) == Err::<(Seq<char>, (i64, u32)), CredentialError>(
            CredentialError::MalformedCredential,
        ),
{
}

/// Encoding layering, accepted side: whenever decoding succeeds, the
/// base64 layer came off first and left acceptable hexadecimal text.
pub proof fn lemma_encoding_layering(code: Seq<char>, sk: Seq<u8>)
    requires
        spec_decode(code, sk) is Ok,
    ensures
        spec_base64_decode(code) is Some,
        spec_hex_ok(spec_base64_decode(code).unwrap()),
{
}

/// Encoding layering, rejected side: base64 text over anything but
/// hexadecimal text — base64 over raw ciphertext, say — is rejected as a
/// malformed credential.
pub proof fn lemma_wrong_layering_rejected(code: Seq<char>, sk: Seq<u8>)
    requires
        valid_private_key(sk),
        spec_base64_decode(code) matches Some(h) && !spec_hex_ok(h),
    ensures
        spec_decode(code, sk) == Err::<(Seq<char>, (i64, u32)), CredentialError>(
            CredentialError::MalformedCredential,
        ),
{
}

/// Expiry arithmetic: an issuance for zero days expires at the very issue
/// instant (the clock's nanoseconds included), and one for negative days
/// expires strictly before it, with no issue-time error.
pub proof fn lemma_expiry_arithmetic(
    code: Seq<char>,
    id: Seq<char>,
    days: i64,
    issue: (i64, u32),
    expiry_secs: i64,
    pk_bytes: Seq<u8>,
)
    requires
        issued_with(code, id, days, issue, expiry_secs, pk_bytes),
    ensures
        days == 0 ==> expiry_secs == issue.0 && decodes_as_issued(
            code,
            id,
            issue.0,
            issue.1,
            pk_bytes,
        ),
        days < 0 ==> expiry_secs < issue.0,
{
}

/// Issues a registration credential: the identity and an expiry `days`
/// days from now (negative for an already-expired credential), encrypted
/// under the public key and rendered as base64 over hexadecimal text.
pub fn generate_code(email: &str, days: i64, public_key: &str) -> (r: Result<
    String,
    CredentialError,
>)
    ensures
        match r {
            Ok(code) => exists|issue: (i64, u32), expiry_secs: i64|
                issued_with(code@, email@, days, issue, expiry_secs, public_key.spec_bytes()),
            Err(e) => {
                &&& (e == CredentialError::InvalidKeyMaterial || e
                    == CredentialError::UnrepresentableExpiry || e
                    == CredentialError::EncryptionFailed)
                &&& (e == CredentialError::InvalidKeyMaterial <==> !valid_public_key(
                    public_key.spec_bytes(),
                ))
            },
        },
{
    if !check_public_key(public_key) {
        return Err(CredentialError::InvalidKeyMaterial);
    }
    let now = clock_now();
    let delta = match days.checked_mul(86400) {
        None => return Err(CredentialError::UnrepresentableExpiry),
        Some(d) => d,
    };
    let expiry_secs = match now.0.checked_add(delta) {
        None => return Err(CredentialError::UnrepresentableExpiry),
        Some(s) => s,
    };
    if expiry_secs < 0 || expiry_secs > MAX_FORMAT_SECS {
        return Err(CredentialError::UnrepresentableExpiry);
    }
    let expiry = Timestamp { secs: expiry_secs, nanos: now.1 };
    match build_credential(email, expiry, public_key) {
        Ok(code) => {
            proof {
                assert(issued_with(
                    code@,
                    email@,
                    days,
                    (now.0, now.1),
                    expiry_secs,
                    public_key.spec_bytes(),
                ));
            }
            Ok(code)
        },
        Err(e) => Err(e),
    }
}

/// Decodes a credential string under a private key, reversing exactly the
/// issuing layers, and returns the identity and the expiry instant. The
/// caller compares the instant against its own clock: the codec does not
/// enforce expiry.
pub fn decode_code(code: &str, private_key: &str) -> (r: Result<
    (String, Timestamp),
    CredentialError,
>)
    ensures
        match r {
            Ok(p) => spec_decode(code@, private_key.spec_bytes()) == Ok::<
                (Seq<char>, (i64, u32)),
                CredentialError,
            >((p.0@, (p.1.secs, p.1.nanos))) && p.1.wf(),
            Err(e) => spec_decode(code@, private_key.spec_bytes()) == Err::<
                (Seq<char>, (i64, u32)),
                CredentialError,
            >(e),
        },
{
    if !check_private_key(private_key) {
        return Err(CredentialError::InvalidKeyMaterial);
    }
    let hex_text = match base64_decode(code) {
        None => return Err(CredentialError::MalformedCredential),
        Some(v) => v,
    };
    let cipher = match hex_decode(hex_text.as_slice()) {
        None => return Err(CredentialError::MalformedCredential),
        Some(v) => v,
    };
    if cipher.len() < CIPHER_HEADER_LEN {
        return Err(CredentialError::DecryptionFailed);
    }
    let plain = sm2_decrypt(private_key, cipher.as_slice());
    let parts = match split_at_pipe(plain.as_slice()) {
        None => return Err(CredentialError::MalformedCredential),
        Some(p) => p,
    };
    let identity = match bytes_to_string(parts.0) {
        None => return Err(CredentialError::MalformedCredential),
        Some(s) => s,
    };
    let instant = match rfc3339_parse(parts.1.as_slice()) {
        None => return Err(CredentialError::MalformedCredential),
        Some(t) => t,
    };
    Ok((identity, Timestamp { secs: instant.0, nanos: instant.1 }))
}

} // verus!
