use vstd::prelude::*;

verus! {

/// The failure kinds that the credential codec and its callers can see.
///
/// Every fallible step reports one of these instead of aborting:
/// - `MalformedCredential`: a structural decoding failure (bad base64 text,
///   bad hexadecimal text, bad UTF-8, a missing or duplicated separator, or
///   an unparsable timestamp).
/// - `DecryptionFailed`: the cipher rejected the ciphertext (too short for
///   the SM2 layout).
/// - `InvalidKeyMaterial`: a key handle that the cipher cannot consume
///   (wrong length, or not hexadecimal text).
/// - `UnrepresentableExpiry`: the requested validity period puts the expiry
///   instant outside the range the timestamp formatter can render.
/// - `EncryptionFailed`: the cipher signalled failure by returning an empty
///   ciphertext.
#[derive(Clone, Copy, Debug, PartialEq, Eq, Structural)]
pub enum CredentialError {
    MalformedCredential,
    DecryptionFailed,
    InvalidKeyMaterial,
    UnrepresentableExpiry,
    EncryptionFailed,
}

impl CredentialError {
    /// A short description, for callers that print failures.
    pub fn describe(&self) -> (r: &'static str)
        ensures
            r@.len() > 0,
    {
        let r = match self {
            CredentialError::MalformedCredential => "malformed credential",
            CredentialError::DecryptionFailed => "decryption failed",
            CredentialError::InvalidKeyMaterial => "invalid key material",
            CredentialError::UnrepresentableExpiry => "expiry out of range",
            CredentialError::EncryptionFailed => "encryption failed",
        };
        proof {
            reveal_strlit("malformed credential");
            reveal_strlit("decryption failed");
            reveal_strlit("invalid key material");
            reveal_strlit("expiry out of range");
            reveal_strlit("encryption failed");
        }
        r
    }
}

} // verus!
