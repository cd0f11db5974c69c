//! Time-limited registration credentials bound to an identity string.
//!
//! A credential is issued under an SM2 public key and checked under the
//! matching private key. The plaintext is `identity|timestamp`, the
//! ciphertext is rendered as lowercase hexadecimal text, and that text is
//! rendered as base64: the credential string. Decoding reverses exactly
//! those layers and reports a typed failure at every fallible step. A small
//! password utility (salted SM3 digests) is independent of the codec.

use vstd::prelude::*;

pub mod base64codec;
pub mod codec;
pub mod errors;
pub mod hexcodec;
pub mod password;
pub mod plaintext;
pub mod sm2cipher;
pub mod timestamp;

verus! {

pub use crate::errors::CredentialError;

} // verus!
