use regcode::codec::{decode_code, generate_code};
use regcode::errors::CredentialError;

// A fixed SM2 key pair: the private scalar is pinned, the public point is
// derived from it.
const SK: &str = "3945208f7b2144b13f36e38ac6d39f95889393692860b51a42fb81ef4df7c5b8";

fn fixed_keypair() -> (String, String) {
    let pk = smcrypto::sm2::pk_from_sk(SK);
    (SK.to_string(), pk)
}

fn now_secs() -> i64 {
    chrono::Utc::now().timestamp()
}

const DAY: i64 = 86400;
const TOLERANCE: i64 = 300;

#[test]
fn scenario_thirty_days() {
    let (sk, pk) = fixed_keypair();
    let before = now_secs();
    let code = generate_code("a@b.com", 30, &pk).unwrap();
    let after = now_secs();
    assert!(base64::decode(&code).is_ok());
    let (identity, expiry) = decode_code(&code, &sk).unwrap();
    assert_eq!(identity, "a@b.com");
    assert!(expiry.secs >= before + 30 * DAY);
    assert!(expiry.secs <= after + 30 * DAY);
}

#[test]
fn round_trip_many_day_counts() {
    let (sk, pk) = fixed_keypair();
    for days in [-3650, -1, 0, 1, 365, 3650] {
        let before = now_secs();
        let code = generate_code("user@example.org", days, &pk).unwrap();
        let after = now_secs();
        let (identity, expiry) = decode_code(&code, &sk).unwrap();
        assert_eq!(identity, "user@example.org");
        assert!(expiry.secs >= before + days * DAY);
        assert!(expiry.secs <= after + days * DAY);
    }
}

#[test]
fn zero_days_expires_at_issue_instant() {
    let (sk, pk) = fixed_keypair();
    let before = now_secs();
    let code = generate_code("a@b.com", 0, &pk).unwrap();
    let (_, expiry) = decode_code(&code, &sk).unwrap();
    assert!((expiry.secs - before).abs() <= TOLERANCE);
    assert!(expiry.nanos < 1_000_000_000);
}

#[test]
fn negative_days_already_expired() {
    let (sk, pk) = fixed_keypair();
    let code = generate_code("a@b.com", -1, &pk).unwrap();
    let (_, expiry) = decode_code(&code, &sk).unwrap();
    assert!(expiry.secs < now_secs());
}

#[test]
fn empty_identity_round_trips() {
    let (sk, pk) = fixed_keypair();
    let code = generate_code("", 7, &pk).unwrap();
    let (identity, _) = decode_code(&code, &sk).unwrap();
    assert_eq!(identity, "");
}

#[test]
fn unicode_identity_round_trips() {
    let (sk, pk) = fixed_keypair();
    let code = generate_code("p\u{00e9}pin@example.org", 7, &pk).unwrap();
    let (identity, _) = decode_code(&code, &sk).unwrap();
    assert_eq!(identity, "p\u{00e9}pin@example.org");
}

#[test]
fn separator_in_identity_is_rejected_on_decode() {
    let (sk, pk) = fixed_keypair();
    let code = generate_code("a|b@c.com", 5, &pk).unwrap();
    assert_eq!(decode_code(&code, &sk), Err(CredentialError::MalformedCredential));
}

#[test]
fn corrupting_any_byte_to_non_alphabet_is_rejected() {
    let (sk, pk) = fixed_keypair();
    let code = generate_code("a@b.com", 30, &pk).unwrap();
    let bytes = code.as_bytes();
    for i in 0..bytes.len() {
        let mut corrupted = bytes.to_vec();
        corrupted[i] = b'!';
        let corrupted = String::from_utf8(corrupted).unwrap();
        assert!(decode_code(&corrupted, &sk).is_err());
    }
}

#[test]
fn tampering_with_key_point_region_is_rejected() {
    // The first 160 base64 characters carry the ciphertext's curve point;
    // any flip there rekeys the mask and scrambles the whole plaintext.
    // (A flip further right lands in the masked plaintext itself, which
    // this cipher mode does not integrity-check: a documented limitation.)
    let (sk, pk) = fixed_keypair();
    let code = generate_code("a@b.com", 30, &pk).unwrap();
    let bytes = code.as_bytes();
    for i in 0..160 {
        let mut flipped = bytes.to_vec();
        flipped[i] ^= 0x01;
        let flipped = String::from_utf8(flipped).unwrap();
        assert!(decode_code(&flipped, &sk).is_err());
    }
}

#[test]
fn credential_decodes_to_hex_text() {
    let (_, pk) = fixed_keypair();
    let code = generate_code("a@b.com", 30, &pk).unwrap();
    let inner = base64::decode(&code).unwrap();
    assert!(hex::decode(&inner).is_ok());
}

#[test]
fn base64_over_raw_ciphertext_is_rejected() {
    let (sk, pk) = fixed_keypair();
    let code = generate_code("a@b.com", 30, &pk).unwrap();
    let hex_text = base64::decode(&code).unwrap();
    let ciphertext = hex::decode(&hex_text).unwrap();
    let single_layer = base64::encode(&ciphertext);
    assert_eq!(decode_code(&single_layer, &sk), Err(CredentialError::MalformedCredential));
}

#[test]
fn bad_base64_is_malformed() {
    let (sk, _) = fixed_keypair();
    assert_eq!(decode_code("not base64 !!!", &sk), Err(CredentialError::MalformedCredential));
}

#[test]
fn base64_of_non_hex_is_malformed() {
    let (sk, _) = fixed_keypair();
    let code = base64::encode("zz not hex at all");
    assert_eq!(decode_code(&code, &sk), Err(CredentialError::MalformedCredential));
}

#[test]
fn short_ciphertext_is_decryption_failure() {
    let (sk, _) = fixed_keypair();
    let code = base64::encode(hex::encode([0u8; 10]));
    assert_eq!(decode_code(&code, &sk), Err(CredentialError::DecryptionFailed));
}

#[test]
fn bad_private_key_is_invalid_key_material() {
    let (_, pk) = fixed_keypair();
    let code = generate_code("a@b.com", 1, &pk).unwrap();
    assert_eq!(decode_code(&code, "short"), Err(CredentialError::InvalidKeyMaterial));
    assert_eq!(
        decode_code(&code, &"g".repeat(64)),
        Err(CredentialError::InvalidKeyMaterial)
    );
}

#[test]
fn bad_public_key_is_invalid_key_material() {
    assert_eq!(
        generate_code("a@b.com", 1, "deadbeef"),
        Err(CredentialError::InvalidKeyMaterial)
    );
}

#[test]
fn tagged_public_key_is_accepted() {
    let (sk, pk) = fixed_keypair();
    let tagged = format!("04{}", pk);
    let code = generate_code("a@b.com", 3, &tagged).unwrap();
    let (identity, _) = decode_code(&code, &sk).unwrap();
    assert_eq!(identity, "a@b.com");
}

#[test]
fn huge_day_counts_are_unrepresentable() {
    let (_, pk) = fixed_keypair();
    assert_eq!(
        generate_code("a@b.com", i64::MAX, &pk),
        Err(CredentialError::UnrepresentableExpiry)
    );
    assert_eq!(
        generate_code("a@b.com", 4_000_000_000, &pk),
        Err(CredentialError::UnrepresentableExpiry)
    );
    assert_eq!(
        generate_code("a@b.com", -4_000_000_000, &pk),
        Err(CredentialError::UnrepresentableExpiry)
    );
}

#[test]
fn error_descriptions_are_nonempty() {
    assert!(!CredentialError::MalformedCredential.describe().is_empty());
    assert!(!CredentialError::DecryptionFailed.describe().is_empty());
    assert!(!CredentialError::InvalidKeyMaterial.describe().is_empty());
    assert!(!CredentialError::UnrepresentableExpiry.describe().is_empty());
    assert!(!CredentialError::EncryptionFailed.describe().is_empty());
}
