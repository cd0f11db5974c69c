use regcode::password::{encrypt_password, generate_random_string, verify_password};

#[test]
fn verify_accepts_own_digest() {
    for (p, s) in [
        ("hunter2", "salt"),
        ("", ""),
        ("p\u{00e4}ssword", "s\u{00e4}lt"),
        ("long password with spaces", "0123456789"),
    ] {
        let stored = encrypt_password(p, s);
        assert!(verify_password(p, s, &stored));
    }
}

#[test]
fn verify_rejects_other_password() {
    let stored = encrypt_password("hunter2", "salt");
    assert!(!verify_password("hunter3", "salt", &stored));
    assert!(!verify_password("", "salt", &stored));
}

#[test]
fn verify_rejects_other_salt() {
    let stored = encrypt_password("hunter2", "salt");
    assert!(!verify_password("hunter2", "pepper", &stored));
}

#[test]
fn salt_changes_digest() {
    assert_ne!(encrypt_password("hunter2", "salt1"), encrypt_password("hunter2", "salt2"));
}

#[test]
fn digest_matches_known_vector() {
    // SM3("abc") = 66c7...ba8e0; the stored text is base64 over that
    // hexadecimal text.
    let expected = base64::encode("66c7f0f462eeedd9d1f2d46bdc10e4e24167c4875cf2f7a2297da02b8f4ba8e0");
    assert_eq!(encrypt_password("abc", ""), expected);
    assert_eq!(encrypt_password("a", "bc"), expected);
}

#[test]
fn digest_is_deterministic() {
    assert_eq!(encrypt_password("p", "s"), encrypt_password("p", "s"));
}

#[test]
fn random_string_has_requested_length_and_alphabet() {
    for len in [0usize, 1, 16, 62, 100] {
        let s = generate_random_string(len);
        assert_eq!(s.chars().count(), len);
        assert!(s.chars().all(|c| c.is_ascii_alphanumeric()));
    }
}

#[test]
fn random_strings_differ() {
    assert_ne!(generate_random_string(32), generate_random_string(32));
}
