use account_ledger::credential::{hash, same_bytes, verify, DIGEST_LEN, ROUNDS, SALT_LEN};

#[test]
fn stored_form_has_the_stated_lengths() {
    let credential = hash("correct horse");
    assert_eq!(credential.salt.len(), SALT_LEN);
    assert_eq!(credential.digest.len(), DIGEST_LEN);
    assert_eq!(SALT_LEN, 16);
    assert_eq!(DIGEST_LEN, 32);
}

#[test]
fn password_is_accepted_against_its_stored_form() {
    let credential = hash("correct horse");
    assert!(verify("correct horse", &credential.digest, &credential.salt));
}

#[test]
fn wrong_password_is_refused() {
    let credential = hash("correct horse");
    assert!(!verify("correct horsf", &credential.digest, &credential.salt));
    assert!(!verify("", &credential.digest, &credential.salt));
}

#[test]
fn empty_password_has_a_stored_form_too() {
    let credential = hash("");
    assert!(verify("", &credential.digest, &credential.salt));
    assert!(!verify(" ", &credential.digest, &credential.salt));
}

#[test]
fn damaged_digest_or_salt_is_refused() {
    let credential = hash("pw");
    let mut digest = credential.digest.clone();
    digest[0] ^= 1;
    assert!(!verify("pw", &digest, &credential.salt));
    let mut salt = credential.salt.clone();
    salt[15] ^= 0x80;
    assert!(!verify("pw", &credential.digest, &salt));
    assert!(!verify("pw", &credential.digest[..31], &credential.salt));
    assert!(!verify("pw", &[], &credential.salt));
}

#[test]
fn salts_are_drawn_afresh() {
    let first = hash("pw");
    let second = hash("pw");
    assert_ne!(first.salt, second.salt);
    assert_ne!(first.digest, second.digest);
}

#[test]
fn digest_is_the_derived_key() {
    let credential = hash("pässword");
    let mut expected = [0u8; 32];
    pbkdf2::pbkdf2_hmac::<sha2::Sha256>("pässword".as_bytes(), &credential.salt, ROUNDS, &mut expected);
    assert_eq!(credential.digest, expected.to_vec());
    assert_ne!(credential.digest, "pässword".as_bytes().to_vec());
}

#[test]
fn known_digest_is_accepted() {
    // PBKDF2-HMAC-SHA-256 of "password" with the salt "salt" in one round, as the
    // known-answer tests of the function give it.
    let one_round: [u8; 32] = [
        0x12, 0x0f, 0xb6, 0xcf, 0xfc, 0xf8, 0xb3, 0x2c, 0x43, 0xe7, 0x22, 0x52, 0x56, 0xc4, 0xf8,
        0x37, 0xa8, 0x65, 0x48, 0xc9, 0x2c, 0xcc, 0x35, 0x48, 0x08, 0x05, 0x98, 0x7c, 0xb7, 0x0b,
        0xe1, 0x7b,
    ];
    let mut derived = [0u8; 32];
    pbkdf2::pbkdf2_hmac::<sha2::Sha256>(b"password", b"salt", 1, &mut derived);
    assert_eq!(derived, one_round);

    let mut stored = [0u8; 32];
    pbkdf2::pbkdf2_hmac::<sha2::Sha256>(b"password", b"salt", ROUNDS, &mut stored);
    assert!(verify("password", &stored, b"salt"));
    assert!(!verify("password", &one_round, b"salt"));
}

#[test]
fn same_bytes_compares_contents() {
    assert!(same_bytes(&[], &[]));
    assert!(same_bytes(&[1, 2, 3], &[1, 2, 3]));
    assert!(!same_bytes(&[1, 2, 3], &[1, 2, 4]));
    assert!(!same_bytes(&[0, 2, 3], &[1, 2, 3]));
    assert!(!same_bytes(&[1, 2, 3], &[1, 2]));
    assert!(!same_bytes(&[], &[0]));
    assert!(!same_bytes(&[0x0f], &[0xf0]));
}
