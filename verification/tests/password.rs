use auth_core::service::{hash_password, hash_then_verify, verify_password};

#[test]
fn a_password_verifies_against_its_own_hash() {
    let record = hash_password("secret").unwrap();
    assert!(verify_password("secret", &record));
    assert_eq!(hash_then_verify("secret"), Some(true));
    assert_eq!(hash_then_verify(""), Some(true));
}

#[test]
fn a_different_password_does_not_verify() {
    let record = hash_password("secret").unwrap();
    assert!(!verify_password("Secret", &record));
    assert!(!verify_password("secret ", &record));
    assert!(!verify_password("", &record));
}

#[test]
fn two_hashes_of_one_password_differ_yet_both_verify() {
    let a = hash_password("secret").unwrap();
    let b = hash_password("secret").unwrap();
    // A fresh salt is drawn per call, so the encoded records differ.
    assert_ne!(a, b);
    assert!(verify_password("secret", &a));
    assert!(verify_password("secret", &b));
}

#[test]
fn the_record_is_self_describing() {
    let record = hash_password("secret").unwrap();
    // Algorithm identifier, parameters, salt and digest all travel in the record.
    assert!(record.starts_with("$argon2"));
    assert_eq!(record.matches('$').count(), 5);
}

#[test]
fn malformed_records_fail_closed() {
    assert!(!verify_password("secret", ""));
    assert!(!verify_password("secret", "not a record"));
    assert!(!verify_password("secret", "$argon2id$broken"));
}

#[test]
fn empty_and_long_passwords_round_trip() {
    let empty = hash_password("").unwrap();
    assert!(verify_password("", &empty));
    assert!(!verify_password("x", &empty));
    let long = "p".repeat(1000);
    let record = hash_password(&long).unwrap();
    assert!(verify_password(&long, &record));
}
