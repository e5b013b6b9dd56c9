use auth_core::token::{generate_token, issue_at, validate_at, verify_token, VALIDITY_SECONDS};
use auth_core::{Claims, TokenError};

const KEY: &[u8] = b"SECRET-REDACTED";
const NOW: u64 = 1_700_000_000;

#[test]
fn issued_token_has_three_segments_and_the_standard_header() {
    let t = issue_at(KEY, 42, NOW);
    let parts: Vec<&[u8]> = t.split(|b| *b == b'.').collect();
    assert_eq!(parts.len(), 3);
    assert_eq!(parts[0], b"eyJ0eXAiOiJKV1QiLCJhbGciOiJIUzI1NiJ9");
    assert!(!parts[1].is_empty());
    assert!(!parts[2].is_empty());
}

#[test]
fn validate_returns_the_issued_subject() {
    let t = issue_at(KEY, 42, NOW);
    let c = validate_at(KEY, &t, NOW).unwrap();
    assert_eq!(c.sub, 42);
    assert_eq!(c.exp as u64, NOW + VALIDITY_SECONDS);
}

#[test]
fn validate_handles_negative_subjects() {
    let t = issue_at(KEY, -9, NOW);
    let c = validate_at(KEY, &t, NOW).unwrap();
    assert_eq!(c.sub, -9);
}

#[test]
fn expired_token_fails_with_expired_only() {
    let t = issue_at(KEY, 42, NOW);
    let exp = NOW + VALIDITY_SECONDS;
    // Still valid at the expiry instant itself.
    assert!(validate_at(KEY, &t, exp).is_ok());
    // One second later it is expired, and the error kind is exactly that.
    assert_eq!(validate_at(KEY, &t, exp + 1), Err(TokenError::Expired));
    assert_eq!(validate_at(KEY, &t, u64::MAX), Err(TokenError::Expired));
}

#[test]
fn tampered_signature_fails_with_invalid_signature() {
    let t = issue_at(KEY, 42, NOW);
    let mut bad = t.clone();
    let last = bad.len() - 1;
    bad[last] ^= 1;
    assert_eq!(validate_at(KEY, &bad, NOW), Err(TokenError::InvalidSignature));
}

#[test]
fn truncated_signature_fails_with_invalid_signature() {
    let t = issue_at(KEY, 42, NOW);
    let mut bad = t.clone();
    bad.pop();
    assert_eq!(validate_at(KEY, &bad, NOW), Err(TokenError::InvalidSignature));
}

#[test]
fn wrong_key_fails_with_invalid_signature() {
    let t = issue_at(KEY, 42, NOW);
    assert_eq!(
        validate_at(b"another-secret", &t, NOW),
        Err(TokenError::InvalidSignature)
    );
}

#[test]
fn malformed_tokens_fail_with_malformed() {
    assert_eq!(validate_at(KEY, b"", NOW), Err(TokenError::Malformed));
    assert_eq!(validate_at(KEY, b"abc", NOW), Err(TokenError::Malformed));
    assert_eq!(validate_at(KEY, b"a.b", NOW), Err(TokenError::Malformed));
    assert_eq!(validate_at(KEY, b"a.b.c.d", NOW), Err(TokenError::Malformed));
    // Three well-formed segments, but not a token: wrong header.
    assert_eq!(validate_at(KEY, b"QUFB.QUFB.QUFB", NOW), Err(TokenError::Malformed));
    // Right header, payload that is not base64url.
    assert_eq!(
        validate_at(KEY, b"eyJ0eXAiOiJKV1QiLCJhbGciOiJIUzI1NiJ9.!!.sig", NOW),
        Err(TokenError::Malformed)
    );
    // Right header, decodable payload that is not a claim set.
    assert_eq!(
        validate_at(KEY, b"eyJ0eXAiOiJKV1QiLCJhbGciOiJIUzI1NiJ9.TWFu.sig", NOW),
        Err(TokenError::Malformed)
    );
}

#[test]
fn signature_matches_the_reference_implementation() {
    let t = issue_at(KEY, 42, NOW);
    let dot2 = t.iter().rposition(|b| *b == b'.').unwrap();
    let message = &t[..dot2];
    let sig = std::str::from_utf8(&t[dot2 + 1..]).unwrap();
    let reference = jsonwebtoken::crypto::sign(
        message,
        &jsonwebtoken::EncodingKey::from_secret(KEY),
        jsonwebtoken::Algorithm::HS256,
    )
    .unwrap();
    assert_eq!(sig, reference);
    let ok = jsonwebtoken::crypto::verify(
        sig,
        message,
        &jsonwebtoken::DecodingKey::from_secret(KEY),
        jsonwebtoken::Algorithm::HS256,
    )
    .unwrap();
    assert!(ok);
}

#[test]
fn generate_and_verify_against_the_clock() {
    let t = generate_token(KEY, 7).unwrap();
    let c = verify_token(KEY, &t).unwrap();
    assert_eq!(c.sub, 7);
    let garbage = verify_token(KEY, "not.a.token");
    assert_eq!(garbage, Err(TokenError::Malformed));
}

#[test]
fn two_issuances_at_different_times_differ() {
    let a = issue_at(KEY, 42, NOW);
    let b = issue_at(KEY, 42, NOW + 1);
    assert_ne!(a, b);
    // Same inputs give the same token: issuance is deterministic in its inputs.
    let c = issue_at(KEY, 42, NOW);
    assert_eq!(a, c);
}

#[test]
fn claims_equality_and_debug_are_usable() {
    let c = Claims { sub: 1, exp: 2 };
    assert_eq!(c, Claims { sub: 1, exp: 2 });
    assert_ne!(c, Claims { sub: 1, exp: 3 });
    assert!(format!("{:?}", c).contains("sub"));
}
