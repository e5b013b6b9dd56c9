use auth_core::guard::{authenticate, authenticate_at, trim_ascii_ws};
use auth_core::token::{issue_at, VALIDITY_SECONDS};
use auth_core::Rejection;

const KEY: &[u8] = b"SECRET-REDACTED";
const NOW: u64 = 1_700_000_000;

#[test]
fn missing_header_is_rejected() {
    assert_eq!(authenticate_at(KEY, None, NOW), Err(Rejection::MissingToken));
}

#[test]
fn non_bearer_scheme_is_rejected() {
    assert_eq!(
        authenticate_at(KEY, Some(b"Basic dXNlcjpwdw"), NOW),
        Err(Rejection::MalformedScheme)
    );
    assert_eq!(authenticate_at(KEY, Some(b""), NOW), Err(Rejection::MalformedScheme));
    assert_eq!(authenticate_at(KEY, Some(b"Bearer"), NOW), Err(Rejection::MalformedScheme));
    // The scheme comparison is case-sensitive.
    assert_eq!(
        authenticate_at(KEY, Some(b"bearer abc"), NOW),
        Err(Rejection::MalformedScheme)
    );
}

#[test]
fn garbage_token_is_rejected() {
    assert_eq!(
        authenticate_at(KEY, Some(b"Bearer not.a.token"), NOW),
        Err(Rejection::InvalidToken)
    );
    assert_eq!(
        authenticate_at(KEY, Some(b"Bearer "), NOW),
        Err(Rejection::InvalidToken)
    );
}

#[test]
fn a_valid_bearer_token_authenticates() {
    let t = issue_at(KEY, 42, NOW);
    let mut header = b"Bearer ".to_vec();
    header.extend_from_slice(&t);
    let au = authenticate_at(KEY, Some(&header), NOW).unwrap();
    assert_eq!(au.0.sub, 42);
    assert_eq!(au.0.exp as u64, NOW + VALIDITY_SECONDS);
}

#[test]
fn surrounding_blanks_around_the_token_are_trimmed() {
    let t = issue_at(KEY, 42, NOW);
    let mut header = b"Bearer   \t".to_vec();
    header.extend_from_slice(&t);
    header.extend_from_slice(b" \t ");
    let au = authenticate_at(KEY, Some(&header), NOW).unwrap();
    assert_eq!(au.0.sub, 42);
}

#[test]
fn an_expired_token_is_rejected_as_invalid() {
    let t = issue_at(KEY, 42, NOW);
    let mut header = b"Bearer ".to_vec();
    header.extend_from_slice(&t);
    assert_eq!(
        authenticate_at(KEY, Some(&header), NOW + VALIDITY_SECONDS + 1),
        Err(Rejection::InvalidToken)
    );
}

#[test]
fn clock_bound_guard_accepts_a_fresh_token() {
    let token = auth_core::token::generate_token(KEY, 5).unwrap();
    let mut header = b"Bearer ".to_vec();
    header.extend_from_slice(token.as_bytes());
    let au = authenticate(KEY, Some(&header)).unwrap();
    assert_eq!(au.0.sub, 5);
    assert_eq!(authenticate(KEY, None), Err(Rejection::MissingToken));
}

#[test]
fn every_rejection_answers_401_with_its_reason() {
    assert_eq!(Rejection::MissingToken.status_code(), 401);
    assert_eq!(Rejection::MalformedScheme.status_code(), 401);
    assert_eq!(Rejection::InvalidToken.status_code(), 401);
    assert_eq!(Rejection::MissingToken.message(), "missing token");
    assert_eq!(Rejection::MalformedScheme.message(), "malformed scheme");
    assert_eq!(Rejection::InvalidToken.message(), "invalid token");
}

#[test]
fn trimming_removes_only_surrounding_blanks() {
    assert_eq!(trim_ascii_ws(b"  a b  "), b"a b");
    assert_eq!(trim_ascii_ws(b"\t\t"), b"");
    assert_eq!(trim_ascii_ws(b""), b"");
    assert_eq!(trim_ascii_ws(b"abc"), b"abc");
}
