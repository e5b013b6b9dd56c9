//! The cryptographic primitives the library relies on but does not verify:
//! the HMAC-SHA256 tag of a token, argon2 password hashing and verification,
//! the process clock, and the UTF-8 view of an ASCII byte string. Each outside
//! call sits behind one trusted wrapper; everything around them is verified.

use crate::base64url::is_b64u;
use crate::bytes::ascii_chars;
use vstd::prelude::*;

verus! {

/// The base64url notation of the HMAC-SHA256 tag of `msg` under `key`: a pure
/// function of the key and the message.
pub uninterp spec fn hs256_sig(key: Seq<u8>, msg: Seq<u8>) -> Seq<u8>;

/// Whether `record` is a well-formed argon2 hash record that the password
/// verifies against: a pure function of the password and the record.
pub uninterp spec fn argon2_verifies(password: Seq<u8>, record: Seq<char>) -> bool;

/// Relies on jsonwebtoken's `crypto::sign` with `Algorithm::HS256`: it returns
/// the HMAC-SHA256 tag of the message under the secret key, base64url-encoded
/// without padding, so every byte of the result is in the base64url alphabet.
/// Signing with an HMAC secret never fails, so the unwrap never panics.
#[verifier::external_body]
pub(crate) fn sign_hs256(key: &[u8], msg: &[u8]) -> (r: Vec<u8>)
    ensures
        r@ == hs256_sig(key@, msg@),
        forall|i: int| 0 <= i < r@.len() ==> is_b64u(#[trigger] r@[i]),
{
    jsonwebtoken::crypto::sign(
        msg,
        &jsonwebtoken::EncodingKey::from_secret(key),
        jsonwebtoken::Algorithm::HS256,
    ).unwrap().into_bytes()
}

/// Relies on argon2's `Argon2::default().hash_password` with a salt drawn
/// freshly from the operating system's randomness: whatever salt was drawn,
/// the returned record verifies the password it was derived from, because
/// `verify_password` re-derives the digest from the parameters and salt stored
/// in the record itself. Returns `None` only if the derivation itself fails.
#[verifier::external_body]
pub(crate) fn argon2_hash(password: &[u8]) -> (r: Option<String>)
    ensures
        r matches Some(rec) ==> argon2_verifies(password@, rec@),
{
    let salt = argon2::password_hash::SaltString::generate(
        &mut argon2::password_hash::rand_core::OsRng,
    );
    match argon2::PasswordHasher::hash_password(&argon2::Argon2::default(), password, &salt) {
        Ok(h) => Some(h.to_string()),
        Err(_) => None,
    }
}

/// Relies on argon2's `PasswordVerifier::verify_password`: it re-derives the
/// digest with the algorithm, parameters and salt embedded in the record and
/// compares in constant time, so its outcome is a pure function of the
/// password and the record. A record that does not parse as a hash record
/// verifies nothing.
#[verifier::external_body]
pub(crate) fn argon2_check(password: &[u8], record: &str) -> (r: bool)
    ensures
        r == argon2_verifies(password@, record@),
{
    match argon2::password_hash::PasswordHash::new(record) {
        Ok(parsed) => argon2::PasswordVerifier::verify_password(
            &argon2::Argon2::default(),
            password,
            &parsed,
        ).is_ok(),
        Err(_) => false,
    }
}

/// Relies on chrono's `Utc::now`: the number of non-leap seconds since the
/// unix epoch, as the operating system clock reports it. Nothing can be
/// promised of a clock reading.
#[verifier::external_body]
pub(crate) fn now_unix() -> i64 {
    chrono::Utc::now().timestamp()
}

/// Relies on `String::from_utf8`: ASCII bytes are valid UTF-8 and decode to
/// one character per byte, so the unwrap never panics on the admitted inputs.
#[verifier::external_body]
pub(crate) fn ascii_to_string(v: Vec<u8>) -> (r: String)
    requires
        forall|i: int| 0 <= i < v@.len() ==> v@[i] < 128,
    ensures
        r@ == ascii_chars(v@),
{
    String::from_utf8(v).unwrap()
}

} // verus!
