//! The token codec: a session token is `header.payload.signature`, each
//! segment base64url without padding. The header is fixed, the payload is the
//! JSON claim set, and the signature is the HMAC-SHA256 tag of
//! `header.payload` under the process-wide secret key. `spec_validate` defines
//! validation exactly; the round-trip and tampering laws are proved below.

use crate::base64url::{
    b64u_decode, b64u_encode, decode, encode, is_b64u, lemma_b64u_encode_alphabet,
    lemma_b64u_round_trip,
};
use crate::bytes::{
    ascii_chars, bytes_eq, ct_eq, find_byte, lemma_find_byte_is_first, lemma_find_byte_none,
    lemma_find_byte_some, push_all, spec_find_byte,
};
use crate::claims::{claims_json, emit_claims, lemma_claims_round_trip, parse_claims,
    spec_parse_claims, Claims};
use crate::crypto::{ascii_to_string, hs256_sig, now_unix, sign_hs256};
use vstd::prelude::*;
use vstd::string::StringSliceAdditionalSpecFns;

verus! {

/// Why a token failed validation. The guard reports all three the same way;
/// the distinction exists for diagnostics only.
#[derive(Debug, Clone, Copy, PartialEq, Eq, Structural)]
pub enum TokenError {
    /// Not three well-formed dot-separated segments with the expected header
    /// and a parseable claim set.
    Malformed,
    /// The signature segment is not the tag of `header.payload` under the key.
    InvalidSignature,
    /// Signed and well-formed, but validated after its expiry timestamp.
    Expired,
}

/// How long an issued token stays valid, in seconds.
pub const VALIDITY_SECONDS: u64 = 86400;

/// The bytes of the fixed token header `{"typ":"JWT","alg":"HS256"}`.
pub open spec fn header_json() -> Seq<u8> {
    seq![
        123u8, 34u8, 116u8, 121u8, 112u8, 34u8, 58u8, 34u8, 74u8, 87u8, 84u8, 34u8, 44u8, 34u8,
        97u8, 108u8, 103u8, 34u8, 58u8, 34u8, 72u8, 83u8, 50u8, 53u8, 54u8, 34u8, 125u8,
    ]
}

/// The first token segment: the fixed header, base64url-encoded.
pub open spec fn header_segment() -> Seq<u8> {
    b64u_encode(header_json())
}

/// The part of a token that is signed: `header.payload`.
pub open spec fn spec_signing_input(sub: int, exp: nat) -> Seq<u8> {
    header_segment() + seq![46u8] + b64u_encode(claims_json(sub, exp))
}

/// The token issued for subject `sub` expiring at `exp`.
pub open spec fn spec_token(key: Seq<u8>, sub: int, exp: nat) -> Seq<u8> {
    spec_signing_input(sub, exp) + seq![46u8] + hs256_sig(key, spec_signing_input(sub, exp))
}

/// The clock-free part of validation: structure, header, claim set, signature.
pub open spec fn spec_validate_sig(key: Seq<u8>, t: Seq<u8>) -> Result<Claims, TokenError> {
    match spec_find_byte(t, 46, 0) {
        None => Err(TokenError::Malformed),
        Some(d1) => match spec_find_byte(t, 46, d1 + 1) {
            None => Err(TokenError::Malformed),
            Some(d2) => if spec_find_byte(t, 46, d2 + 1) is Some {
                Err(TokenError::Malformed)
            } else if t.subrange(0, d1) != header_segment() {
                Err(TokenError::Malformed)
            } else {
                match b64u_decode(t.subrange(d1 + 1, d2)) {
                    None => Err(TokenError::Malformed),
                    Some(pj) => match spec_parse_claims(pj) {
                        None => Err(TokenError::Malformed),
                        Some(c) => if t.subrange(d2 + 1, t.len() as int) == hs256_sig(
                            key,
                            t.subrange(0, d2),
                        ) {
                            Ok(c)
                        } else {
                            Err(TokenError::InvalidSignature)
                        },
                    },
                }
            },
        },
    }
}

/// Validation at time `now`: the clock-free part, then the expiry check.
pub open spec fn spec_validate(key: Seq<u8>, t: Seq<u8>, now: u64) -> Result<Claims, TokenError> {
    match spec_validate_sig(key, t) {
        Ok(c) => if now <= c.exp as u64 {
            Ok(c)
        } else {
            Err(TokenError::Expired)
        },
        Err(e) => Err(e),
    }
}

/// The bytes of the fixed token header.
fn header_json_bytes() -> (r: Vec<u8>)
    ensures
        r@ == header_json(),
{
    let mut v: Vec<u8> = Vec::new();
    v.push(123);
    v.push(34);
    v.push(116);
    v.push(121);
    v.push(112);
    v.push(34);
    v.push(58);
    v.push(34);
    v.push(74);
    v.push(87);
    v.push(84);
    v.push(34);
    v.push(44);
    v.push(34);
    v.push(97);
    v.push(108);
    v.push(103);
    v.push(34);
    v.push(58);
    v.push(34);
    v.push(72);
    v.push(83);
    v.push(50);
    v.push(53);
    v.push(54);
    v.push(34);
    v.push(125);
    proof {
        assert(v@ =~= header_json());
    }
    v
}

/// Build the token for `user_id` at clock reading `now`: claims with
/// `exp = now + VALIDITY_SECONDS`, signed under `key`. Every byte of the
/// result is ASCII, and the tag of the signing input is base64url.
pub fn issue_at(key: &[u8], user_id: i32, now: u64) -> (r: Vec<u8>)
    requires
        now + VALIDITY_SECONDS <= usize::MAX,
    ensures
        r@ == spec_token(key@, user_id as int, (now + VALIDITY_SECONDS) as nat),
        forall|i: int| 0 <= i < r@.len() ==> #[trigger] r@[i] < 128,
        ({
            let sig = hs256_sig(
                key@,
                spec_signing_input(user_id as int, (now + VALIDITY_SECONDS) as nat),
            );
            forall|i: int| 0 <= i < sig.len() ==> is_b64u(#[trigger] sig[i])
        }),
{
    let exp: usize = (now + VALIDITY_SECONDS) as usize;
    let c = Claims { sub: user_id, exp };
    let hdr = header_json_bytes();
    let mut t = encode(hdr.as_slice());
    t.push(46);
    let payload = emit_claims(&c);
    let pseg = encode(payload.as_slice());
    push_all(&mut t, pseg.as_slice());
    proof {
        assert(c.exp as nat == (now + VALIDITY_SECONDS) as nat);
        assert(t@ =~= spec_signing_input(user_id as int, (now + VALIDITY_SECONDS) as nat));
    }
    let sig = sign_hs256(key, t.as_slice());
    let mut out = t;
    out.push(46);
    push_all(&mut out, sig.as_slice());
    proof {
        let si = spec_signing_input(user_id as int, (now + VALIDITY_SECONDS) as nat);
        assert(out@ =~= spec_token(key@, user_id as int, (now + VALIDITY_SECONDS) as nat));
        lemma_b64u_encode_alphabet(header_json());
        lemma_b64u_encode_alphabet(
            claims_json(user_id as int, (now + VALIDITY_SECONDS) as nat),
        );
        assert forall|i: int| 0 <= i < out@.len() implies out@[i] < 128 by {
            if i < si.len() {
                if i < header_segment().len() {
                    assert(si[i] == header_segment()[i]);
                    assert(is_b64u(si[i]));
                } else if i == header_segment().len() {
                    assert(si[i] == 46);
                } else {
                    assert(si[i] == b64u_encode(
                        claims_json(user_id as int, (now + VALIDITY_SECONDS) as nat),
                    )[i - header_segment().len() - 1]);
                    assert(is_b64u(si[i]));
                }
            } else if i == si.len() {
                assert(out@[i] == 46);
            } else {
                assert(out@[i] == hs256_sig(key@, si)[i - si.len() - 1]);
                assert(is_b64u(out@[i]));
            }
        }
    }
    out
}

/// Validate `token` under `key` at time `now`. The result is exactly
/// `spec_validate`: `Ok` with the embedded claims for a well-formed,
/// correctly signed, unexpired token, and the matching error otherwise.
pub fn validate_at(key: &[u8], token: &[u8], now: u64) -> (r: Result<Claims, TokenError>)
    ensures
        r == spec_validate(key@, token@, now),
{
    let n = token.len();
    let d1 = match find_byte(token, 46, 0) {
        Some(i) => i,
        None => {
            return Err(TokenError::Malformed);
        },
    };
    proof {
        lemma_find_byte_is_first(token@, 46, 0);
    }
    let d2 = match find_byte(token, 46, d1 + 1) {
        Some(i) => i,
        None => {
            return Err(TokenError::Malformed);
        },
    };
    proof {
        lemma_find_byte_is_first(token@, 46, d1 + 1);
    }
    match find_byte(token, 46, d2 + 1) {
        Some(_) => {
            return Err(TokenError::Malformed);
        },
        None => {},
    }
    let h = vstd::slice::slice_subrange(token, 0, d1);
    let hdr = header_json_bytes();
    let hseg = encode(hdr.as_slice());
    if !bytes_eq(h, hseg.as_slice()) {
        return Err(TokenError::Malformed);
    }
    let p = vstd::slice::slice_subrange(token, d1 + 1, d2);
    let payload = match decode(p) {
        Some(v) => v,
        None => {
            return Err(TokenError::Malformed);
        },
    };
    let c = match parse_claims(payload.as_slice()) {
        Some(c) => c,
        None => {
            return Err(TokenError::Malformed);
        },
    };
    let signed = vstd::slice::slice_subrange(token, 0, d2);
    let expect = sign_hs256(key, signed);
    let sg = vstd::slice::slice_subrange(token, d2 + 1, token.len());
    if !ct_eq(sg, expect.as_slice()) {
        return Err(TokenError::InvalidSignature);
    }
    if now > c.exp as u64 {
        return Err(TokenError::Expired);
    }
    Ok(c)
}

/// Issue a token for `user_id` expiring one validity window from now.
/// Returns `None` only when the clock reading leaves no representable expiry.
pub fn generate_token(key: &[u8], user_id: i32) -> (r: Option<String>)
    ensures
        r matches Some(t) ==> exists|exp: nat|
            t@ == ascii_chars(#[trigger] spec_token(key@, user_id as int, exp)),
{
    let ts = now_unix();
    if ts < 0 {
        return None;
    }
    let now = ts as u64;
    if now > usize::MAX as u64 - VALIDITY_SECONDS {
        return None;
    }
    let bytes = issue_at(key, user_id, now);
    let s = ascii_to_string(bytes);
    proof {
        assert(s@ == ascii_chars(spec_token(key@, user_id as int, (now + VALIDITY_SECONDS) as nat)));
    }
    Some(s)
}

/// Validate a token string against the current clock. The structural and
/// signature outcomes are exact; only the expiry cut-off depends on the clock.
pub fn verify_token(key: &[u8], token: &str) -> (r: Result<Claims, TokenError>)
    ensures
        match spec_validate_sig(key@, token.spec_bytes()) {
            Ok(c) => r == Ok::<Claims, TokenError>(c) || r == Err::<Claims, TokenError>(
                TokenError::Expired,
            ),
            Err(e) => r == Err::<Claims, TokenError>(e),
        },
{
    let ts = now_unix();
    let now: u64 = if ts < 0 {
        0
    } else {
        ts as u64
    };
    validate_at(key, token.as_bytes(), now)
}

/// Validating a token of the issued shape at time `now` yields exactly:
/// `InvalidSignature` when the signature segment is not the tag of the
/// signing input (any alteration of it), `Expired` when correctly signed but
/// `now` is past the expiry, and the embedded claims otherwise. The
/// hypothesis on `sig` holds of every base64url signature segment.
pub proof fn lemma_validate_constructed(key: Seq<u8>, sub: i32, exp: usize, sig: Seq<u8>, now: u64)
    requires
        forall|i: int| 0 <= i < sig.len() ==> #[trigger] sig[i] != 46,
    ensures
        ({
            let si = spec_signing_input(sub as int, exp as nat);
            let t = si + seq![46u8] + sig;
            spec_validate(key, t, now) == if sig != hs256_sig(key, si) {
                Err::<Claims, TokenError>(TokenError::InvalidSignature)
            } else if now > exp as u64 {
                Err::<Claims, TokenError>(TokenError::Expired)
            } else {
                Ok::<Claims, TokenError>(Claims { sub, exp })
            }
        }),
{
    let h = header_segment();
    let pj = claims_json(sub as int, exp as nat);
    let p = b64u_encode(pj);
    let si = spec_signing_input(sub as int, exp as nat);
    let t = si + seq![46u8] + sig;
    lemma_b64u_encode_alphabet(header_json());
    lemma_b64u_encode_alphabet(pj);
    assert(si.len() == h.len() + 1 + p.len());
    assert(t.len() == si.len() + 1 + sig.len());
    let d1 = h.len() as int;
    let d2 = si.len() as int;
    assert(t[d1] == 46) by {
        assert(si[d1] == 46);
    }
    assert forall|j: int| 0 <= j < d1 implies t[j] != 46 by {
        assert(t[j] == h[j]);
        assert(is_b64u(h[j]));
    }
    lemma_find_byte_some(t, 46, 0, d1);
    assert(t[d2] == 46);
    assert forall|j: int| d1 + 1 <= j < d2 implies t[j] != 46 by {
        assert(t[j] == si[j]);
        assert(si[j] == p[j - d1 - 1]);
        assert(is_b64u(p[j - d1 - 1]));
    }
    lemma_find_byte_some(t, 46, d1 + 1, d2);
    assert forall|j: int| d2 + 1 <= j < t.len() implies t[j] != 46 by {
        assert(t[j] == sig[j - d2 - 1]);
    }
    lemma_find_byte_none(t, 46, d2 + 1);
    assert(t.subrange(0, d1) =~= h);
    assert(t.subrange(d1 + 1, d2) =~= p);
    lemma_b64u_round_trip(pj);
    lemma_claims_round_trip(sub, exp);
    assert(t.subrange(0, d2) =~= si);
    assert(t.subrange(d2 + 1, t.len() as int) =~= sig);
}

/// Right after issuance the token validates to exactly the subject it was
/// issued for: `validate(issue(u))` yields claims whose subject is `u`. The
/// hypothesis on the tag is established by every call of the signing wrapper.
pub proof fn lemma_issue_then_validate(key: Seq<u8>, sub: i32, exp: usize, now: u64)
    requires
        now <= exp as u64,
        ({
            let sig = hs256_sig(key, spec_signing_input(sub as int, exp as nat));
            forall|i: int| 0 <= i < sig.len() ==> is_b64u(#[trigger] sig[i])
        }),
    ensures
        spec_validate(key, spec_token(key, sub as int, exp as nat), now) == Ok::<
            Claims,
            TokenError,
        >(Claims { sub, exp }),
{
    let si = spec_signing_input(sub as int, exp as nat);
    let sig = hs256_sig(key, si);
    assert forall|i: int| 0 <= i < sig.len() implies #[trigger] sig[i] != 46 by {
        assert(is_b64u(sig[i]));
    }
    lemma_validate_constructed(key, sub, exp, sig, now);
}

/// A correctly signed, well-formed token validated after its expiry fails
/// with `Expired` and no other error kind.
pub proof fn lemma_expired_token(key: Seq<u8>, sub: i32, exp: usize, now: u64)
    requires
        now > exp as u64,
        ({
            let sig = hs256_sig(key, spec_signing_input(sub as int, exp as nat));
            forall|i: int| 0 <= i < sig.len() ==> is_b64u(#[trigger] sig[i])
        }),
    ensures
        spec_validate(key, spec_token(key, sub as int, exp as nat), now) == Err::<
            Claims,
            TokenError,
        >(TokenError::Expired),
{
    let si = spec_signing_input(sub as int, exp as nat);
    let sig = hs256_sig(key, si);
    assert forall|i: int| 0 <= i < sig.len() implies #[trigger] sig[i] != 46 by {
        assert(is_b64u(sig[i]));
    }
    lemma_validate_constructed(key, sub, exp, sig, now);
}

/// A token of the issued shape whose signature segment was altered in any way
/// - by as little as one bit of one byte - fails with `InvalidSignature`,
/// never with a different error kind, at any validation time.
pub proof fn lemma_tampered_signature(key: Seq<u8>, sub: i32, exp: usize, sig: Seq<u8>, now: u64)
    requires
        sig != hs256_sig(key, spec_signing_input(sub as int, exp as nat)),
        forall|i: int| 0 <= i < sig.len() ==> #[trigger] sig[i] != 46,
    ensures
        spec_validate(
            key,
            spec_signing_input(sub as int, exp as nat) + seq![46u8] + sig,
            now,
        ) == Err::<Claims, TokenError>(TokenError::InvalidSignature),
{
    lemma_validate_constructed(key, sub, exp, sig, now);
}

} // verus!
