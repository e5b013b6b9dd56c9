//! The claim set of a session token and its JSON notation. The payload of a
//! token is exactly `{"sub":<id>,"exp":<timestamp>}` with both numbers in
//! canonical decimal; the parser accepts exactly that shape, so writing
//! followed by parsing is the identity (`lemma_claims_round_trip`).

use crate::bytes::{bytes_eq, find_byte, lemma_find_byte_some, push_all, spec_find_byte};
use crate::numtext::{
    dec_i, dec_u, digits_val, i32_to_dec, is_canon_digits, is_digit, lemma_dec_i_chars,
    lemma_dec_u, lemma_parse_i32_round_trip, parse_i32, parse_usize, spec_parse_i32,
    spec_parse_usize, u64_to_dec,
};
use vstd::prelude::*;

verus! {

/// The claim set carried by a session token: the authenticated user's id and
/// the unix timestamp after which the token is no longer accepted.
#[derive(Debug, Clone, Copy, PartialEq, Eq, Structural)]
pub struct Claims {
    pub sub: i32,
    pub exp: usize,
}

/// The bytes of `{"sub":`.
pub open spec fn claims_prefix() -> Seq<u8> {
    seq![123u8, 34u8, 115u8, 117u8, 98u8, 34u8, 58u8]
}

/// The bytes of `,"exp":`.
pub open spec fn claims_mid() -> Seq<u8> {
    seq![44u8, 34u8, 101u8, 120u8, 112u8, 34u8, 58u8]
}

/// The JSON notation of a claim set.
pub open spec fn claims_json(sub: int, exp: nat) -> Seq<u8> {
    claims_prefix() + dec_i(sub) + claims_mid() + dec_u(exp) + seq![125u8]
}

/// What the strict payload parser accepts: exactly the canonical JSON
/// notation of a claim set whose numbers fit the claim types.
pub open spec fn spec_parse_claims(s: Seq<u8>) -> Option<Claims> {
    if s.len() >= 9 && s.subrange(0, 7) == claims_prefix() && s.last() == 125 {
        match spec_find_byte(s, 44, 7) {
            Some(c) => {
                if c + 7 <= s.len() - 1 && s.subrange(c, c + 7) == claims_mid() {
                    match spec_parse_i32(s.subrange(7, c)) {
                        Some(sub) => match spec_parse_usize(s.subrange(c + 7, s.len() - 1)) {
                            Some(exp) => Some(Claims { sub, exp }),
                            None => None,
                        },
                        None => None,
                    }
                } else {
                    None
                }
            },
            None => None,
        }
    } else {
        None
    }
}

/// The bytes of `{"sub":`.
fn claims_prefix_bytes() -> (r: Vec<u8>)
    ensures
        r@ == claims_prefix(),
{
    let mut v: Vec<u8> = Vec::new();
    v.push(123);
    v.push(34);
    v.push(115);
    v.push(117);
    v.push(98);
    v.push(34);
    v.push(58);
    proof {
        assert(v@ =~= claims_prefix());
    }
    v
}

/// The bytes of `,"exp":`.
fn claims_mid_bytes() -> (r: Vec<u8>)
    ensures
        r@ == claims_mid(),
{
    let mut v: Vec<u8> = Vec::new();
    v.push(44);
    v.push(34);
    v.push(101);
    v.push(120);
    v.push(112);
    v.push(34);
    v.push(58);
    proof {
        assert(v@ =~= claims_mid());
    }
    v
}

/// Write a claim set in its JSON notation.
pub fn emit_claims(c: &Claims) -> (r: Vec<u8>)
    ensures
        r@ == claims_json(c.sub as int, c.exp as nat),
{
    let mut v = claims_prefix_bytes();
    let sub_digits = i32_to_dec(c.sub);
    push_all(&mut v, sub_digits.as_slice());
    let mid = claims_mid_bytes();
    push_all(&mut v, mid.as_slice());
    let exp_digits = u64_to_dec(c.exp as u64);
    push_all(&mut v, exp_digits.as_slice());
    v.push(125);
    proof {
        assert(dec_u((c.exp as u64) as nat) == dec_u(c.exp as nat));
        assert(v@ =~= claims_json(c.sub as int, c.exp as nat));
    }
    v
}

/// Parse a strict JSON claim set, consuming the whole slice.
pub fn parse_claims(s: &[u8]) -> (r: Option<Claims>)
    ensures
        r == spec_parse_claims(s@),
{
    if s.len() < 9 {
        return None;
    }
    let pre = vstd::slice::slice_subrange(s, 0, 7);
    let pre_expected = claims_prefix_bytes();
    if !bytes_eq(pre, pre_expected.as_slice()) {
        return None;
    }
    if s[s.len() - 1] != 125 {
        return None;
    }
    match find_byte(s, 44, 7) {
        None => None,
        Some(c) => {
            proof {
                crate::bytes::lemma_find_byte_is_first(s@, 44, 7);
            }
            if c > s.len() - 8 {
                return None;
            }
            let mid = vstd::slice::slice_subrange(s, c, c + 7);
            let mid_expected = claims_mid_bytes();
            if !bytes_eq(mid, mid_expected.as_slice()) {
                return None;
            }
            let sub_part = vstd::slice::slice_subrange(s, 7, c);
            match parse_i32(sub_part) {
                None => None,
                Some(sub) => {
                    let exp_part = vstd::slice::slice_subrange(s, c + 7, s.len() - 1);
                    match parse_usize(exp_part) {
                        None => None,
                        Some(exp) => Some(Claims { sub, exp }),
                    }
                },
            }
        },
    }
}

/// Parsing inverts writing: the canonical JSON notation of any representable
/// claim set parses back to exactly that claim set.
pub proof fn lemma_claims_round_trip(sub: i32, exp: usize)
    ensures
        spec_parse_claims(claims_json(sub as int, exp as nat)) == Some(Claims { sub, exp }),
{
    let a = dec_i(sub as int);
    let b = dec_u(exp as nat);
    let s = claims_json(sub as int, exp as nat);
    lemma_dec_i_chars(sub as int);
    lemma_dec_u(exp as nat);
    lemma_parse_i32_round_trip(sub);
    assert(s.len() == 7 + a.len() + 7 + b.len() + 1);
    assert(s.subrange(0, 7) =~= claims_prefix());
    assert(s.last() == 125);
    let c = 7 + a.len() as int;
    assert(s[c] == claims_mid()[0]);
    assert forall|j: int| 7 <= j < c implies s[j] != 44 by {
        assert(s[j] == a[j - 7]);
        assert(a[j - 7] == 45 || is_digit(a[j - 7]));
    }
    lemma_find_byte_some(s, 44, 7, c);
    assert(s.subrange(c, c + 7) =~= claims_mid());
    assert(s.subrange(7, c) =~= a);
    assert(s.subrange(c + 7, s.len() - 1) =~= b);
    assert(spec_parse_i32(a) == Some(sub));
    assert(spec_parse_usize(b) == Some(exp)) by {
        assert(is_canon_digits(b));
        assert(digits_val(b) == exp as nat);
    }
}

} // verus!
