use auth_core::base64url::{decode, encode};
use auth_core::claims::{emit_claims, parse_claims};
use auth_core::numtext::{i32_to_dec, parse_i32, parse_u64, parse_usize, u64_to_dec};
use auth_core::Claims;

#[test]
fn base64url_known_values() {
    assert_eq!(encode(b""), b"".to_vec());
    assert_eq!(encode(b"M"), b"TQ".to_vec());
    assert_eq!(encode(b"Ma"), b"TWE".to_vec());
    assert_eq!(encode(b"Man"), b"TWFu".to_vec());
    assert_eq!(encode(b"Many hands make light work."), b"TWFueSBoYW5kcyBtYWtlIGxpZ2h0IHdvcmsu".to_vec());
}

#[test]
fn base64url_uses_url_safe_alphabet() {
    // 0xfb 0xff packs to the 6-bit values 62, 63, 60: the two bytes that
    // differ from the standard alphabet, then '8'.
    assert_eq!(encode(&[0xfb, 0xff]), b"-_8".to_vec());
}

#[test]
fn base64url_decode_inverts_encode() {
    let cases: Vec<Vec<u8>> = vec![
        b"".to_vec(),
        b"f".to_vec(),
        b"fo".to_vec(),
        b"foo".to_vec(),
        b"foob".to_vec(),
        b"fooba".to_vec(),
        b"foobar".to_vec(),
        vec![0, 255, 1, 254, 2, 253, 3],
    ];
    for c in cases {
        assert_eq!(decode(&encode(&c)), Some(c));
    }
}

#[test]
fn base64url_decode_rejects_bad_input() {
    // A single byte can never be a padding-free encoding.
    assert_eq!(decode(b"T"), None);
    // Padding characters are not part of the alphabet.
    assert_eq!(decode(b"TWE="), None);
    // '+' and '/' belong to the standard alphabet, not the url-safe one.
    assert_eq!(decode(b"a+b/"), None);
    // Non-zero trailing bits: 'R' has value 17, and 17 & 15 != 0.
    assert_eq!(decode(b"TR"), None);
}

#[test]
fn decimal_writes_canonical_digits() {
    assert_eq!(u64_to_dec(0), b"0".to_vec());
    assert_eq!(u64_to_dec(7), b"7".to_vec());
    assert_eq!(u64_to_dec(1234567890), b"1234567890".to_vec());
    assert_eq!(u64_to_dec(u64::MAX), b"18446744073709551615".to_vec());
    assert_eq!(i32_to_dec(-7), b"-7".to_vec());
    assert_eq!(i32_to_dec(i32::MIN), b"-2147483648".to_vec());
    assert_eq!(i32_to_dec(i32::MAX), b"2147483647".to_vec());
}

#[test]
fn decimal_parse_accepts_exactly_canonical() {
    assert_eq!(parse_u64(b"0"), Some(0));
    assert_eq!(parse_u64(b"18446744073709551615"), Some(u64::MAX));
    assert_eq!(parse_u64(b""), None);
    assert_eq!(parse_u64(b"01"), None);
    assert_eq!(parse_u64(b"+5"), None);
    assert_eq!(parse_u64(b"5 "), None);
    assert_eq!(parse_u64(b"18446744073709551616"), None);
    assert_eq!(parse_u64(b"99999999999999999999999"), None);
    assert_eq!(parse_i32(b"-2147483648"), Some(i32::MIN));
    assert_eq!(parse_i32(b"2147483647"), Some(i32::MAX));
    assert_eq!(parse_i32(b"2147483648"), None);
    assert_eq!(parse_i32(b"-2147483649"), None);
    assert_eq!(parse_i32(b"-0"), None);
    assert_eq!(parse_i32(b"-"), None);
    assert_eq!(parse_usize(b"42"), Some(42));
    assert_eq!(parse_usize(b"042"), None);
}

#[test]
fn claims_json_exact_bytes() {
    let c = Claims { sub: -7, exp: 42 };
    assert_eq!(emit_claims(&c), b"{\"sub\":-7,\"exp\":42}".to_vec());
    let c2 = Claims { sub: 1, exp: 1086400 };
    assert_eq!(emit_claims(&c2), b"{\"sub\":1,\"exp\":1086400}".to_vec());
}

#[test]
fn claims_parse_inverts_emit() {
    for c in [
        Claims { sub: 0, exp: 0 },
        Claims { sub: -1, exp: 1 },
        Claims { sub: i32::MIN, exp: usize::MAX },
        Claims { sub: i32::MAX, exp: 1700000000 },
    ] {
        assert_eq!(parse_claims(&emit_claims(&c)), Some(c));
    }
}

#[test]
fn claims_parse_rejects_other_shapes() {
    assert_eq!(parse_claims(b"{\"sub\":1,\"exp\":2}x"), None);
    assert_eq!(parse_claims(b"{\"sub\":1,\"exp\":2 }"), None);
    assert_eq!(parse_claims(b"{\"sub\": 1,\"exp\":2}"), None);
    assert_eq!(parse_claims(b"{\"exp\":2,\"sub\":1}"), None);
    assert_eq!(parse_claims(b"{\"sub\":1}"), None);
    assert_eq!(parse_claims(b"{}"), None);
    assert_eq!(parse_claims(b""), None);
}
