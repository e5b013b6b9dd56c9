//! Base64url without padding: the encoding used for the three segments of a
//! session token. The decoder is strict: it accepts exactly the strings the
//! encoder produces (no padding, no trailing garbage bits), so encoding
//! followed by decoding is the identity, which `lemma_b64u_round_trip` proves.

use vstd::prelude::*;

verus! {

/// The base64url alphabet byte for a 6-bit value.
pub open spec fn b64u_char(v: u8) -> u8
    recommends
        v < 64,
{
    if v < 26 {
        (65 + v) as u8
    } else if v < 52 {
        (97 + (v - 26)) as u8
    } else if v < 62 {
        (48 + (v - 52)) as u8
    } else if v == 62 {
        45u8
    } else {
        95u8
    }
}

/// Whether a byte belongs to the base64url alphabet.
pub open spec fn is_b64u(c: u8) -> bool {
    (65 <= c <= 90) || (97 <= c <= 122) || (48 <= c <= 57) || c == 45 || c == 95
}

/// The 6-bit value of a base64url alphabet byte.
pub open spec fn b64u_val(c: u8) -> u8
    recommends
        is_b64u(c),
{
    if 65 <= c <= 90 {
        (c - 65) as u8
    } else if 97 <= c <= 122 {
        (c - 97 + 26) as u8
    } else if 48 <= c <= 57 {
        (c - 48 + 52) as u8
    } else if c == 45 {
        62u8
    } else {
        63u8
    }
}

/// The alphabet map is injective with `b64u_val` as its inverse, stays inside
/// the alphabet, and never produces a dot or a non-ASCII byte.
pub proof fn lemma_b64u_char_val(v: u8)
    requires
        v < 64,
    ensures
        is_b64u(b64u_char(v)),
        b64u_val(b64u_char(v)) == v,
        b64u_char(v) != 46,
        b64u_char(v) < 128,
{
}

/// The four alphabet bytes encoding a full group of three bytes.
pub open spec fn enc3(b0: u8, b1: u8, b2: u8) -> Seq<u8> {
    seq![
        b64u_char(b0 >> 2),
        b64u_char(((b0 & 3) << 4) | (b1 >> 4)),
        b64u_char(((b1 & 15) << 2) | (b2 >> 6)),
        b64u_char(b2 & 63),
    ]
}

/// The three alphabet bytes encoding a trailing group of two bytes.
pub open spec fn enc2(b0: u8, b1: u8) -> Seq<u8> {
    seq![b64u_char(b0 >> 2), b64u_char(((b0 & 3) << 4) | (b1 >> 4)), b64u_char((b1 & 15) << 2)]
}

/// The two alphabet bytes encoding a trailing group of one byte.
pub open spec fn enc1(b0: u8) -> Seq<u8> {
    seq![b64u_char(b0 >> 2), b64u_char((b0 & 3) << 4)]
}

/// Base64url encoding without padding.
pub open spec fn b64u_encode(s: Seq<u8>) -> Seq<u8>
    decreases s.len(),
{
    if s.len() == 0 {
        Seq::empty()
    } else if s.len() == 1 {
        enc1(s[0])
    } else if s.len() == 2 {
        enc2(s[0], s[1])
    } else {
        enc3(s[0], s[1], s[2]) + b64u_encode(s.skip(3))
    }
}

/// The three bytes decoded from a full group of four alphabet bytes.
pub open spec fn dec4(c0: u8, c1: u8, c2: u8, c3: u8) -> Seq<u8> {
    let v0 = b64u_val(c0);
    let v1 = b64u_val(c1);
    let v2 = b64u_val(c2);
    let v3 = b64u_val(c3);
    seq![((v0 << 2) | (v1 >> 4)) as u8, ((v1 & 15) << 4) | (v2 >> 2), ((v2 & 3) << 6) | v3]
}

/// Strict base64url decoding: rejects padding-length inputs and trailing
/// garbage bits, so it is a partial inverse of `b64u_encode`.
pub open spec fn b64u_decode(s: Seq<u8>) -> Option<Seq<u8>>
    decreases s.len(),
{
    if s.len() == 0 {
        Some(Seq::empty())
    } else if s.len() == 1 {
        None
    } else if s.len() == 2 {
        if is_b64u(s[0]) && is_b64u(s[1]) && (b64u_val(s[1]) & 15) == 0 {
            Some(seq![(b64u_val(s[0]) << 2) | (b64u_val(s[1]) >> 4)])
        } else {
            None
        }
    } else if s.len() == 3 {
        if is_b64u(s[0]) && is_b64u(s[1]) && is_b64u(s[2]) && (b64u_val(s[2]) & 3) == 0 {
            Some(
                seq![
                    (b64u_val(s[0]) << 2) | (b64u_val(s[1]) >> 4),
                    ((b64u_val(s[1]) & 15) << 4) | (b64u_val(s[2]) >> 2),
                ],
            )
        } else {
            None
        }
    } else {
        if is_b64u(s[0]) && is_b64u(s[1]) && is_b64u(s[2]) && is_b64u(s[3]) {
            match b64u_decode(s.skip(4)) {
                Some(rest) => Some(dec4(s[0], s[1], s[2], s[3]) + rest),
                None => None,
            }
        } else {
            None
        }
    }
}

/// Every byte of an encoding belongs to the alphabet.
pub proof fn lemma_b64u_encode_alphabet(s: Seq<u8>)
    ensures
        forall|i: int| 0 <= i < b64u_encode(s).len() ==> is_b64u(#[trigger] b64u_encode(s)[i]),
    decreases s.len(),
{
    if s.len() == 0 {
    } else if s.len() == 1 {
        let b0 = s[0];
        assert(b0 >> 2 < 64 && (b0 & 3) << 4 < 64) by (bit_vector);
        lemma_b64u_char_val(b0 >> 2);
        lemma_b64u_char_val((b0 & 3) << 4);
    } else if s.len() == 2 {
        let b0 = s[0];
        let b1 = s[1];
        assert(b0 >> 2 < 64 && ((b0 & 3) << 4) | (b1 >> 4) < 64 && (b1 & 15) << 2 < 64)
            by (bit_vector);
        lemma_b64u_char_val(b0 >> 2);
        lemma_b64u_char_val(((b0 & 3) << 4) | (b1 >> 4));
        lemma_b64u_char_val((b1 & 15) << 2);
    } else {
        let b0 = s[0];
        let b1 = s[1];
        let b2 = s[2];
        assert(b0 >> 2 < 64 && ((b0 & 3) << 4) | (b1 >> 4) < 64 && ((b1 & 15) << 2) | (b2 >> 6)
            < 64 && b2 & 63 < 64) by (bit_vector);
        lemma_b64u_char_val(b0 >> 2);
        lemma_b64u_char_val(((b0 & 3) << 4) | (b1 >> 4));
        lemma_b64u_char_val(((b1 & 15) << 2) | (b2 >> 6));
        lemma_b64u_char_val(b2 & 63);
        lemma_b64u_encode_alphabet(s.skip(3));
        assert forall|i: int| 0 <= i < b64u_encode(s).len() implies is_b64u(
            #[trigger] b64u_encode(s)[i],
        ) by {
            if i >= 4 {
                assert(b64u_encode(s)[i] == b64u_encode(s.skip(3))[i - 4]);
            }
        }
    }
}

/// Encoding a sequence whose length is a multiple of three distributes over
/// concatenation.
pub proof fn lemma_b64u_encode_append(s: Seq<u8>, t: Seq<u8>)
    requires
        s.len() % 3 == 0,
    ensures
        b64u_encode(s + t) == b64u_encode(s) + b64u_encode(t),
    decreases s.len(),
{
    if s.len() == 0 {
        assert(s + t =~= t);
        assert(b64u_encode(s) + b64u_encode(t) =~= b64u_encode(t));
    } else {
        let u = s + t;
        assert(u.len() >= 3);
        assert(u[0] == s[0] && u[1] == s[1] && u[2] == s[2]);
        assert(u.skip(3) =~= s.skip(3) + t);
        lemma_b64u_encode_append(s.skip(3), t);
        if s.len() == 3 {
            assert(b64u_encode(s.skip(3)) =~= Seq::<u8>::empty());
            assert(b64u_encode(s) =~= enc3(s[0], s[1], s[2]) + b64u_encode(s.skip(3)));
        }
        assert(b64u_encode(u) =~= b64u_encode(s) + b64u_encode(t));
    }
}

/// Decoding inverts encoding.
pub proof fn lemma_b64u_round_trip(s: Seq<u8>)
    ensures
        b64u_decode(b64u_encode(s)) == Some(s),
    decreases s.len(),
{
    if s.len() == 0 {
        assert(b64u_decode(b64u_encode(s)) =~= Some(s));
    } else if s.len() == 1 {
        let b0 = s[0];
        assert(b0 >> 2 < 64 && (b0 & 3) << 4 < 64) by (bit_vector);
        lemma_b64u_char_val(b0 >> 2);
        lemma_b64u_char_val((b0 & 3) << 4);
        assert(((b0 & 3) << 4) & 15 == 0) by (bit_vector);
        assert(((b0 >> 2) << 2) | (((b0 & 3) << 4) >> 4) == b0) by (bit_vector);
        assert(b64u_decode(b64u_encode(s)) matches Some(d) && d =~= s);
    } else if s.len() == 2 {
        let b0 = s[0];
        let b1 = s[1];
        assert(b0 >> 2 < 64 && ((b0 & 3) << 4) | (b1 >> 4) < 64 && (b1 & 15) << 2 < 64)
            by (bit_vector);
        lemma_b64u_char_val(b0 >> 2);
        lemma_b64u_char_val(((b0 & 3) << 4) | (b1 >> 4));
        lemma_b64u_char_val((b1 & 15) << 2);
        assert(((b1 & 15) << 2) & 3 == 0) by (bit_vector);
        assert(((b0 >> 2) << 2) | ((((b0 & 3) << 4) | (b1 >> 4)) >> 4) == b0) by (bit_vector);
        assert((((((b0 & 3) << 4) | (b1 >> 4)) & 15) << 4) | (((b1 & 15) << 2) >> 2) == b1)
            by (bit_vector);
        assert(b64u_decode(b64u_encode(s)) matches Some(d) && d =~= s);
    } else {
        let b0 = s[0];
        let b1 = s[1];
        let b2 = s[2];
        let e = b64u_encode(s);
        let g = enc3(b0, b1, b2);
        let rest = b64u_encode(s.skip(3));
        assert(e == g + rest);
        assert(b0 >> 2 < 64 && ((b0 & 3) << 4) | (b1 >> 4) < 64 && ((b1 & 15) << 2) | (b2 >> 6)
            < 64 && b2 & 63 < 64) by (bit_vector);
        lemma_b64u_char_val(b0 >> 2);
        lemma_b64u_char_val(((b0 & 3) << 4) | (b1 >> 4));
        lemma_b64u_char_val(((b1 & 15) << 2) | (b2 >> 6));
        lemma_b64u_char_val(b2 & 63);
        lemma_b64u_round_trip(s.skip(3));
        // The recursive tail of the encoding is never a single byte.
        assert(rest.len() != 1) by {
            if s.skip(3).len() >= 1 {
                assert(rest.len() >= 2);
            }
        }
        assert(e.len() >= 4);
        assert(e[0] == g[0] && e[1] == g[1] && e[2] == g[2] && e[3] == g[3]);
        assert(e.skip(4) =~= rest);
        assert(((b0 >> 2) << 2) | ((((b0 & 3) << 4) | (b1 >> 4)) >> 4) == b0) by (bit_vector);
        assert((((((b0 & 3) << 4) | (b1 >> 4)) & 15) << 4) | (((((b1 & 15) << 2) | (b2 >> 6)))
            >> 2) == b1) by (bit_vector);
        assert((((((b1 & 15) << 2) | (b2 >> 6)) & 3) << 6) | (b2 & 63) == b2) by (bit_vector);
        assert(dec4(e[0], e[1], e[2], e[3]) =~= seq![b0, b1, b2]);
        assert(b64u_decode(e) matches Some(d) && d =~= s);
    }
}

/// The alphabet byte for a 6-bit value.
fn enc_char(v: u8) -> (r: u8)
    requires
        v < 64,
    ensures
        r == b64u_char(v),
{
    if v < 26 {
        65 + v
    } else if v < 52 {
        97 + (v - 26)
    } else if v < 62 {
        48 + (v - 52)
    } else if v == 62 {
        45
    } else {
        95
    }
}

/// The 6-bit value of an alphabet byte, or `None` outside the alphabet.
fn dec_char(c: u8) -> (r: Option<u8>)
    ensures
        match r {
            Some(v) => is_b64u(c) && v == b64u_val(c),
            None => !is_b64u(c),
        },
{
    if 65 <= c && c <= 90 {
        Some(c - 65)
    } else if 97 <= c && c <= 122 {
        Some(c - 97 + 26)
    } else if 48 <= c && c <= 57 {
        Some(c - 48 + 52)
    } else if c == 45 {
        Some(62)
    } else if c == 95 {
        Some(63)
    } else {
        None
    }
}

/// Encode a byte slice in base64url without padding.
pub fn encode(s: &[u8]) -> (r: Vec<u8>)
    ensures
        r@ == b64u_encode(s@),
{
    let mut out: Vec<u8> = Vec::new();
    let mut i: usize = 0;
    while s.len() - i >= 3
        invariant
            i <= s@.len(),
            i % 3 == 0,
            out@ == b64u_encode(s@.subrange(0, i as int)),
        decreases s@.len() - i,
    {
        let b0 = s[i];
        let b1 = s[i + 1];
        let b2 = s[i + 2];
        proof {
            assert(b0 >> 2 < 64 && ((b0 & 3) << 4) | (b1 >> 4) < 64 && ((b1 & 15) << 2) | (b2 >> 6)
                < 64 && b2 & 63 < 64) by (bit_vector);
        }
        out.push(enc_char(b0 >> 2));
        out.push(enc_char(((b0 & 3) << 4) | (b1 >> 4)));
        out.push(enc_char(((b1 & 15) << 2) | (b2 >> 6)));
        out.push(enc_char(b2 & 63));
        proof {
            let pre = s@.subrange(0, i as int);
            let grp = s@.subrange(i as int, i + 3);
            lemma_b64u_encode_append(pre, grp);
            assert(pre + grp =~= s@.subrange(0, i + 3));
            assert(grp[0] == b0 && grp[1] == b1 && grp[2] == b2);
            assert(grp.skip(3) =~= Seq::<u8>::empty());
            assert(b64u_encode(grp.skip(3)) =~= Seq::<u8>::empty());
            assert(b64u_encode(grp) =~= enc3(b0, b1, b2));
            assert(out@ =~= b64u_encode(s@.subrange(0, i + 3)));
        }
        i = i + 3;
    }
    let rem = s.len() - i;
    if rem == 1 {
        let b0 = s[i];
        proof {
            assert(b0 >> 2 < 64 && (b0 & 3) << 4 < 64) by (bit_vector);
        }
        out.push(enc_char(b0 >> 2));
        out.push(enc_char((b0 & 3) << 4));
        proof {
            let pre = s@.subrange(0, i as int);
            let grp = s@.subrange(i as int, i + 1);
            lemma_b64u_encode_append(pre, grp);
            assert(pre + grp =~= s@);
            assert(grp[0] == b0);
            assert(b64u_encode(grp) =~= enc1(b0));
            assert(out@ =~= b64u_encode(s@));
        }
    } else if rem == 2 {
        let b0 = s[i];
        let b1 = s[i + 1];
        proof {
            assert(b0 >> 2 < 64 && ((b0 & 3) << 4) | (b1 >> 4) < 64 && (b1 & 15) << 2 < 64)
                by (bit_vector);
        }
        out.push(enc_char(b0 >> 2));
        out.push(enc_char(((b0 & 3) << 4) | (b1 >> 4)));
        out.push(enc_char((b1 & 15) << 2));
        proof {
            let pre = s@.subrange(0, i as int);
            let grp = s@.subrange(i as int, i + 2);
            lemma_b64u_encode_append(pre, grp);
            assert(pre + grp =~= s@);
            assert(grp[0] == b0 && grp[1] == b1);
            assert(b64u_encode(grp) =~= enc2(b0, b1));
            assert(out@ =~= b64u_encode(s@));
        }
    } else {
        proof {
            assert(s@.subrange(0, i as int) =~= s@);
        }
    }
    out
}

/// Decode a strict base64url string without padding.
pub fn decode(s: &[u8]) -> (r: Option<Vec<u8>>)
    ensures
        match r {
            Some(d) => b64u_decode(s@) == Some(d@),
            None => b64u_decode(s@) is None,
        },
{
    let mut out: Vec<u8> = Vec::new();
    let mut i: usize = 0;
    proof {
        assert(s@.skip(0) =~= s@);
        if b64u_decode(s@) is Some {
            assert(Seq::<u8>::empty() + b64u_decode(s@).unwrap() =~= b64u_decode(s@).unwrap());
        }
    }
    while s.len() - i >= 4
        invariant
            i <= s@.len(),
            i % 4 == 0,
            b64u_decode(s@) == match b64u_decode(s@.skip(i as int)) {
                Some(rest) => Some(out@ + rest),
                None => None::<Seq<u8>>,
            },
        decreases s@.len() - i,
    {
        let ghost pre = s@.skip(i as int);
        let c0 = dec_char(s[i]);
        let c1 = dec_char(s[i + 1]);
        let c2 = dec_char(s[i + 2]);
        let c3 = dec_char(s[i + 3]);
        proof {
            assert(pre.len() >= 4);
            assert(pre[0] == s@[i as int] && pre[1] == s@[i + 1] && pre[2] == s@[i + 2] && pre[3]
                == s@[i + 3]);
        }
        match (c0, c1, c2, c3) {
            (Some(v0), Some(v1), Some(v2), Some(v3)) => {
                let ghost out_before = out@;
                out.push((v0 << 2) | (v1 >> 4));
                out.push(((v1 & 15) << 4) | (v2 >> 2));
                out.push(((v2 & 3) << 6) | v3);
                proof {
                    let grp = dec4(pre[0], pre[1], pre[2], pre[3]);
                    assert(pre.skip(4) =~= s@.skip(i + 4));
                    assert(out@ =~= out_before + grp);
                    if b64u_decode(s@.skip(i + 4)) is Some {
                        let rest = b64u_decode(s@.skip(i + 4)).unwrap();
                        assert(b64u_decode(pre) == Some(grp + rest));
                        assert(out_before + (grp + rest) =~= (out_before + grp) + rest);
                    }
                }
                i = i + 4;
            },
            _ => {
                return None;
            },
        }
    }
    let rem = s.len() - i;
    let ghost pre = s@.skip(i as int);
    if rem == 0 {
        proof {
            assert(pre =~= Seq::<u8>::empty());
            assert(out@ + Seq::<u8>::empty() =~= out@);
        }
        Some(out)
    } else if rem == 1 {
        None
    } else if rem == 2 {
        proof {
            assert(pre.len() == 2);
            assert(pre[0] == s@[i as int] && pre[1] == s@[i + 1]);
        }
        match (dec_char(s[i]), dec_char(s[i + 1])) {
            (Some(v0), Some(v1)) => {
                if v1 & 15 == 0 {
                    let ghost out_before = out@;
                    out.push((v0 << 2) | (v1 >> 4));
                    proof {
                        assert(out@ =~= out_before + seq![(v0 << 2) | (v1 >> 4)]);
                    }
                    Some(out)
                } else {
                    None
                }
            },
            _ => None,
        }
    } else {
        proof {
            assert(pre.len() == 3);
            assert(pre[0] == s@[i as int] && pre[1] == s@[i + 1] && pre[2] == s@[i + 2]);
        }
        match (dec_char(s[i]), dec_char(s[i + 1]), dec_char(s[i + 2])) {
            (Some(v0), Some(v1), Some(v2)) => {
                if v2 & 3 == 0 {
                    let ghost out_before = out@;
                    out.push((v0 << 2) | (v1 >> 4));
                    out.push(((v1 & 15) << 4) | (v2 >> 2));
                    proof {
                        assert(out@ =~= out_before + seq![
                            (v0 << 2) | (v1 >> 4),
                            ((v1 & 15) << 4) | (v2 >> 2),
                        ]);
                    }
                    Some(out)
                } else {
                    None
                }
            },
            _ => None,
        }
    }
}

} // verus!
