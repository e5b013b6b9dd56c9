//! Canonical decimal notation for the integers carried in a claim set, with a
//! strict parser: no leading zeros, no sign except a single leading minus, and
//! the whole slice must be consumed. Writing followed by parsing is the
//! identity.

use vstd::prelude::*;

verus! {

/// The canonical decimal digits of a natural number, most significant first.
pub open spec fn dec_u(n: nat) -> Seq<u8>
    decreases n,
{
    if n < 10 {
        seq![(48 + n) as u8]
    } else {
        dec_u(n / 10) + seq![(48 + n % 10) as u8]
    }
}

/// The canonical decimal notation of an integer: a minus sign when negative.
pub open spec fn dec_i(n: int) -> Seq<u8> {
    if n < 0 {
        seq![45u8] + dec_u((-n) as nat)
    } else {
        dec_u(n as nat)
    }
}

/// Whether a byte is a decimal digit.
pub open spec fn is_digit(c: u8) -> bool {
    48 <= c <= 57
}

/// Whether a sequence is nonempty, all digits, and free of leading zeros.
pub open spec fn is_canon_digits(s: Seq<u8>) -> bool {
    s.len() > 0 && (forall|i: int| 0 <= i < s.len() ==> is_digit(#[trigger] s[i])) && (s.len() > 1
        ==> s[0] != 48)
}

/// The value of a digit sequence.
pub open spec fn digits_val(s: Seq<u8>) -> int
    decreases s.len(),
{
    if s.len() == 0 {
        0
    } else {
        digits_val(s.drop_last()) * 10 + (s.last() - 48)
    }
}

/// What the strict parser accepts: the canonical notation of a value that
/// fits in `u64`.
pub open spec fn spec_parse_u64(s: Seq<u8>) -> Option<u64> {
    if is_canon_digits(s) && digits_val(s) <= u64::MAX {
        Some(digits_val(s) as u64)
    } else {
        None
    }
}

/// What the signed strict parser accepts: canonical notation of an `i32`.
pub open spec fn spec_parse_i32(s: Seq<u8>) -> Option<i32> {
    if s.len() > 0 && s[0] == 45 {
        let rest = s.skip(1);
        if is_canon_digits(rest) && 1 <= digits_val(rest) <= 2147483648 {
            Some((-digits_val(rest)) as i32)
        } else {
            None
        }
    } else {
        if is_canon_digits(s) && digits_val(s) <= 2147483647 {
            Some(digits_val(s) as i32)
        } else {
            None
        }
    }
}

/// What the `usize` strict parser accepts: canonical notation of a `usize`.
pub open spec fn spec_parse_usize(s: Seq<u8>) -> Option<usize> {
    if is_canon_digits(s) && digits_val(s) <= usize::MAX {
        Some(digits_val(s) as usize)
    } else {
        None
    }
}

/// Every byte of a canonical integer notation is a digit or a minus sign.
pub proof fn lemma_dec_i_chars(n: int)
    ensures
        dec_i(n).len() >= 1,
        forall|i: int| 0 <= i < dec_i(n).len() ==> (#[trigger] dec_i(n)[i] == 45 || is_digit(
            dec_i(n)[i],
        )),
{
    if n < 0 {
        lemma_dec_u((-n) as nat);
        let s = dec_i(n);
        let d = dec_u((-n) as nat);
        assert(s == seq![45u8] + d);
        assert forall|i: int| 0 <= i < s.len() implies (#[trigger] s[i] == 45 || is_digit(
            s[i],
        )) by {
            if i > 0 {
                assert(s[i] == d[i - 1]);
            }
        }
    } else {
        lemma_dec_u(n as nat);
    }
}

/// The canonical digits of `n` are canonical and evaluate back to `n`.
pub proof fn lemma_dec_u(n: nat)
    ensures
        is_canon_digits(dec_u(n)),
        digits_val(dec_u(n)) == n,
        n > 0 ==> dec_u(n)[0] != 48,
    decreases n,
{
    if n < 10 {
        let s = dec_u(n);
        assert(s =~= seq![(48 + n) as u8]);
        assert(is_digit(s[0]));
        assert(digits_val(s) == digits_val(s.drop_last()) * 10 + (s.last() - 48));
        assert(s.drop_last() =~= Seq::<u8>::empty());
    } else {
        lemma_dec_u(n / 10);
        let s = dec_u(n);
        let p = dec_u(n / 10);
        assert(s == p + seq![(48 + n % 10) as u8]);
        assert(s.drop_last() =~= p);
        assert(s.last() == (48 + n % 10) as u8);
        assert(digits_val(s) == digits_val(p) * 10 + n % 10);
        assert(digits_val(s) == n) by {
            assert(n == (n / 10) * 10 + n % 10);
        }
        assert forall|i: int| 0 <= i < s.len() implies is_digit(#[trigger] s[i]) by {
            if i < p.len() {
                assert(s[i] == p[i]);
            } else {
                assert(s[i] == (48 + n % 10) as u8);
            }
        }
        assert(s[0] == p[0]);
        assert(n / 10 > 0);
    }
}

/// Digit values are nonnegative, and extending a digit sequence to the right
/// never decreases its value.
pub proof fn lemma_digits_val_bounds(s: Seq<u8>)
    requires
        forall|i: int| 0 <= i < s.len() ==> is_digit(#[trigger] s[i]),
    ensures
        digits_val(s) >= 0,
        forall|k: int| 0 <= k <= s.len() ==> digits_val(s.subrange(0, k)) <= digits_val(s),
    decreases s.len(),
{
    if s.len() == 0 {
        assert forall|k: int| 0 <= k <= s.len() implies digits_val(s.subrange(0, k)) <= digits_val(
            s,
        ) by {
            assert(s.subrange(0, k) =~= s);
        }
    } else {
        let p = s.drop_last();
        lemma_digits_val_bounds(p);
        assert(is_digit(s[s.len() - 1]));
        assert(digits_val(s) == digits_val(p) * 10 + (s.last() - 48));
        assert(digits_val(p) * 10 >= digits_val(p)) by {
            assert(digits_val(p) >= 0);
        }
        assert forall|k: int| 0 <= k <= s.len() implies digits_val(s.subrange(0, k)) <= digits_val(
            s,
        ) by {
            if k == s.len() {
                assert(s.subrange(0, k) =~= s);
            } else {
                assert(s.subrange(0, k) =~= p.subrange(0, k));
            }
        }
    }
}

/// Parse a strict canonical decimal `u64`, consuming the whole slice.
pub fn parse_u64(s: &[u8]) -> (r: Option<u64>)
    ensures
        r == spec_parse_u64(s@),
{
    if s.len() == 0 {
        return None;
    }
    if s.len() > 1 && s[0] == 48 {
        return None;
    }
    let mut acc: u64 = 0;
    let mut i: usize = 0;
    while i < s.len()
        invariant
            i <= s@.len(),
            s@.len() > 0,
            s@.len() > 1 ==> s@[0] != 48,
            forall|j: int| 0 <= j < i ==> is_digit(#[trigger] s@[j]),
            acc == digits_val(s@.subrange(0, i as int)),
        decreases s@.len() - i,
    {
        let c = s[i];
        if c < 48 || c > 57 {
            return None;
        }
        let d = c - 48;
        if acc > (u64::MAX - (d as u64)) / 10 {
            // The value of the digits read so far already exceeds the range,
            // and more digits can only increase it.
            proof {
                let p = s@.subrange(0, i as int);
                let q = s@.subrange(0, i + 1);
                assert(q.drop_last() =~= p);
                assert(q.last() == c);
                assert(digits_val(q) == acc * 10 + d);
                assert(acc * 10 + d > u64::MAX) by (nonlinear_arith)
                    requires
                        acc > (u64::MAX - (d as u64)) / 10,
                        0 <= d <= 9,
                ;
                if forall|j: int| 0 <= j < s@.len() ==> is_digit(#[trigger] s@[j]) {
                    lemma_digits_val_bounds(s@);
                    assert(digits_val(s@.subrange(0, i + 1)) <= digits_val(s@));
                }
            }
            return None;
        }
        proof {
            assert(acc * 10 + d <= u64::MAX) by (nonlinear_arith)
                requires
                    acc <= (u64::MAX - (d as u64)) / 10,
                    0 <= d <= 9,
            ;
            let p = s@.subrange(0, i as int);
            let q = s@.subrange(0, i + 1);
            assert(q.drop_last() =~= p);
            assert(q.last() == c);
        }
        let next = acc * 10 + (d as u64);
        acc = next;
        i = i + 1;
    }
    proof {
        assert(s@.subrange(0, s@.len() as int) =~= s@);
    }
    Some(acc)
}

/// Parse a strict canonical decimal `i32`, consuming the whole slice.
pub fn parse_i32(s: &[u8]) -> (r: Option<i32>)
    ensures
        r == spec_parse_i32(s@),
{
    if s.len() > 0 && s[0] == 45 {
        let rest = vstd::slice::slice_subrange(s, 1, s.len());
        proof {
            assert(rest@ =~= s@.skip(1));
        }
        match parse_u64(rest) {
            Some(v) => {
                proof {
                    assert(is_canon_digits(rest@));
                    lemma_digits_val_bounds(rest@);
                    assert(digits_val(rest@) == v);
                }
                if v == 0 || v > 2147483648 {
                    None
                } else if v == 2147483648 {
                    Some(i32::MIN)
                } else {
                    Some(-(v as i32))
                }
            },
            None => {
                proof {
                    if is_canon_digits(rest@) && 1 <= digits_val(rest@) <= 2147483648 {
                        assert(digits_val(rest@) <= u64::MAX);
                    }
                }
                None
            },
        }
    } else {
        match parse_u64(s) {
            Some(v) => {
                proof {
                    assert(is_canon_digits(s@));
                    lemma_digits_val_bounds(s@);
                    assert(digits_val(s@) == v);
                }
                if v > 2147483647 {
                    None
                } else {
                    Some(v as i32)
                }
            },
            None => {
                proof {
                    if is_canon_digits(s@) && digits_val(s@) <= 2147483647 {
                        assert(digits_val(s@) <= u64::MAX);
                    }
                }
                None
            },
        }
    }
}

/// Parse a strict canonical decimal `usize`, consuming the whole slice.
pub fn parse_usize(s: &[u8]) -> (r: Option<usize>)
    ensures
        r == spec_parse_usize(s@),
{
    match parse_u64(s) {
        Some(v) => {
            proof {
                assert(is_canon_digits(s@));
                lemma_digits_val_bounds(s@);
                assert(digits_val(s@) == v);
            }
            if v <= usize::MAX as u64 {
                Some(v as usize)
            } else {
                None
            }
        },
        None => {
            proof {
                if is_canon_digits(s@) && digits_val(s@) <= usize::MAX {
                    assert(digits_val(s@) <= u64::MAX);
                }
            }
            None
        },
    }
}

/// Write a `u64` in canonical decimal notation.
pub fn u64_to_dec(n: u64) -> (r: Vec<u8>)
    ensures
        r@ == dec_u(n as nat),
    decreases n,
{
    if n < 10 {
        let mut v: Vec<u8> = Vec::new();
        v.push(48 + (n as u8));
        proof {
            assert(v@ =~= dec_u(n as nat));
        }
        v
    } else {
        let mut v = u64_to_dec(n / 10);
        v.push(48 + ((n % 10) as u8));
        proof {
            assert(v@ =~= dec_u((n / 10) as nat) + seq![(48 + (n as nat) % 10) as u8]);
        }
        v
    }
}

/// Write an `i32` in canonical decimal notation.
pub fn i32_to_dec(n: i32) -> (r: Vec<u8>)
    ensures
        r@ == dec_i(n as int),
{
    if n >= 0 {
        u64_to_dec(n as u64)
    } else {
        let mag: u64 = (-(n as i64)) as u64;
        let mut v: Vec<u8> = Vec::new();
        v.push(45);
        let digits = u64_to_dec(mag);
        crate::bytes::push_all(&mut v, digits.as_slice());
        proof {
            assert(v@ =~= dec_i(n as int));
        }
        v
    }
}

/// Parsing inverts writing, for values in range.
pub proof fn lemma_parse_u64_round_trip(n: u64)
    ensures
        spec_parse_u64(dec_u(n as nat)) == Some(n),
{
    lemma_dec_u(n as nat);
}

/// Parsing inverts writing, for values in range.
pub proof fn lemma_parse_i32_round_trip(n: i32)
    ensures
        spec_parse_i32(dec_i(n as int)) == Some(n),
{
    if n < 0 {
        let mag = (-(n as int)) as nat;
        lemma_dec_u(mag);
        let s = dec_i(n as int);
        assert(s == seq![45u8] + dec_u(mag));
        assert(s[0] == 45);
        assert(s.skip(1) =~= dec_u(mag));
    } else {
        lemma_dec_u(n as nat);
        let s = dec_i(n as int);
        assert(s.len() > 0 && is_digit(s[0]));
        assert(s[0] != 45);
    }
}

} // verus!
