//! The request guard: from the value of an `Authorization` header to an
//! authenticated identity or a rejection. The header must be present and
//! carry the `Bearer ` scheme; the remainder, with surrounding ASCII blanks
//! trimmed, must validate as a token. Every rejection answers 401.

use crate::bytes::bytes_eq;
use crate::claims::Claims;
use crate::crypto::now_unix;
use crate::token::{spec_validate, spec_validate_sig, validate_at};
use vstd::prelude::*;

verus! {

/// A validated identity, scoped to the one request it was extracted for.
#[derive(Debug, Clone, Copy, PartialEq, Eq, Structural)]
pub struct AuthenticatedUser(pub Claims);

/// Why a request carries no usable identity.
#[derive(Debug, Clone, Copy, PartialEq, Eq, Structural)]
pub enum Rejection {
    /// No `Authorization` header at all.
    MissingToken,
    /// A header that does not use the `Bearer ` scheme.
    MalformedScheme,
    /// A bearer token that fails validation, for any token error kind.
    InvalidToken,
}

impl Rejection {
    /// Every rejection is answered with this HTTP status.
    pub fn status_code(&self) -> (r: u16)
        ensures
            r == 401,
    {
        401
    }

    /// The reason named in the rejection body.
    pub fn message(&self) -> (r: String)
        ensures
            *self == Rejection::MissingToken ==> r@ == "missing token"@,
            *self == Rejection::MalformedScheme ==> r@ == "malformed scheme"@,
            *self == Rejection::InvalidToken ==> r@ == "invalid token"@,
    {
        match self {
            Rejection::MissingToken => "missing token".to_owned(),
            Rejection::MalformedScheme => "malformed scheme".to_owned(),
            Rejection::InvalidToken => "invalid token".to_owned(),
        }
    }
}

/// The bytes of the scheme prefix `Bearer `.
pub open spec fn bearer_prefix() -> Seq<u8> {
    seq![66u8, 101u8, 97u8, 114u8, 101u8, 114u8, 32u8]
}

/// Whether a byte is an ASCII blank (space or tab).
pub open spec fn is_ws(b: u8) -> bool {
    b == 32 || b == 9
}

/// `s` with leading and trailing ASCII blanks removed.
pub open spec fn trim_ws(s: Seq<u8>) -> Seq<u8>
    decreases s.len(),
{
    if s.len() == 0 {
        s
    } else if is_ws(s[0]) {
        trim_ws(s.skip(1))
    } else if is_ws(s.last()) {
        trim_ws(s.drop_last())
    } else {
        s
    }
}

/// What the guard decides for a request whose `Authorization` header is
/// `header`, at time `now`.
pub open spec fn spec_guard(key: Seq<u8>, header: Option<Seq<u8>>, now: u64) -> Result<
    Claims,
    Rejection,
> {
    match header {
        None => Err(Rejection::MissingToken),
        Some(h) => if h.len() < 7 || h.subrange(0, 7) != bearer_prefix() {
            Err(Rejection::MalformedScheme)
        } else {
            match spec_validate(key, trim_ws(h.skip(7)), now) {
                Ok(c) => Ok(c),
                Err(_) => Err(Rejection::InvalidToken),
            }
        },
    }
}

/// A subrange bounded by blanks on both sides and blank-free at its ends is
/// exactly the trimmed sequence.
proof fn lemma_trim_range(s: Seq<u8>, lo: int, hi: int)
    requires
        0 <= lo <= hi <= s.len(),
        forall|j: int| 0 <= j < lo ==> is_ws(#[trigger] s[j]),
        forall|j: int| hi <= j < s.len() ==> is_ws(#[trigger] s[j]),
        lo < hi ==> !is_ws(s[lo]) && !is_ws(s[hi - 1]),
    ensures
        trim_ws(s) == s.subrange(lo, hi),
    decreases s.len(),
{
    if s.len() == 0 {
        assert(s.subrange(0, 0) =~= s);
    } else if is_ws(s[0]) {
        let t = s.skip(1);
        if lo > 0 {
            assert forall|j: int| 0 <= j < lo - 1 implies is_ws(#[trigger] t[j]) by {
                assert(t[j] == s[j + 1]);
            }
            assert forall|j: int| hi - 1 <= j < t.len() implies is_ws(#[trigger] t[j]) by {
                assert(t[j] == s[j + 1]);
            }
            lemma_trim_range(t, lo - 1, hi - 1);
            assert(t.subrange(lo - 1, hi - 1) =~= s.subrange(lo, hi));
        } else {
            // lo == 0, and s[0] is blank, so lo == hi: everything is blank.
            assert(lo == hi);
            assert forall|j: int| 0 <= j < t.len() implies is_ws(#[trigger] t[j]) by {
                assert(t[j] == s[j + 1]);
            }
            lemma_trim_range(t, 0, 0);
            assert(t.subrange(0, 0) =~= s.subrange(lo, hi));
        }
    } else if is_ws(s.last()) {
        let t = s.drop_last();
        if hi < s.len() {
            assert forall|j: int| hi <= j < t.len() implies is_ws(#[trigger] t[j]) by {
                assert(t[j] == s[j]);
            }
            lemma_trim_range(t, lo, hi);
            assert(t.subrange(lo, hi) =~= s.subrange(lo, hi));
        } else {
            // hi == s.len(), and the last byte is blank, so lo == hi.
            assert(lo == hi);
            assert forall|j: int| 0 <= j < t.len() implies is_ws(#[trigger] t[j]) by {
                assert(t[j] == s[j]);
            }
            lemma_trim_range(t, t.len() as int, t.len() as int);
            assert(t.subrange(t.len() as int, t.len() as int) =~= s.subrange(lo, hi));
        }
    } else {
        assert(lo == 0 && hi == s.len());
        assert(s.subrange(0, s.len() as int) =~= s);
    }
}

/// Remove leading and trailing ASCII blanks.
pub fn trim_ascii_ws(s: &[u8]) -> (r: &[u8])
    ensures
        r@ == trim_ws(s@),
{
    let mut lo: usize = 0;
    let mut hi: usize = s.len();
    while lo < hi && (s[lo] == 32 || s[lo] == 9)
        invariant
            0 <= lo <= hi <= s@.len(),
            forall|j: int| 0 <= j < lo ==> is_ws(#[trigger] s@[j]),
        decreases hi - lo,
    {
        lo = lo + 1;
    }
    while lo < hi && (s[hi - 1] == 32 || s[hi - 1] == 9)
        invariant
            0 <= lo <= hi <= s@.len(),
            forall|j: int| 0 <= j < lo ==> is_ws(#[trigger] s@[j]),
            forall|j: int| hi <= j < s@.len() ==> is_ws(#[trigger] s@[j]),
            lo < hi ==> !is_ws(s@[lo as int]),
        decreases hi - lo,
    {
        hi = hi - 1;
    }
    proof {
        lemma_trim_range(s@, lo as int, hi as int);
    }
    vstd::slice::slice_subrange(s, lo, hi)
}

/// The bytes of the scheme prefix `Bearer `.
fn bearer_prefix_bytes() -> (r: Vec<u8>)
    ensures
        r@ == bearer_prefix(),
{
    let mut v: Vec<u8> = Vec::new();
    v.push(66);
    v.push(101);
    v.push(97);
    v.push(114);
    v.push(101);
    v.push(114);
    v.push(32);
    proof {
        assert(v@ =~= bearer_prefix());
    }
    v
}

/// Decide a request's identity from its `Authorization` header at time `now`.
/// The result is exactly `spec_guard`.
pub fn authenticate_at(key: &[u8], header: Option<&[u8]>, now: u64) -> (r: Result<
    AuthenticatedUser,
    Rejection,
>)
    ensures
        ({
            let hv = match header {
                Some(h) => Some(h@),
                None => None::<Seq<u8>>,
            };
            match r {
                Ok(au) => spec_guard(key@, hv, now) == Ok::<Claims, Rejection>(au.0),
                Err(e) => spec_guard(key@, hv, now) == Err::<Claims, Rejection>(e),
            }
        }),
{
    let h = match header {
        Some(h) => h,
        None => {
            return Err(Rejection::MissingToken);
        },
    };
    if h.len() < 7 {
        return Err(Rejection::MalformedScheme);
    }
    let pre = vstd::slice::slice_subrange(h, 0, 7);
    let bearer = bearer_prefix_bytes();
    if !bytes_eq(pre, bearer.as_slice()) {
        return Err(Rejection::MalformedScheme);
    }
    let rest = vstd::slice::slice_subrange(h, 7, h.len());
    proof {
        assert(rest@ =~= h@.skip(7));
    }
    let tok = trim_ascii_ws(rest);
    match validate_at(key, tok, now) {
        Ok(c) => Ok(AuthenticatedUser(c)),
        Err(_) => Err(Rejection::InvalidToken),
    }
}

/// Decide a request's identity against the current clock. Which header shapes
/// are rejected, and the claims accepted, are exact; only the expiry cut-off
/// depends on the clock reading.
pub fn authenticate(key: &[u8], header: Option<&[u8]>) -> (r: Result<AuthenticatedUser, Rejection>)
    ensures
        header is None ==> r == Err::<AuthenticatedUser, Rejection>(Rejection::MissingToken),
        ({
            let hv = header.unwrap()@;
            header is Some && (hv.len() < 7 || hv.subrange(0, 7) != bearer_prefix()) ==> r == Err::<
                AuthenticatedUser,
                Rejection,
            >(Rejection::MalformedScheme)
        }),
        ({
            let hv = header.unwrap()@;
            header is Some && hv.len() >= 7 && hv.subrange(0, 7) == bearer_prefix() ==> match spec_validate_sig(
                key@,
                trim_ws(hv.skip(7)),
            ) {
                Ok(c) => r == Ok::<AuthenticatedUser, Rejection>(AuthenticatedUser(c)) || r
                    == Err::<AuthenticatedUser, Rejection>(Rejection::InvalidToken),
                Err(_) => r == Err::<AuthenticatedUser, Rejection>(Rejection::InvalidToken),
            }
        }),
{
    let ts = now_unix();
    let now: u64 = if ts < 0 {
        0
    } else {
        ts as u64
    };
    authenticate_at(key, header, now)
}

} // verus!
