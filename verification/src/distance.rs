//! The normalized compression distance (NCD).
//!
//! For a query `q` and a reference text `t`, with `cx1 = gzip_len(q)`,
//! `cx2 = gzip_len(t)` and `cx1x2 = gzip_len(q ++ " " ++ t)`, the distance is
//! the fraction `(cx1x2 - min(cx1, cx2)) / max(cx1, cx2)`. The fraction is
//! kept exactly, as a numerator and a denominator, so distances compare
//! exactly instead of through rounded quotients. The fraction is defined only
//! when the denominator is positive, and comparison stays exact only while
//! the lengths fit in 32 bits; pairs outside that range are rejected.

use vstd::prelude::*;

use crate::compress::{compress_len, gzip_len};
use crate::Error;

verus! {

/// Compressed lengths are accepted up to this bound, so that cross products
/// of numerators and denominators stay well inside `i128`.
pub const MAX_LEN: usize = 0xFFFF_FFFF;

/// An exact NCD value: the fraction `num / den`.
#[derive(Clone, Copy, Debug, PartialEq, Eq, Structural)]
pub struct Ncd {
    pub num: i64,
    pub den: u64,
}

/// A usable distance: positive denominator, both parts small enough that
/// comparing two distances by cross multiplication cannot overflow.
pub open spec fn ncd_wf(n: Ncd) -> bool {
    &&& 1 <= n.den <= MAX_LEN
    &&& -(MAX_LEN as int) <= n.num <= MAX_LEN
}

pub open spec fn min_int(a: int, b: int) -> int {
    if a <= b {
        a
    } else {
        b
    }
}

pub open spec fn max_int(a: int, b: int) -> int {
    if a <= b {
        b
    } else {
        a
    }
}

/// When three compressed lengths admit an exact, comparable distance.
pub open spec fn lens_ok(cx1: int, cx2: int, cx1x2: int) -> bool {
    &&& 1 <= max_int(cx1, cx2)
    &&& 0 <= cx1 <= MAX_LEN
    &&& 0 <= cx2 <= MAX_LEN
    &&& 0 <= cx1x2 <= MAX_LEN
}

/// The distance that three compressed lengths determine.
pub open spec fn ncd_of_lens(cx1: int, cx2: int, cx1x2: int) -> Ncd {
    Ncd {
        num: (cx1x2 - min_int(cx1, cx2)) as i64,
        den: max_int(cx1, cx2) as u64,
    }
}

/// The text the compressor sees for a pair: query, one space, reference.
pub open spec fn joined(q: Seq<char>, t: Seq<char>) -> Seq<char> {
    q + " "@ + t
}

/// Whether the pair `(q, t)` has a defined, exactly comparable distance.
pub open spec fn pair_ok(q: Seq<char>, t: Seq<char>) -> bool {
    lens_ok(gzip_len(q) as int, gzip_len(t) as int, gzip_len(joined(q, t)) as int)
}

/// The distance of the pair `(q, t)`.
pub open spec fn ncd_spec(q: Seq<char>, t: Seq<char>) -> Ncd {
    ncd_of_lens(gzip_len(q) as int, gzip_len(t) as int, gzip_len(joined(q, t)) as int)
}

/// Builds the exact distance out of the three compressed lengths, or reports
/// that these lengths admit none.
pub fn ncd_from_lens(cx1: usize, cx2: usize, cx1x2: usize) -> (r: Option<Ncd>)
    ensures
        r is Some <==> lens_ok(cx1 as int, cx2 as int, cx1x2 as int),
        r is Some ==> r->0 == ncd_of_lens(cx1 as int, cx2 as int, cx1x2 as int),
        r is Some ==> ncd_wf(r->0),
{
    let mx = if cx1 >= cx2 {
        cx1
    } else {
        cx2
    };
    let mn = if cx1 >= cx2 {
        cx2
    } else {
        cx1
    };
    if mx == 0 || mx > MAX_LEN || cx1x2 > MAX_LEN {
        return None;
    }
    let num: i64 = (cx1x2 as i64) - (mn as i64);
    Some(Ncd { num, den: mx as u64 })
}

/// The distance between `a` and `b`, from three compressions, or an error
/// where the compressed lengths admit no exact distance.
pub fn ncd(a: &str, b: &str) -> (r: Result<Ncd, Error>)
    ensures
        r is Ok <==> pair_ok(a@, b@),
        r is Ok ==> r->Ok_0 == ncd_spec(a@, b@),
        r is Ok ==> ncd_wf(r->Ok_0),
        r is Err ==> r->Err_0 == Error::DegenerateDistance,
{
    let cx1 = compress_len(a);
    let cx2 = compress_len(b);
    let combined = join_texts(a, b);
    let cx1x2 = compress_len(combined.as_str());
    match ncd_from_lens(cx1, cx2, cx1x2) {
        Some(d) => Ok(d),
        None => Err(Error::DegenerateDistance),
    }
}

/// The concatenation the compressor sees for a pair.
pub fn join_texts(a: &str, b: &str) -> (r: String)
    ensures
        r@ == joined(a@, b@),
{
    let mut s = String::from_str(a);
    s.append(" ");
    s.append(b);
    s
}

/// The distance is never negative: whenever the three lengths admit a
/// distance at all and compressing the joined text yields at least as many
/// bytes as the smaller single text, the numerator is at least zero (and the
/// denominator is always positive). The side condition is exactly where a
/// compressor could in principle break the law; gzip meets it in practice.
pub proof fn lemma_ncd_nonnegative(cx1: int, cx2: int, cx1x2: int)
    requires
        lens_ok(cx1, cx2, cx1x2),
        cx1x2 >= min_int(cx1, cx2),
    ensures
        ncd_of_lens(cx1, cx2, cx1x2).num >= 0,
        ncd_of_lens(cx1, cx2, cx1x2).den >= 1,
{
}

} // verus!
