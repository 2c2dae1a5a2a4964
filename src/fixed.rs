//! Saturating fixed-point arithmetic. A quantity is an `i64` counting
//! millionths of a unit; every operation rounds toward zero and then
//! saturates at plus or minus `LIMIT`.
use vstd::arithmetic::div_mod::{lemma_div_is_ordered, lemma_div_is_ordered_by_denominator, lemma_div_pos_is_pos};
use vstd::prelude::*;

verus! {

/// One unit of length, speed or strength.
pub const SCALE: i64 = 1_000_000;

/// Half a unit.
pub const HALF: i64 = 500_000;

/// Lengths at or below this (a thousandth of a unit) count as zero.
pub const EPSILON: i64 = 1_000;

/// Every quantity saturates at plus or minus this bound.
pub const LIMIT: i64 = 1_000_000_000_000_000_000;

pub open spec fn in_range(v: int) -> bool {
    -LIMIT <= v <= LIMIT
}

/// `v` saturated into `[-LIMIT, LIMIT]`.
pub open spec fn sat(v: int) -> int {
    if v > LIMIT {
        LIMIT as int
    } else if v < -LIMIT {
        -LIMIT as int
    } else {
        v
    }
}

/// Division by a positive `b`, rounding toward zero.
pub open spec fn tdiv(a: int, b: int) -> int {
    if a >= 0 {
        a / b
    } else {
        -((-a) / b)
    }
}

pub open spec fn fadd(a: int, b: int) -> int {
    sat(a + b)
}

pub open spec fn fsub(a: int, b: int) -> int {
    sat(a - b)
}

/// Product of two fixed-point quantities.
pub open spec fn fmul(a: int, b: int) -> int {
    sat(tdiv(a * b, SCALE as int))
}

/// Quotient of two fixed-point quantities, rounded toward zero, for a
/// divisor of either sign.
pub open spec fn fdiv(a: int, b: int) -> int {
    if b < 0 {
        sat(-tdiv(a * SCALE, -b))
    } else {
        sat(tdiv(a * SCALE, b))
    }
}

/// `r` is the integer square root of `n`, rounded down.
pub open spec fn is_root(r: int, n: int) -> bool {
    0 <= r && r * r <= n && n < (r + 1) * (r + 1)
}

pub open spec fn root(n: int) -> int {
    choose|r: int| is_root(r, n)
}

pub proof fn lemma_root_unique(r: int, s: int, n: int)
    requires
        is_root(r, n),
        is_root(s, n),
    ensures
        r == s,
{
    if r < s {
        assert((r + 1) * (r + 1) <= s * s) by (nonlinear_arith)
            requires
                0 <= r,
                r + 1 <= s,
        ;
    }
    if s < r {
        assert((s + 1) * (s + 1) <= r * r) by (nonlinear_arith)
            requires
                0 <= s,
                s + 1 <= r,
        ;
    }
}

pub proof fn lemma_tdiv_bounded(a: int, b: int)
    requires
        b >= 1,
    ensures
        a >= 0 ==> 0 <= tdiv(a, b) <= a,
        a < 0 ==> a <= tdiv(a, b) <= 0,
{
    if a >= 0 {
        lemma_div_is_ordered_by_denominator(a, 1, b);
        lemma_div_pos_is_pos(a, b);
    } else {
        lemma_div_is_ordered_by_denominator(-a, 1, b);
        lemma_div_pos_is_pos(-a, b);
    }
}

pub proof fn lemma_tdiv_monotonic(a: int, c: int, b: int)
    requires
        b >= 1,
        0 <= a <= c,
    ensures
        tdiv(a, b) <= tdiv(c, b),
{
    lemma_div_is_ordered(a, c, b);
}

pub(crate) fn saturate(v: i128) -> (r: i64)
    ensures
        r == sat(v as int),
{
    if v > LIMIT as i128 {
        LIMIT
    } else if v < -(LIMIT as i128) {
        -LIMIT
    } else {
        v as i64
    }
}

pub(crate) fn div_toward_zero(a: i128, b: i128) -> (r: i128)
    requires
        a > i128::MIN,
        b >= 1,
    ensures
        r == tdiv(a as int, b as int),
{
    proof {
        lemma_tdiv_bounded(a as int, b as int);
    }
    if a >= 0 {
        ((a as u128) / (b as u128)) as i128
    } else {
        let m: u128 = ((-a) as u128) / (b as u128);
        -(m as i128)
    }
}

pub fn fx_add(a: i64, b: i64) -> (r: i64)
    requires
        in_range(a as int),
        in_range(b as int),
    ensures
        r == fadd(a as int, b as int),
{
    saturate(a as i128 + b as i128)
}

pub fn fx_sub(a: i64, b: i64) -> (r: i64)
    requires
        in_range(a as int),
        in_range(b as int),
    ensures
        r == fsub(a as int, b as int),
{
    saturate(a as i128 - b as i128)
}

pub fn fx_mul(a: i64, b: i64) -> (r: i64)
    requires
        in_range(a as int),
        in_range(b as int),
    ensures
        r == fmul(a as int, b as int),
{
    proof {
        assert(-LIMIT * LIMIT <= a * b <= LIMIT * LIMIT) by (nonlinear_arith)
            requires
                in_range(a as int),
                in_range(b as int),
        ;
    }
    let p: i128 = (a as i128) * (b as i128);
    saturate(div_toward_zero(p, SCALE as i128))
}

pub fn fx_div(a: i64, b: i64) -> (r: i64)
    requires
        in_range(a as int),
        in_range(b as int),
        b != 0,
    ensures
        r == fdiv(a as int, b as int),
{
    let p: i128 = (a as i128) * (SCALE as i128);
    if b < 0 {
        proof {
            lemma_tdiv_bounded(p as int, -b as int);
        }
        saturate(-div_toward_zero(p, -(b as i128)))
    } else {
        saturate(div_toward_zero(p, b as i128))
    }
}

/// Divides a quantity by a count of items.
pub fn fx_div_count(a: i64, n: u64) -> (r: i64)
    requires
        in_range(a as int),
        n >= 1,
    ensures
        r == tdiv(a as int, n as int),
        in_range(r as int),
{
    proof {
        lemma_tdiv_bounded(a as int, n as int);
    }
    div_toward_zero(a as i128, n as i128) as i64
}

/// The integer square root of `n`, rounded down.
pub fn floor_sqrt(n: u128) -> (r: u64)
    ensures
        r == root(n as int),
        is_root(r as int, n as int),
{
    let mut lo: u128 = 0;
    let mut hi: u128 = 0x1_0000_0000_0000_0000;
    assert(n < hi * hi) by (nonlinear_arith)
        requires
            n <= u128::MAX,
            hi == 0x1_0000_0000_0000_0000u128,
    ;
    while hi - lo > 1
        invariant
            lo < hi <= 0x1_0000_0000_0000_0000u128,
            lo * lo <= n,
            n < hi * hi,
        decreases hi - lo,
    {
        let mid: u128 = lo + (hi - lo) / 2;
        assert(mid * mid < 0x1_0000_0000_0000_0000_0000_0000_0000_0000int) by (nonlinear_arith)
            requires
                mid < 0x1_0000_0000_0000_0000u128,
        ;
        if mid * mid <= n {
            lo = mid;
        } else {
            hi = mid;
        }
    }
    proof {
        assert(is_root(lo as int, n as int));
        lemma_root_unique(lo as int, root(n as int), n as int);
    }
    lo as u64
}

} // verus!
