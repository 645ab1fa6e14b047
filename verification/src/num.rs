//! Small integer helpers shared by the geometry and motion code: clamping,
//! truncating scaled division, an integer square root, a rational sine
//! approximation, and the single-fold range wrap used for rotation angles.

use vstd::prelude::*;

verus! {

/// `v` forced into the closed interval `[lo, hi]`.
pub open spec fn clamp_spec(v: int, lo: int, hi: int) -> int {
    if v < lo {
        lo
    } else if v > hi {
        hi
    } else {
        v
    }
}

pub fn clamp_i64(v: i64, lo: i64, hi: i64) -> (r: i64)
    requires
        lo <= hi,
    ensures
        r == clamp_spec(v as int, lo as int, hi as int),
{
    if v < lo {
        lo
    } else if v > hi {
        hi
    } else {
        v
    }
}

/// Division that truncates toward zero, written over non-negative division
/// so that every division in the specifications has non-negative operands.
pub open spec fn div_trunc(a: int, b: int) -> int
    recommends
        b > 0,
{
    if a >= 0 {
        a / b
    } else {
        -((-a) / b)
    }
}

/// `a * b / d`, truncating toward zero.
pub fn mul_div_trunc(a: i64, b: i64, d: i64) -> (r: i64)
    requires
        d > 0,
        -(i64::MAX as int) <= a * b <= i64::MAX as int,
    ensures
        r == div_trunc(a * b, d as int),
{
    proof {
        assert((a as int) * (b as int) == (a as i128) as int * (b as i128) as int);
        assert(-(i128::MAX as int) <= (a as int) * (b as int) <= i128::MAX as int);
    }
    let p: i128 = (a as i128) * (b as i128);
    if p >= 0 {
        let q: u128 = (p as u128) / (d as u128);
        proof {
            vstd::arithmetic::div_mod::lemma_div_is_ordered_by_denominator(
                p as int,
                1,
                d as int,
            );
            vstd::arithmetic::div_mod::lemma_div_basics(p as int);
        }
        q as i64
    } else {
        let np: u128 = (-p) as u128;
        let q: u128 = np / (d as u128);
        proof {
            vstd::arithmetic::div_mod::lemma_div_is_ordered_by_denominator(
                np as int,
                1,
                d as int,
            );
            vstd::arithmetic::div_mod::lemma_div_basics(np as int);
        }
        -(q as i64)
    }
}

/// `a + b` held inside `[-limit, limit]`.
pub fn add_clamped(a: i64, b: i64, limit: i64) -> (r: i64)
    requires
        limit > 0,
        -(i64::MAX as int) <= a + b <= i64::MAX as int,
    ensures
        r == clamp_spec(a + b, -limit as int, limit as int),
{
    let s: i64 = a + b;
    clamp_i64(s, -limit, limit)
}

/// The integer square root as a specification: the largest `r` with
/// `r * r <= n`.
pub open spec fn sqrt_floor(n: nat) -> nat
    decreases n,
{
    if n == 0 {
        0
    } else {
        let r = sqrt_floor((n - 1) as nat);
        if (r + 1) * (r + 1) <= n {
            r + 1
        } else {
            r
        }
    }
}

pub proof fn lemma_sqrt_floor_bracket(n: nat)
    ensures
        sqrt_floor(n) * sqrt_floor(n) <= n < (sqrt_floor(n) + 1) * (sqrt_floor(n) + 1),
    decreases n,
{
    let s = sqrt_floor(n);
    if n == 0 {
        assert(s == 0);
        assert(s * s <= n && n < (s + 1) * (s + 1)) by (nonlinear_arith)
            requires
                s == 0,
                n == 0,
        ;
    } else {
        lemma_sqrt_floor_bracket((n - 1) as nat);
        let p = sqrt_floor((n - 1) as nat);
        if (p + 1) * (p + 1) <= n {
            assert(s == p + 1);
            assert(s * s <= n) by (nonlinear_arith)
                requires
                    s == p + 1,
                    (p + 1) * (p + 1) <= n,
            ;
            assert(n < (s + 1) * (s + 1)) by (nonlinear_arith)
                requires
                    s == p + 1,
                    n <= (p + 1) * (p + 1),
            ;
        } else {
            assert(s == p);
            assert(s * s <= n) by (nonlinear_arith)
                requires
                    s == p,
                    p * p + 1 <= n,
            ;
            assert(n < (s + 1) * (s + 1)) by (nonlinear_arith)
                requires
                    s == p,
                    n < (p + 1) * (p + 1),
            ;
        }
    }
}

/// Any value bracketed by consecutive squares around `n` is its root.
pub proof fn lemma_sqrt_floor_unique(n: nat, r: nat)
    requires
        r * r <= n < (r + 1) * (r + 1),
    ensures
        r == sqrt_floor(n),
{
    lemma_sqrt_floor_bracket(n);
    let s = sqrt_floor(n);
    if r < s {
        assert((r + 1) * (r + 1) <= s * s) by (nonlinear_arith)
            requires
                r + 1 <= s,
        ;
    } else if s < r {
        assert((s + 1) * (s + 1) <= r * r) by (nonlinear_arith)
            requires
                s + 1 <= r,
        ;
    }
}

/// The integer square root: the largest `r` with `r * r <= n`.
pub fn isqrt_u64(n: u64) -> (r: u64)
    ensures
        r * r <= n < (r + 1) * (r + 1),
        r == sqrt_floor(n as nat),
{
    let mut lo: u64 = 0;
    let mut hi: u64 = 4294967296;
    assert(n < 4294967296u64 * 4294967296u64);
    while lo + 1 < hi
        invariant
            lo < hi <= 4294967296,
            lo * lo <= n,
            n < hi * hi,
        decreases hi - lo,
    {
        let mid: u64 = lo + (hi - lo) / 2;
        assert(lo < mid < hi);
        assert(mid * mid < 4294967296u64 * 4294967296u64) by (nonlinear_arith)
            requires
                mid < 4294967296u64,
        ;
        let sq: u64 = mid * mid;
        if sq <= n {
            lo = mid;
        } else {
            hi = mid;
        }
    }
    proof {
        lemma_sqrt_floor_unique(n as nat, lo as nat);
    }
    lo
}

/// Rational approximation of the sine of `x` millidegrees, scaled so a right
/// angle gives exactly 10000; defined on one half turn.
pub open spec fn sin_q_spec(x: int) -> int {
    4 * (x * (180000 - x)) * 10000 / (40500000000 - x * (180000 - x))
}

pub fn sin_q(x: i64) -> (r: i64)
    requires
        0 <= x <= 180000,
    ensures
        r == sin_q_spec(x as int),
        0 <= r <= 10000,
{
    assert(0 <= x * (180000 - x) <= 8100000000i64) by (nonlinear_arith)
        requires
            0 <= x <= 180000,
    ;
    let u: i64 = x * (180000 - x);
    let num: i64 = 4 * u * 10000;
    let den: i64 = 40500000000 - u;
    proof {
        vstd::arithmetic::div_mod::lemma_div_is_ordered(0, num as int, den as int);
        vstd::arithmetic::div_mod::lemma_div_basics(den as int);
        assert(num <= 10000 * den);
        vstd::arithmetic::div_mod::lemma_div_is_ordered(num as int, 10000 * den, den as int);
        vstd::arithmetic::div_mod::lemma_div_multiples_vanish(10000, den as int);
    }
    num / den
}

/// One fold of `num` back into `[min, max]`: values below `min` re-enter from
/// `max`, values above `max` re-enter from `min`, by the same distance.
pub open spec fn wrap_spec(num: int, min: int, max: int) -> int {
    if num < min {
        max - (min - num)
    } else if num > max {
        min - (max - num)
    } else {
        num
    }
}

pub fn wrap_i64(num: i64, min: i64, max: i64) -> (r: i64)
    requires
        -4000000000000000 <= num <= 4000000000000000,
        -4000000000000000 <= min <= 4000000000000000,
        -4000000000000000 <= max <= 4000000000000000,
    ensures
        r == wrap_spec(num as int, min as int, max as int),
{
    if num < min {
        max - (min - num)
    } else if num > max {
        min - (max - num)
    } else {
        num
    }
}

} // verus!
