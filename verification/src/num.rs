//! Fixed-point scalar arithmetic.
//!
//! A scalar is an `i64` counting raw units of 1/`SCALE` model units.
//! Intermediate products are taken in `i128`; division truncates toward
//! zero, as `div_to_zero` states.  `isqrt` is the exact floor square
//! root, used for magnitudes.

use vstd::prelude::*;
use vstd::arithmetic::div_mod::lemma_div_is_ordered;
use vstd::arithmetic::div_mod::lemma_div_pos_is_pos;
use vstd::arithmetic::div_mod::lemma_div_by_multiple;

verus! {

/// Raw units per model unit: coordinates are fixed-point with this scale.
pub const SCALE: i64 = 1_000_000;

/// The kernel's length tolerance, 1e-6 model units, i.e. one raw unit.
pub const LENGTH_EPS: i64 = 1;

/// Largest admissible coordinate magnitude (1e6 model units).  Keeping
/// coordinates under this bound lets every product of two coordinates,
/// and every 3-term sum of such products, fit comfortably in `i128`.
pub const MAX_COORD: i64 = 1_000_000_000_000;

/// Operand bound for `fp_mul`: products of two operands stay under
/// `i128` range and the scaled result stays under `i64` range.
pub const MAX_FP: i64 = 2_000_000_000_000;

/// Integer division truncating toward zero (the behaviour of the
/// executable division helpers), stated over mathematical integers.
pub open spec fn div_to_zero(n: int, d: int) -> int {
    if n >= 0 {
        n / d
    } else {
        -((-n) / d)
    }
}

/// Floor of the square root of `n` (0 for negative `n`).
pub open spec fn sqrt_floor(n: int) -> int
    decreases n,
{
    if n <= 0 {
        0
    } else if (sqrt_floor(n - 1) + 1) * (sqrt_floor(n - 1) + 1) <= n {
        sqrt_floor(n - 1) + 1
    } else {
        sqrt_floor(n - 1)
    }
}

/// `sqrt_floor(n)` is the unique integer `r >= 0` with
/// `r * r <= n < (r + 1) * (r + 1)`.
pub proof fn lemma_sqrt_floor(n: int)
    requires
        n >= 0,
    ensures
        sqrt_floor(n) >= 0,
        sqrt_floor(n) * sqrt_floor(n) <= n,
        n < (sqrt_floor(n) + 1) * (sqrt_floor(n) + 1),
    decreases n,
{
    if n == 0 {
    } else {
        lemma_sqrt_floor(n - 1);
        let p = sqrt_floor(n - 1);
        if (p + 1) * (p + 1) <= n {
            assert(n < (p + 2) * (p + 2)) by (nonlinear_arith)
                requires
                    p >= 0,
                    n - 1 < (p + 1) * (p + 1),
            {
            }
        }
    }
}

/// Any bracketing integer root equals `sqrt_floor`.
pub proof fn lemma_sqrt_floor_unique(n: int, r: int)
    requires
        n >= 0,
        r >= 0,
        r * r <= n,
        n < (r + 1) * (r + 1),
    ensures
        r == sqrt_floor(n),
{
    lemma_sqrt_floor(n);
    let s = sqrt_floor(n);
    if r < s {
        assert((r + 1) * (r + 1) <= s * s) by (nonlinear_arith)
            requires
                0 <= r,
                r + 1 <= s,
        {
        }
    }
    if s < r {
        assert((s + 1) * (s + 1) <= r * r) by (nonlinear_arith)
            requires
                0 <= s,
                s + 1 <= r,
        {
        }
    }
}

/// A lower witness `b * b <= n` pushes the floor root to at least `b`.
pub proof fn lemma_sqrt_floor_lower(n: int, b: int)
    requires
        n >= 0,
        b >= 0,
        b * b <= n,
    ensures
        sqrt_floor(n) >= b,
{
    lemma_sqrt_floor(n);
    let r = sqrt_floor(n);
    if r < b {
        assert((r + 1) * (r + 1) <= b * b) by (nonlinear_arith)
            requires
                0 <= r,
                r + 1 <= b,
        {
        }
    }
}

/// An upper witness `n < b * b` keeps the floor root under `b`.
pub proof fn lemma_sqrt_floor_upper(n: int, b: int)
    requires
        n >= 0,
        b >= 0,
        n < b * b,
    ensures
        sqrt_floor(n) < b,
{
    lemma_sqrt_floor(n);
    let r = sqrt_floor(n);
    if r >= b {
        assert(b * b <= r * r) by (nonlinear_arith)
            requires
                0 <= b,
                b <= r,
        {
        }
    }
}

/// `|a| <= ba` and `|b| <= bb` bound the product by `ba * bb`.
pub proof fn lemma_mul_abs_bound(a: int, b: int, ba: int, bb: int)
    requires
        -ba <= a <= ba,
        -bb <= b <= bb,
    ensures
        -(ba * bb) <= a * b <= ba * bb,
{
    assert(-(ba * bb) <= a * b <= ba * bb) by (nonlinear_arith)
        requires
            -ba <= a <= ba,
            -bb <= b <= bb,
    {
    }
}

/// Truncating division shrinks magnitudes: `|n| <= b * d` gives
/// `|n / d| <= b`.
pub proof fn lemma_div_to_zero_bound(n: int, d: int, b: int)
    requires
        d > 0,
        b >= 0,
        -(b * d) <= n <= b * d,
    ensures
        -b <= div_to_zero(n, d) <= b,
{
    if n >= 0 {
        lemma_div_pos_is_pos(n, d);
        lemma_div_is_ordered(n, b * d, d);
        lemma_div_by_multiple(b, d);
    } else {
        lemma_div_pos_is_pos(-n, d);
        lemma_div_is_ordered(-n, b * d, d);
        lemma_div_by_multiple(b, d);
    }
}

/// Floor square root by bisection over `[0, 2^63)`.
pub fn isqrt(n: u128) -> (r: u128)
    requires
        n < 0x4000_0000_0000_0000_0000_0000_0000_0000u128,
    ensures
        r == sqrt_floor(n as int),
        r * r <= n,
        n < (r + 1) * (r + 1),
{
    let mut lo: u128 = 0;
    let mut hi: u128 = 0x8000_0000_0000_0000u128;
    proof {
        assert((hi * hi) as int > n as int) by (nonlinear_arith)
            requires
                hi == 0x8000_0000_0000_0000u128,
                n < 0x4000_0000_0000_0000_0000_0000_0000_0000u128,
        {
        }
    }
    while lo + 1 < hi
        invariant
            lo < hi,
            hi <= 0x8000_0000_0000_0000u128,
            lo * lo <= n,
            (hi * hi) as int > n as int,
        decreases hi - lo,
    {
        let mid: u128 = lo + (hi - lo) / 2;
        proof {
            assert(mid * mid <= 0x4000_0000_0000_0000_0000_0000_0000_0000u128)
                by (nonlinear_arith)
                requires
                    mid <= 0x8000_0000_0000_0000u128,
            {
            }
        }
        if mid * mid <= n {
            lo = mid;
        } else {
            hi = mid;
        }
    }
    proof {
        assert(n < ((lo + 1) * (lo + 1)) as int);
        lemma_sqrt_floor_unique(n as int, lo as int);
    }
    lo
}

/// Quotient of `n` by a positive `d`, truncated toward zero.
pub fn div_trunc(n: i128, d: i128) -> (r: i128)
    requires
        d > 0,
        n > i128::MIN,
    ensures
        r == div_to_zero(n as int, d as int),
{
    if n >= 0 {
        let q: u128 = (n as u128) / (d as u128);
        proof {
            lemma_div_pos_is_pos(n as int, d as int);
            lemma_div_is_ordered(n as int, n as int, d as int);
            assert(n as int / d as int <= n as int) by {
                vstd::arithmetic::div_mod::lemma_div_nonincreasing(n as int, d as int);
            }
        }
        q as i128
    } else {
        let m: u128 = (-n) as u128;
        let q: u128 = m / (d as u128);
        proof {
            lemma_div_pos_is_pos(m as int, d as int);
            assert(m as int / d as int <= m as int) by {
                vstd::arithmetic::div_mod::lemma_div_nonincreasing(m as int, d as int);
            }
        }
        -(q as i128)
    }
}

/// Fixed-point product: `a * b` in raw units, rescaled by `SCALE`.
pub fn fp_mul(a: i64, b: i64) -> (r: i64)
    requires
        -MAX_FP <= a <= MAX_FP,
        -MAX_FP <= b <= MAX_FP,
    ensures
        r == div_to_zero(a as int * b as int, SCALE as int),
        -4_000_000_000_000_000_000 <= r <= 4_000_000_000_000_000_000,
{
    proof {
        lemma_mul_abs_bound(a as int, b as int, MAX_FP as int, MAX_FP as int);
        lemma_div_to_zero_bound(
            a as int * b as int,
            SCALE as int,
            4_000_000_000_000_000_000int,
        );
    }
    let p: i128 = (a as i128) * (b as i128);
    let q: i128 = div_trunc(p, SCALE as i128);
    q as i64
}

} // verus!
