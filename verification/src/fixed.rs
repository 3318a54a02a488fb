//! Signed fixed-point arithmetic with a decimal scale.
//!
//! A fixed-point number is an `i128` holding `SCALE` units per whole number,
//! so the value `v` stands for the real number `v / SCALE`. Multiplication
//! and division round toward zero; for the nonnegative operands used
//! throughout this crate that is ordinary floor rounding, which keeps every
//! operation weakly monotone in each argument.

use vstd::arithmetic::div_mod::{
    lemma_div_by_multiple, lemma_div_is_ordered, lemma_div_nonincreasing, lemma_div_pos_is_pos,
};
use vstd::arithmetic::mul::{lemma_mul_inequality, lemma_mul_nonnegative, lemma_mul_upper_bound};
use vstd::prelude::*;

verus! {

/// Number of fixed-point units per whole number.
pub const SCALE: i128 = 1_000_000_000;

/// Fixed-point product `a * b / SCALE`, as the exact integer computation
/// performed by `fixed_mul` on nonnegative operands.
pub open spec fn wmul(a: int, b: int) -> int {
    (a * b) / (SCALE as int)
}

/// Fixed-point quotient `a * SCALE / b`, as the exact integer computation
/// performed by `fixed_div` on a nonnegative numerator and positive
/// denominator.
pub open spec fn wdiv(a: int, b: int) -> int {
    (a * (SCALE as int)) / b
}

/// Multiplies two nonnegative fixed-point numbers, rounding down.
pub fn fixed_mul(a: i128, b: i128) -> (r: i128)
    requires
        0 <= a,
        0 <= b,
        a * b <= u128::MAX,
    ensures
        r == wmul(a as int, b as int),
        0 <= r,
{
    let prod: u128 = (a as u128) * (b as u128);
    let q: u128 = prod / (SCALE as u128);
    proof {
        lemma_div_pos_is_pos(prod as int, SCALE as int);
        lemma_div_nonincreasing(prod as int, SCALE as int);
    }
    q as i128
}

/// Divides two fixed-point numbers, rounding down; the result keeps the
/// fixed-point scale.
pub fn fixed_div(a: i128, b: i128) -> (r: i128)
    requires
        0 <= a,
        0 < b,
        a * SCALE <= i128::MAX,
    ensures
        r == wdiv(a as int, b as int),
        0 <= r,
{
    let num: u128 = (a as u128) * (SCALE as u128);
    let q: u128 = num / (b as u128);
    proof {
        lemma_div_pos_is_pos(num as int, b as int);
        lemma_div_nonincreasing(num as int, b as int);
    }
    q as i128
}

/// A fixed-point product of nonnegative factors is monotone in each factor.
pub proof fn lemma_wmul_mono(a1: int, a2: int, b1: int, b2: int)
    requires
        0 <= a1 <= a2,
        0 <= b1 <= b2,
    ensures
        wmul(a1, b1) <= wmul(a2, b2),
        0 <= wmul(a1, b1),
{
    lemma_mul_nonnegative(a1, b1);
    lemma_mul_inequality(a1, a2, b1);
    lemma_mul_inequality(b1, b2, a2);
    assert(a2 * b1 == b1 * a2) by (nonlinear_arith);
    assert(a2 * b2 == b2 * a2) by (nonlinear_arith);
    lemma_div_is_ordered(a1 * b1, a2 * b2, SCALE as int);
    lemma_div_pos_is_pos(a1 * b1, SCALE as int);
}

/// A fixed-point quotient is monotone in its numerator.
pub proof fn lemma_wdiv_mono_num(a1: int, a2: int, b: int)
    requires
        0 <= a1 <= a2,
        0 < b,
    ensures
        wdiv(a1, b) <= wdiv(a2, b),
        0 <= wdiv(a1, b),
{
    lemma_mul_inequality(a1, a2, SCALE as int);
    lemma_div_is_ordered(a1 * (SCALE as int), a2 * (SCALE as int), b);
    lemma_mul_nonnegative(a1, SCALE as int);
    lemma_div_pos_is_pos(a1 * (SCALE as int), b);
}

/// Floor division almost distributes over addition: the quotient of a sum
/// overshoots the sum of the quotients by at most one.
pub proof fn lemma_div_add_bound(x: int, y: int, d: int)
    requires
        0 <= x,
        0 <= y,
        0 < d,
    ensures
        (x + y) / d <= x / d + y / d + 1,
{
    vstd::arithmetic::div_mod::lemma_fundamental_div_mod(x, d);
    vstd::arithmetic::div_mod::lemma_fundamental_div_mod(y, d);
    vstd::arithmetic::div_mod::lemma_mod_division_less_than_divisor(x, d);
    vstd::arithmetic::div_mod::lemma_mod_division_less_than_divisor(y, d);
    lemma_div_pos_is_pos(x, d);
    lemma_div_pos_is_pos(y, d);
    assert(x + y < d * (x / d + y / d + 2)) by (nonlinear_arith)
        requires
            x == d * (x / d) + x % d,
            y == d * (y / d) + y % d,
            x % d < d,
            y % d < d,
    ;
    vstd::arithmetic::div_mod::lemma_multiply_divide_lt(x + y, d, x / d + y / d + 2);
}

/// Quotients of nearby numerators are nearby: the gap of the quotients is
/// at most the quotient of the gap, plus one.
pub proof fn lemma_div_step_bound(x1: int, x2: int, d: int)
    requires
        0 <= x2 <= x1,
        0 < d,
    ensures
        x1 / d - x2 / d <= (x1 - x2) / d + 1,
{
    lemma_div_add_bound(x2, x1 - x2, d);
}

/// Quotients of one numerator by nearby denominators are nearby: the gap is
/// at most the numerator times the denominators' gap, scaled down by their
/// product, plus one.
pub proof fn lemma_div_denominator_step(a: int, b: int, c: int)
    requires
        0 <= a,
        0 < b <= c,
    ensures
        a / b - a / c <= a * (c - b) / (b * c) + 1,
{
    let q1 = a / b;
    let q2 = a / c;
    vstd::arithmetic::div_mod::lemma_fundamental_div_mod(a, b);
    vstd::arithmetic::div_mod::lemma_fundamental_div_mod(a, c);
    vstd::arithmetic::div_mod::lemma_mod_division_less_than_divisor(a, b);
    vstd::arithmetic::div_mod::lemma_mod_division_less_than_divisor(a, c);
    lemma_mul_nonnegative(a, c - b);
    assert(0 < b * c) by (nonlinear_arith)
        requires
            0 < b,
            0 < c,
    ;
    lemma_div_pos_is_pos(a * (c - b), b * c);
    if q1 - q2 - 1 >= 0 {
        assert((b * c) * (q1 - q2 - 1) <= a * (c - b)) by (nonlinear_arith)
            requires
                a == b * q1 + a % b,
                a == c * q2 + a % c,
                0 <= a % b < b,
                0 <= a % c < c,
                0 < b <= c,
        ;
        lemma_div_is_ordered((b * c) * (q1 - q2 - 1), a * (c - b), b * c);
        lemma_div_by_multiple(q1 - q2 - 1, b * c);
        assert((q1 - q2 - 1) * (b * c) == (b * c) * (q1 - q2 - 1)) by (nonlinear_arith);
    }
}

/// Fixed-point product of two signed numbers, rounding toward zero: the
/// quotient of the exact product by `SCALE`, with the magnitude rounded
/// down.
pub open spec fn tmul(a: int, b: int) -> int {
    let p = a * b;
    if p >= 0 {
        p / (SCALE as int)
    } else {
        -((-p) / (SCALE as int))
    }
}

/// A toward-zero fixed-point product is bounded by the bound of the exact
/// product, scaled down.
pub proof fn lemma_tmul_bound(a: int, b: int, m: int)
    requires
        0 <= m,
        -m <= a * b <= m,
    ensures
        -(m / (SCALE as int)) <= tmul(a, b) <= m / (SCALE as int),
{
    let p = a * b;
    if p >= 0 {
        lemma_div_is_ordered(p, m, SCALE as int);
        lemma_div_pos_is_pos(p, SCALE as int);
        lemma_div_pos_is_pos(m, SCALE as int);
    } else {
        lemma_div_is_ordered(-p, m, SCALE as int);
        lemma_div_pos_is_pos(-p, SCALE as int);
    }
}

/// Multiplies two signed fixed-point numbers, rounding toward zero.
pub fn fixed_mul_signed(a: i128, b: i128) -> (r: i128)
    requires
        i128::MIN < a,
        i128::MIN < b,
        a * b <= u128::MAX,
        -(u128::MAX as int) <= a * b,
    ensures
        r == tmul(a as int, b as int),
{
    let negative = (a < 0) != (b < 0);
    let ma: u128 = if a < 0 {
        (-a) as u128
    } else {
        a as u128
    };
    let mb: u128 = if b < 0 {
        (-b) as u128
    } else {
        b as u128
    };
    proof {
        assert((a as int) * (b as int) == (if (a < 0) != (b < 0) {
            -((ma as int) * (mb as int))
        } else {
            (ma as int) * (mb as int)
        })) by (nonlinear_arith)
            requires
                ma == (if a < 0 { -(a as int) } else { a as int }),
                mb == (if b < 0 { -(b as int) } else { b as int }),
        ;
        lemma_div_is_ordered(ma as int * mb as int, u128::MAX as int, SCALE as int);
        lemma_div_pos_is_pos(ma as int * mb as int, SCALE as int);
    }
    let q = ma * mb / (SCALE as u128);
    if negative {
        -(q as i128)
    } else {
        q as i128
    }
}

/// Largest argument accepted by `fixed_sqrt`.
pub const SQRT_INPUT_LIMIT: i128 = 1_000_000_000_000;

/// Exclusive upper end of the square-root search bracket.
pub const SQRT_HI: i128 = 9_223_372_036_854_775_808;

/// Binary search for the integer square root of `n` over `[lo, hi)`.
pub open spec fn sqrt_search(n: int, lo: int, hi: int) -> int
    decreases hi - lo,
{
    if hi - lo <= 1 {
        lo
    } else {
        let mid = lo + (hi - lo) / 2;
        if mid * mid <= n {
            sqrt_search(n, mid, hi)
        } else {
            sqrt_search(n, lo, mid)
        }
    }
}

/// Square root of a fixed-point number, still in fixed-point units: the
/// integer square root of `v * SCALE`.
pub open spec fn fixed_sqrt_spec(v: int) -> int {
    sqrt_search(v * (SCALE as int), 0, SQRT_HI as int)
}

proof fn lemma_sqrt_search_props(n: int, lo: int, hi: int)
    requires
        lo < hi,
        0 <= lo,
        lo * lo <= n,
        n < hi * hi,
    ensures
        lo <= sqrt_search(n, lo, hi) < hi,
        sqrt_search(n, lo, hi) * sqrt_search(n, lo, hi) <= n,
        n < (sqrt_search(n, lo, hi) + 1) * (sqrt_search(n, lo, hi) + 1),
    decreases hi - lo,
{
    if hi - lo > 1 {
        let mid = lo + (hi - lo) / 2;
        assert(lo < mid < hi);
        if mid * mid <= n {
            lemma_sqrt_search_props(n, mid, hi);
        } else {
            lemma_sqrt_search_props(n, lo, mid);
        }
    }
}

/// The fixed-point square root is characterized by the two adjacent squares
/// around its scaled argument.
pub proof fn lemma_fixed_sqrt_bounds(v: int)
    requires
        0 <= v <= SQRT_INPUT_LIMIT,
    ensures
        0 <= fixed_sqrt_spec(v) < SQRT_HI,
        fixed_sqrt_spec(v) * fixed_sqrt_spec(v) <= v * SCALE,
        v * SCALE < (fixed_sqrt_spec(v) + 1) * (fixed_sqrt_spec(v) + 1),
{
    let n = v * (SCALE as int);
    lemma_mul_nonnegative(v, SCALE as int);
    lemma_mul_upper_bound(v, SQRT_INPUT_LIMIT as int, SCALE as int, SCALE as int);
    assert((SQRT_HI as int) * (SQRT_HI as int) > 1_000_000_000_000_000_000_000int) by {
        assert((SQRT_HI as int) * (SQRT_HI as int)
            == 85_070_591_730_234_615_865_843_651_857_942_052_864int) by (nonlinear_arith);
    }
    lemma_sqrt_search_props(n, 0, SQRT_HI as int);
}

/// Computes the square root of a fixed-point number by binary search; the
/// result is exactly `fixed_sqrt_spec` of the argument.
pub fn fixed_sqrt(v: i128) -> (r: i128)
    requires
        0 <= v <= SQRT_INPUT_LIMIT,
    ensures
        r == fixed_sqrt_spec(v as int),
        0 <= r < SQRT_HI,
        r * r <= v * SCALE,
        v * SCALE < (r + 1) * (r + 1),
{
    proof {
        lemma_fixed_sqrt_bounds(v as int);
    }
    let n: u128 = (v as u128) * (SCALE as u128);
    let mut lo: u128 = 0;
    let mut hi: u128 = SQRT_HI as u128;
    while hi - lo > 1
        invariant
            0 <= lo < hi <= SQRT_HI as u128,
            lo * lo <= n,
            n < hi * hi,
            n == (v as int) * (SCALE as int),
            sqrt_search(n as int, lo as int, hi as int) == fixed_sqrt_spec(v as int),
        decreases hi - lo,
    {
        let mid = lo + (hi - lo) / 2;
        assert(mid == lo as int + (hi as int - lo as int) / 2);
        assert(lo < mid < hi);
        proof {
            lemma_mul_upper_bound(mid as int, SQRT_HI as int, mid as int, SQRT_HI as int);
            assert((SQRT_HI as int) * (SQRT_HI as int)
                == 85_070_591_730_234_615_865_843_651_857_942_052_864int) by (nonlinear_arith);
        }
        if mid * mid <= n {
            lo = mid;
        } else {
            hi = mid;
        }
    }
    lo as i128
}

} // verus!
