//! Fixed-point standard normal distribution.
//!
//! `cdf` evaluates a rational approximation of the cumulative distribution
//! function of the standard normal distribution, entirely in fixed-point
//! integer arithmetic, and `inverse_cdf` inverts it by binary search. The
//! approximation clamps its argument to `[-CDF_CLAMP, CDF_CLAMP]`; outside
//! that range the true distribution is within one fixed-point unit of 0 or 1,
//! and the approximation saturates exactly.
//!
//! Every executable function returns exactly the value of its spec-level
//! mirror, so callers reason about one deterministic mathematical function.
//! The exported lemmas give the facts callers need: the range of `cdf`, its
//! weak monotonicity, and the sandwich `cdf(inverse_cdf(p)) <= p <=
//! cdf(inverse_cdf(p) + 1)`.

use crate::fixed::{wmul, SCALE};
use vstd::arithmetic::div_mod::{
    lemma_div_is_ordered, lemma_div_is_ordered_by_denominator, lemma_div_pos_is_pos,
};
use vstd::arithmetic::mul::{lemma_mul_nonnegative, lemma_mul_upper_bound};
use vstd::prelude::*;

verus! {

/// Arguments of `cdf` are clamped to this magnitude (eight whole units):
/// beyond it the approximation is exactly saturated at 0 or `SCALE`.
pub const CDF_CLAMP: i128 = 8_000_000_000;

/// Polynomial coefficients of the rational approximation, in fixed-point
/// units: the cumulative distribution at `z >= 0` is
/// `1 - (1 + c1 z + c2 z^2 + ... + c6 z^6)^-16 / 2`.
pub const C1: i128 = 49_867_347;

pub const C2: i128 = 21_141_006;

pub const C3: i128 = 3_277_626;

pub const C4: i128 = 38_004;

pub const C5: i128 = 48_891;

pub const C6: i128 = 5_383;

/// Powers of the argument, each rounded down to the fixed-point scale.
pub open spec fn pow_z2(z: int) -> int {
    wmul(z, z)
}

pub open spec fn pow_z3(z: int) -> int {
    wmul(pow_z2(z), z)
}

pub open spec fn pow_z4(z: int) -> int {
    wmul(pow_z3(z), z)
}

pub open spec fn pow_z5(z: int) -> int {
    wmul(pow_z4(z), z)
}

pub open spec fn pow_z6(z: int) -> int {
    wmul(pow_z5(z), z)
}

/// The polynomial `1 + c1 z + ... + c6 z^6` in fixed-point units, for a
/// clamped nonnegative argument.
pub open spec fn cdf_poly(z: int) -> int {
    SCALE + wmul(C1 as int, z) + wmul(C2 as int, pow_z2(z)) + wmul(C3 as int, pow_z3(z)) + wmul(
        C4 as int,
        pow_z4(z),
    ) + wmul(C5 as int, pow_z5(z)) + wmul(C6 as int, pow_z6(z))
}

/// Reciprocal of the polynomial, in fixed-point units.
pub open spec fn tail_r(z: int) -> int {
    ((SCALE as int) * (SCALE as int)) / cdf_poly(z)
}

pub open spec fn tail_r2(z: int) -> int {
    wmul(tail_r(z), tail_r(z))
}

pub open spec fn tail_r4(z: int) -> int {
    wmul(tail_r2(z), tail_r2(z))
}

pub open spec fn tail_r8(z: int) -> int {
    wmul(tail_r4(z), tail_r4(z))
}

pub open spec fn tail_r16(z: int) -> int {
    wmul(tail_r8(z), tail_r8(z))
}

/// The upper tail mass `1 - cdf(z)` for a clamped argument `z >= 0`: half of
/// the sixteenth power of the polynomial's reciprocal.
pub open spec fn cdf_tail(z: int) -> int {
    tail_r16(z) / 2
}

pub open spec fn clamp_cdf_arg(z: int) -> int {
    if z < -(CDF_CLAMP as int) {
        -(CDF_CLAMP as int)
    } else if z > CDF_CLAMP as int {
        CDF_CLAMP as int
    } else {
        z
    }
}

/// The fixed-point standard normal cumulative distribution.
pub open spec fn cdf_spec(z: int) -> int {
    let zc = clamp_cdf_arg(z);
    if zc >= 0 {
        SCALE - cdf_tail(zc)
    } else {
        cdf_tail(-zc)
    }
}

/// Bounds along the whole evaluation chain of `cdf_tail`, for a clamped
/// nonnegative argument. They discharge the overflow obligations of the
/// executable code and bound the tail by half of one.
pub proof fn lemma_tail_chain(z: int)
    requires
        0 <= z <= CDF_CLAMP,
    ensures
        0 <= pow_z2(z) <= 64_000_000_000,
        0 <= pow_z3(z) <= 512_000_000_000,
        0 <= pow_z4(z) <= 4_096_000_000_000,
        0 <= pow_z5(z) <= 32_768_000_000_000,
        0 <= pow_z6(z) <= 262_144_000_000_000,
        z * z <= 64_000_000_000_000_000_000,
        pow_z2(z) * z <= 512_000_000_000_000_000_000,
        pow_z3(z) * z <= 4_096_000_000_000_000_000_000,
        pow_z4(z) * z <= 32_768_000_000_000_000_000_000,
        pow_z5(z) * z <= 262_144_000_000_000_000_000_000,
        (C1 as int) * z <= 398_938_776_000_000_000,
        (C2 as int) * pow_z2(z) <= 1_353_024_384_000_000_000_000,
        (C3 as int) * pow_z3(z) <= 1_678_144_512_000_000_000_000,
        (C4 as int) * pow_z4(z) <= 155_664_384_000_000_000_000,
        (C5 as int) * pow_z5(z) <= 1_602_060_288_000_000_000_000,
        (C6 as int) * pow_z6(z) <= 1_411_121_152_000_000_000_000,
        SCALE <= cdf_poly(z) <= 8_000_000_000,
        0 <= tail_r(z) <= SCALE,
        tail_r(z) * tail_r(z) <= 1_000_000_000_000_000_000,
        0 <= tail_r2(z) <= SCALE,
        tail_r2(z) * tail_r2(z) <= 1_000_000_000_000_000_000,
        0 <= tail_r4(z) <= SCALE,
        tail_r4(z) * tail_r4(z) <= 1_000_000_000_000_000_000,
        0 <= tail_r8(z) <= SCALE,
        tail_r8(z) * tail_r8(z) <= 1_000_000_000_000_000_000,
        0 <= tail_r16(z) <= SCALE,
        0 <= cdf_tail(z) <= 500_000_000,
{
    let s = SCALE as int;
    lemma_mul_nonnegative(z, z);
    lemma_mul_upper_bound(z, CDF_CLAMP as int, z, CDF_CLAMP as int);
    lemma_div_pos_is_pos(z * z, s);
    lemma_div_is_ordered(z * z, 64_000_000_000_000_000_000, s);
    lemma_mul_nonnegative(pow_z2(z), z);
    lemma_mul_upper_bound(pow_z2(z), 64_000_000_000, z, CDF_CLAMP as int);
    lemma_div_pos_is_pos(pow_z2(z) * z, s);
    lemma_div_is_ordered(pow_z2(z) * z, 512_000_000_000_000_000_000, s);
    lemma_mul_nonnegative(pow_z3(z), z);
    lemma_mul_upper_bound(pow_z3(z), 512_000_000_000, z, CDF_CLAMP as int);
    lemma_div_pos_is_pos(pow_z3(z) * z, s);
    lemma_div_is_ordered(pow_z3(z) * z, 4_096_000_000_000_000_000_000, s);
    lemma_mul_nonnegative(pow_z4(z), z);
    lemma_mul_upper_bound(pow_z4(z), 4_096_000_000_000, z, CDF_CLAMP as int);
    lemma_div_pos_is_pos(pow_z4(z) * z, s);
    lemma_div_is_ordered(pow_z4(z) * z, 32_768_000_000_000_000_000_000, s);
    lemma_mul_nonnegative(pow_z5(z), z);
    lemma_mul_upper_bound(pow_z5(z), 32_768_000_000_000, z, CDF_CLAMP as int);
    lemma_div_pos_is_pos(pow_z5(z) * z, s);
    lemma_div_is_ordered(pow_z5(z) * z, 262_144_000_000_000_000_000_000, s);

    lemma_mul_nonnegative(C1 as int, z);
    lemma_mul_upper_bound(C1 as int, C1 as int, z, CDF_CLAMP as int);
    lemma_div_pos_is_pos((C1 as int) * z, s);
    lemma_div_is_ordered((C1 as int) * z, 398_938_776_000_000_000, s);
    lemma_mul_nonnegative(C2 as int, pow_z2(z));
    lemma_mul_upper_bound(C2 as int, C2 as int, pow_z2(z), 64_000_000_000);
    lemma_div_pos_is_pos((C2 as int) * pow_z2(z), s);
    lemma_div_is_ordered((C2 as int) * pow_z2(z), 1_353_024_384_000_000_000_000, s);
    lemma_mul_nonnegative(C3 as int, pow_z3(z));
    lemma_mul_upper_bound(C3 as int, C3 as int, pow_z3(z), 512_000_000_000);
    lemma_div_pos_is_pos((C3 as int) * pow_z3(z), s);
    lemma_div_is_ordered((C3 as int) * pow_z3(z), 1_678_144_512_000_000_000_000, s);
    lemma_mul_nonnegative(C4 as int, pow_z4(z));
    lemma_mul_upper_bound(C4 as int, C4 as int, pow_z4(z), 4_096_000_000_000);
    lemma_div_pos_is_pos((C4 as int) * pow_z4(z), s);
    lemma_div_is_ordered((C4 as int) * pow_z4(z), 155_664_384_000_000_000_000, s);
    lemma_mul_nonnegative(C5 as int, pow_z5(z));
    lemma_mul_upper_bound(C5 as int, C5 as int, pow_z5(z), 32_768_000_000_000);
    lemma_div_pos_is_pos((C5 as int) * pow_z5(z), s);
    lemma_div_is_ordered((C5 as int) * pow_z5(z), 1_602_060_288_000_000_000_000, s);
    lemma_mul_nonnegative(C6 as int, pow_z6(z));
    lemma_mul_upper_bound(C6 as int, C6 as int, pow_z6(z), 262_144_000_000_000);
    lemma_div_pos_is_pos((C6 as int) * pow_z6(z), s);
    lemma_div_is_ordered((C6 as int) * pow_z6(z), 1_411_121_152_000_000_000_000, s);

    let p = cdf_poly(z);
    assert(SCALE <= p <= 8_000_000_000);
    lemma_div_pos_is_pos(s * s, p);
    lemma_div_is_ordered_by_denominator(s * s, s, p);
    assert(tail_r(z) <= s * s / s);
    assert(s * s == 1_000_000_000_000_000_000int);
    assert(s * s / s == s);

    lemma_mul_nonnegative(tail_r(z), tail_r(z));
    lemma_mul_upper_bound(tail_r(z), s, tail_r(z), s);
    lemma_div_pos_is_pos(tail_r(z) * tail_r(z), s);
    lemma_div_is_ordered(tail_r(z) * tail_r(z), s * s, s);
    lemma_mul_nonnegative(tail_r2(z), tail_r2(z));
    lemma_mul_upper_bound(tail_r2(z), s, tail_r2(z), s);
    lemma_div_pos_is_pos(tail_r2(z) * tail_r2(z), s);
    lemma_div_is_ordered(tail_r2(z) * tail_r2(z), s * s, s);
    lemma_mul_nonnegative(tail_r4(z), tail_r4(z));
    lemma_mul_upper_bound(tail_r4(z), s, tail_r4(z), s);
    lemma_div_pos_is_pos(tail_r4(z) * tail_r4(z), s);
    lemma_div_is_ordered(tail_r4(z) * tail_r4(z), s * s, s);
    lemma_mul_nonnegative(tail_r8(z), tail_r8(z));
    lemma_mul_upper_bound(tail_r8(z), s, tail_r8(z), s);
    lemma_div_pos_is_pos(tail_r8(z) * tail_r8(z), s);
    lemma_div_is_ordered(tail_r8(z) * tail_r8(z), s * s, s);
    lemma_div_pos_is_pos(tail_r16(z), 2);
    lemma_div_is_ordered(tail_r16(z), s, 2);
}

/// The polynomial is monotone on the clamped nonnegative range: every
/// coefficient is positive and the powers are monotone.
proof fn lemma_poly_mono(z1: int, z2: int)
    requires
        0 <= z1 <= z2 <= CDF_CLAMP,
    ensures
        cdf_poly(z1) <= cdf_poly(z2),
{
    crate::fixed::lemma_wmul_mono(z1, z2, z1, z2);
    crate::fixed::lemma_wmul_mono(pow_z2(z1), pow_z2(z2), z1, z2);
    crate::fixed::lemma_wmul_mono(pow_z3(z1), pow_z3(z2), z1, z2);
    crate::fixed::lemma_wmul_mono(pow_z4(z1), pow_z4(z2), z1, z2);
    crate::fixed::lemma_wmul_mono(pow_z5(z1), pow_z5(z2), z1, z2);
    crate::fixed::lemma_wmul_mono(C1 as int, C1 as int, z1, z2);
    crate::fixed::lemma_wmul_mono(C2 as int, C2 as int, pow_z2(z1), pow_z2(z2));
    crate::fixed::lemma_wmul_mono(C3 as int, C3 as int, pow_z3(z1), pow_z3(z2));
    crate::fixed::lemma_wmul_mono(C4 as int, C4 as int, pow_z4(z1), pow_z4(z2));
    crate::fixed::lemma_wmul_mono(C5 as int, C5 as int, pow_z5(z1), pow_z5(z2));
    crate::fixed::lemma_wmul_mono(C6 as int, C6 as int, pow_z6(z1), pow_z6(z2));
}

/// The tail mass is antitone on the clamped nonnegative range.
proof fn lemma_tail_anti(z1: int, z2: int)
    requires
        0 <= z1 <= z2 <= CDF_CLAMP,
    ensures
        cdf_tail(z2) <= cdf_tail(z1),
{
    let s = SCALE as int;
    lemma_tail_chain(z1);
    lemma_tail_chain(z2);
    lemma_poly_mono(z1, z2);
    lemma_mul_nonnegative(s, s);
    lemma_div_is_ordered_by_denominator(s * s, cdf_poly(z1), cdf_poly(z2));
    crate::fixed::lemma_wmul_mono(tail_r(z2), tail_r(z1), tail_r(z2), tail_r(z1));
    crate::fixed::lemma_wmul_mono(tail_r2(z2), tail_r2(z1), tail_r2(z2), tail_r2(z1));
    crate::fixed::lemma_wmul_mono(tail_r4(z2), tail_r4(z1), tail_r4(z2), tail_r4(z1));
    crate::fixed::lemma_wmul_mono(tail_r8(z2), tail_r8(z1), tail_r8(z2), tail_r8(z1));
    lemma_div_is_ordered(tail_r16(z2), tail_r16(z1), 2);
}

/// The fixed-point cumulative distribution lies between 0 and `SCALE`.
pub proof fn lemma_cdf_range(z: int)
    ensures
        0 <= cdf_spec(z) <= SCALE,
{
    let zc = clamp_cdf_arg(z);
    if zc >= 0 {
        lemma_tail_chain(zc);
    } else {
        lemma_tail_chain(-zc);
    }
}

/// The fixed-point cumulative distribution is weakly monotone.
pub proof fn lemma_cdf_mono(z1: int, z2: int)
    requires
        z1 <= z2,
    ensures
        cdf_spec(z1) <= cdf_spec(z2),
{
    let c1 = clamp_cdf_arg(z1);
    let c2 = clamp_cdf_arg(z2);
    assert(c1 <= c2);
    if c1 >= 0 {
        lemma_tail_anti(c1, c2);
    } else if c2 < 0 {
        lemma_tail_anti(-c2, -c1);
    } else {
        lemma_tail_chain(-c1);
        lemma_tail_chain(c2);
    }
}

/// Beyond the clamp the approximation is exactly saturated: the tail mass at
/// the clamp underflows the fixed-point resolution to zero.
pub proof fn lemma_cdf_saturates()
    ensures
        cdf_spec(-(CDF_CLAMP as int)) == 0,
        cdf_spec(CDF_CLAMP as int) == SCALE,
        forall|z: int| z <= -(CDF_CLAMP as int) ==> cdf_spec(z) == 0,
        forall|z: int| z >= CDF_CLAMP as int ==> cdf_spec(z) == SCALE,
{
    let cl = CDF_CLAMP as int;
    assert(pow_z2(cl) == 64_000_000_000);
    assert(pow_z3(cl) == 512_000_000_000);
    assert(pow_z4(cl) == 4_096_000_000_000);
    assert(pow_z5(cl) == 32_768_000_000_000);
    assert(pow_z6(cl) == 262_144_000_000_000);
    assert(wmul(C1 as int, cl) == 398_938_776);
    assert(wmul(C2 as int, pow_z2(cl)) == 1_353_024_384);
    assert(wmul(C3 as int, pow_z3(cl)) == 1_678_144_512);
    assert(wmul(C4 as int, pow_z4(cl)) == 155_664_384);
    assert(wmul(C5 as int, pow_z5(cl)) == 1_602_060_288);
    assert(wmul(C6 as int, pow_z6(cl)) == 1_411_121_152);
    assert(cdf_poly(cl) == 7_598_953_496);
    assert(tail_r(cl) == 131_597_068);
    assert(tail_r2(cl) == 17_317_788);
    assert(tail_r4(cl) == 299_905);
    assert(tail_r8(cl) == 89);
    assert(tail_r16(cl) == 0);
    assert(cdf_tail(cl) == 0);
}

/// The polynomial climbs by at most 8 units from one fixed-point argument to
/// the next: each monomial's slope, scaled by its coefficient, is within one
/// unit or two.
proof fn lemma_poly_step(z: int)
    requires
        0 <= z,
        z + 1 <= CDF_CLAMP,
    ensures
        0 <= cdf_poly(z + 1) - cdf_poly(z) <= 8,
{
    let s = SCALE as int;
    lemma_tail_chain(z);
    lemma_tail_chain(z + 1);
    lemma_poly_mono(z, z + 1);
    let z2 = pow_z2(z);
    let z3 = pow_z3(z);
    let z4 = pow_z4(z);
    let z5 = pow_z5(z);
    let z6 = pow_z6(z);
    let z2p = pow_z2(z + 1);
    let z3p = pow_z3(z + 1);
    let z4p = pow_z4(z + 1);
    let z5p = pow_z5(z + 1);
    let z6p = pow_z6(z + 1);

    assert((z + 1) * (z + 1) - z * z == 2 * z + 1 && z * z <= (z + 1) * (z + 1)) by (nonlinear_arith)
        requires
            0 <= z,
    ;
    crate::fixed::lemma_div_step_bound((z + 1) * (z + 1), z * z, s);
    lemma_div_is_ordered(2 * z + 1, 15_999_999_999, s);
    assert(z2p - z2 <= 16);
    crate::fixed::lemma_wmul_mono(z, z, z, z + 1);
    assert(z2 <= z2p);

    assert(z2 * z <= z2p * (z + 1) && z2p * (z + 1) - z2 * z <= 16 * z + z2p) by (nonlinear_arith)
        requires
            0 <= z,
            0 <= z2 <= z2p,
            z2p - z2 <= 16,
    ;
    crate::fixed::lemma_div_step_bound(z2p * (z + 1), z2 * z, s);
    lemma_div_is_ordered(z2p * (z + 1) - z2 * z, 191_999_999_984, s);
    assert(z3p - z3 <= 192);
    assert(z3 <= z3p);

    assert(z3 * z <= z3p * (z + 1) && z3p * (z + 1) - z3 * z <= 192 * z + z3p) by (nonlinear_arith)
        requires
            0 <= z,
            0 <= z3 <= z3p,
            z3p - z3 <= 192,
    ;
    crate::fixed::lemma_div_step_bound(z3p * (z + 1), z3 * z, s);
    lemma_div_is_ordered(z3p * (z + 1) - z3 * z, 2_047_999_999_808, s);
    assert(z4p - z4 <= 2048);
    assert(z4 <= z4p);

    assert(z4 * z <= z4p * (z + 1) && z4p * (z + 1) - z4 * z <= 2048 * z + z4p) by (nonlinear_arith)
        requires
            0 <= z,
            0 <= z4 <= z4p,
            z4p - z4 <= 2048,
    ;
    crate::fixed::lemma_div_step_bound(z4p * (z + 1), z4 * z, s);
    lemma_div_is_ordered(z4p * (z + 1) - z4 * z, 20_479_999_997_952, s);
    assert(z5p - z5 <= 20480);
    assert(z5 <= z5p);

    assert(z5 * z <= z5p * (z + 1) && z5p * (z + 1) - z5 * z <= 20480 * z + z5p) by (nonlinear_arith)
        requires
            0 <= z,
            0 <= z5 <= z5p,
            z5p - z5 <= 20480,
    ;
    crate::fixed::lemma_div_step_bound(z5p * (z + 1), z5 * z, s);
    lemma_div_is_ordered(z5p * (z + 1) - z5 * z, 196_607_999_979_520, s);
    assert(z6p - z6 <= 196608);
    assert(z6 <= z6p);

    assert((C1 as int) * (z + 1) - (C1 as int) * z == C1) by (nonlinear_arith);
    crate::fixed::lemma_div_step_bound((C1 as int) * (z + 1), (C1 as int) * z, s);
    assert(wmul(C1 as int, z + 1) - wmul(C1 as int, z) <= 1);

    assert((C2 as int) * z2 <= (C2 as int) * z2p && (C2 as int) * z2p - (C2 as int) * z2 <= (
    C2 as int) * 16) by (nonlinear_arith)
        requires
            0 <= z2 <= z2p,
            z2p - z2 <= 16,
    ;
    crate::fixed::lemma_div_step_bound((C2 as int) * z2p, (C2 as int) * z2, s);
    lemma_div_is_ordered((C2 as int) * z2p - (C2 as int) * z2, 338_256_096, s);
    assert(wmul(C2 as int, z2p) - wmul(C2 as int, z2) <= 1);

    assert((C3 as int) * z3 <= (C3 as int) * z3p && (C3 as int) * z3p - (C3 as int) * z3 <= (
    C3 as int) * 192) by (nonlinear_arith)
        requires
            0 <= z3 <= z3p,
            z3p - z3 <= 192,
    ;
    crate::fixed::lemma_div_step_bound((C3 as int) * z3p, (C3 as int) * z3, s);
    lemma_div_is_ordered((C3 as int) * z3p - (C3 as int) * z3, 629_304_192, s);
    assert(wmul(C3 as int, z3p) - wmul(C3 as int, z3) <= 1);

    assert((C4 as int) * z4 <= (C4 as int) * z4p && (C4 as int) * z4p - (C4 as int) * z4 <= (
    C4 as int) * 2048) by (nonlinear_arith)
        requires
            0 <= z4 <= z4p,
            z4p - z4 <= 2048,
    ;
    crate::fixed::lemma_div_step_bound((C4 as int) * z4p, (C4 as int) * z4, s);
    lemma_div_is_ordered((C4 as int) * z4p - (C4 as int) * z4, 77_832_192, s);
    assert(wmul(C4 as int, z4p) - wmul(C4 as int, z4) <= 1);

    assert((C5 as int) * z5 <= (C5 as int) * z5p && (C5 as int) * z5p - (C5 as int) * z5 <= (
    C5 as int) * 20480) by (nonlinear_arith)
        requires
            0 <= z5 <= z5p,
            z5p - z5 <= 20480,
    ;
    crate::fixed::lemma_div_step_bound((C5 as int) * z5p, (C5 as int) * z5, s);
    lemma_div_is_ordered((C5 as int) * z5p - (C5 as int) * z5, 1_001_287_680, s);
    assert(wmul(C5 as int, z5p) - wmul(C5 as int, z5) <= 2);

    assert((C6 as int) * z6 <= (C6 as int) * z6p && (C6 as int) * z6p - (C6 as int) * z6 <= (
    C6 as int) * 196608) by (nonlinear_arith)
        requires
            0 <= z6 <= z6p,
            z6p - z6 <= 196608,
    ;
    crate::fixed::lemma_div_step_bound((C6 as int) * z6p, (C6 as int) * z6, s);
    lemma_div_is_ordered((C6 as int) * z6p - (C6 as int) * z6, 1_058_340_864, s);
    assert(wmul(C6 as int, z6p) - wmul(C6 as int, z6) <= 2);
}

/// The tail mass falls by at most 80 units from one fixed-point argument to
/// the next: an 8-unit climb of the polynomial moves its reciprocal by at
/// most 9 units, and the four squarings and the halving dilute that into 80.
proof fn lemma_tail_step(z: int)
    requires
        0 <= z,
        z + 1 <= CDF_CLAMP,
    ensures
        0 <= cdf_tail(z) - cdf_tail(z + 1) <= 80,
{
    let s = SCALE as int;
    lemma_tail_chain(z);
    lemma_tail_chain(z + 1);
    lemma_poly_step(z);
    let p = cdf_poly(z);
    let pp = cdf_poly(z + 1);
    let r = tail_r(z);
    let rp = tail_r(z + 1);

    lemma_mul_nonnegative(s, s);
    lemma_div_is_ordered_by_denominator(s * s, p, pp);
    assert(rp <= r);
    crate::fixed::lemma_div_denominator_step(s * s, p, pp);
    assert(s * s == 1_000_000_000_000_000_000int);
    assert((s * s) * (pp - p) <= 8_000_000_000_000_000_000int);
    assert(p * pp >= 1_000_000_000_000_000_000int) by (nonlinear_arith)
        requires
            p >= 1_000_000_000,
            pp >= 1_000_000_000,
    ;
    lemma_mul_nonnegative(s * s, pp - p);
    lemma_div_is_ordered((s * s) * (pp - p), 8_000_000_000_000_000_000int, p * pp);
    lemma_div_is_ordered_by_denominator(
        8_000_000_000_000_000_000int,
        1_000_000_000_000_000_000int,
        p * pp,
    );
    assert(r - rp <= 9);

    assert(rp * rp <= r * r && r * r - rp * rp <= 18_000_000_000int) by (nonlinear_arith)
        requires
            0 <= rp <= r <= 1_000_000_000,
            r - rp <= 9,
    ;
    crate::fixed::lemma_div_step_bound(r * r, rp * rp, s);
    lemma_div_is_ordered(r * r - rp * rp, 18_000_000_000int, s);
    let r2 = tail_r2(z);
    let r2p = tail_r2(z + 1);
    assert(r2p <= r2 && r2 - r2p <= 19);

    assert(r2p * r2p <= r2 * r2 && r2 * r2 - r2p * r2p <= 38_000_000_000int) by (nonlinear_arith)
        requires
            0 <= r2p <= r2 <= 1_000_000_000,
            r2 - r2p <= 19,
    ;
    crate::fixed::lemma_div_step_bound(r2 * r2, r2p * r2p, s);
    lemma_div_is_ordered(r2 * r2 - r2p * r2p, 38_000_000_000int, s);
    let r4 = tail_r4(z);
    let r4p = tail_r4(z + 1);
    assert(r4p <= r4 && r4 - r4p <= 39);

    assert(r4p * r4p <= r4 * r4 && r4 * r4 - r4p * r4p <= 78_000_000_000int) by (nonlinear_arith)
        requires
            0 <= r4p <= r4 <= 1_000_000_000,
            r4 - r4p <= 39,
    ;
    crate::fixed::lemma_div_step_bound(r4 * r4, r4p * r4p, s);
    lemma_div_is_ordered(r4 * r4 - r4p * r4p, 78_000_000_000int, s);
    let r8 = tail_r8(z);
    let r8p = tail_r8(z + 1);
    assert(r8p <= r8 && r8 - r8p <= 79);

    assert(r8p * r8p <= r8 * r8 && r8 * r8 - r8p * r8p <= 158_000_000_000int) by (nonlinear_arith)
        requires
            0 <= r8p <= r8 <= 1_000_000_000,
            r8 - r8p <= 79,
    ;
    crate::fixed::lemma_div_step_bound(r8 * r8, r8p * r8p, s);
    lemma_div_is_ordered(r8 * r8 - r8p * r8p, 158_000_000_000int, s);
    let r16 = tail_r16(z);
    let r16p = tail_r16(z + 1);
    assert(r16p <= r16 && r16 - r16p <= 159);

    crate::fixed::lemma_div_step_bound(r16, r16p, 2);
    lemma_div_is_ordered(r16 - r16p, 159, 2);
    lemma_div_is_ordered(r16p, r16, 2);
}

/// At zero the tail is exactly one half: the polynomial is exactly one
/// there, and so is each power of its reciprocal.
proof fn lemma_tail_at_zero()
    ensures
        cdf_tail(0) == 500_000_000,
{
    assert(cdf_poly(0) == SCALE);
    assert(tail_r(0) == SCALE);
    assert(tail_r2(0) == SCALE);
    assert(tail_r4(0) == SCALE);
    assert(tail_r8(0) == SCALE);
    assert(tail_r16(0) == SCALE);
}

/// The cumulative distribution climbs by at most 80 units (eight hundredths
/// of a millionth) from one fixed-point argument to the next.
pub proof fn lemma_cdf_step(z: int)
    ensures
        0 <= cdf_spec(z + 1) - cdf_spec(z) <= 80,
{
    let cl = CDF_CLAMP as int;
    lemma_cdf_mono(z, z + 1);
    if z >= cl || z + 1 <= -cl {
        assert(cdf_spec(z + 1) == cdf_spec(z));
    } else if z + 1 == 0 {
        lemma_tail_at_zero();
        lemma_tail_step(0);
        assert(cdf_spec(z) == cdf_tail(1));
        assert(cdf_spec(z + 1) == SCALE - cdf_tail(0));
    } else if z >= 0 {
        lemma_tail_step(z);
    } else {
        lemma_tail_step(-(z + 1));
        assert(cdf_spec(z) == cdf_tail(-z));
        assert(cdf_spec(z + 1) == cdf_tail(-(z + 1)));
    }
}

/// Binary search over the bracket `[lo, hi)` for the last argument at which
/// the cumulative distribution still lies at or below `p`.
pub open spec fn inv_search(p: int, lo: int, hi: int) -> int
    decreases hi - lo,
{
    if hi - lo <= 1 {
        lo
    } else {
        let mid = lo + (hi - lo) / 2;
        if cdf_spec(mid) <= p {
            inv_search(p, mid, hi)
        } else {
            inv_search(p, lo, mid)
        }
    }
}

/// The fixed-point inverse of the cumulative distribution.
pub open spec fn inv_cdf_spec(p: int) -> int {
    inv_search(p, -(CDF_CLAMP as int), CDF_CLAMP as int)
}

proof fn lemma_inv_search_range(p: int, lo: int, hi: int)
    requires
        lo < hi,
    ensures
        lo <= inv_search(p, lo, hi) < hi,
    decreases hi - lo,
{
    if hi - lo > 1 {
        let mid = lo + (hi - lo) / 2;
        assert(lo < mid < hi);
        if cdf_spec(mid) <= p {
            lemma_inv_search_range(p, mid, hi);
        } else {
            lemma_inv_search_range(p, lo, mid);
        }
    }
}

proof fn lemma_inv_search_sandwich(p: int, lo: int, hi: int)
    requires
        lo < hi,
        cdf_spec(lo) <= p,
        p <= cdf_spec(hi),
    ensures
        cdf_spec(inv_search(p, lo, hi)) <= p,
        p <= cdf_spec(inv_search(p, lo, hi) + 1),
    decreases hi - lo,
{
    lemma_inv_search_range(p, lo, hi);
    if hi - lo > 1 {
        let mid = lo + (hi - lo) / 2;
        assert(lo < mid < hi);
        if cdf_spec(mid) <= p {
            lemma_inv_search_sandwich(p, mid, hi);
        } else {
            lemma_inv_search_sandwich(p, lo, mid);
        }
    }
}

proof fn lemma_inv_search_mono(p1: int, p2: int, lo: int, hi: int)
    requires
        lo < hi,
        p1 <= p2,
    ensures
        inv_search(p1, lo, hi) <= inv_search(p2, lo, hi),
    decreases hi - lo,
{
    if hi - lo > 1 {
        let mid = lo + (hi - lo) / 2;
        assert(lo < mid < hi);
        if cdf_spec(mid) <= p1 {
            lemma_inv_search_mono(p1, p2, mid, hi);
        } else if cdf_spec(mid) > p2 {
            lemma_inv_search_mono(p1, p2, lo, mid);
        } else {
            lemma_inv_search_range(p1, lo, mid);
            lemma_inv_search_range(p2, mid, hi);
        }
    }
}

/// The inverse lands inside the clamp and sandwiches its argument between
/// the cumulative distribution at the result and at the next unit.
pub proof fn lemma_inv_cdf_bounds(p: int)
    requires
        0 <= p <= SCALE,
    ensures
        -(CDF_CLAMP as int) <= inv_cdf_spec(p) < CDF_CLAMP as int,
        cdf_spec(inv_cdf_spec(p)) <= p,
        p <= cdf_spec(inv_cdf_spec(p) + 1),
{
    lemma_cdf_saturates();
    lemma_inv_search_range(p, -(CDF_CLAMP as int), CDF_CLAMP as int);
    lemma_inv_search_sandwich(p, -(CDF_CLAMP as int), CDF_CLAMP as int);
}

/// The fixed-point inverse is weakly monotone in its argument.
pub proof fn lemma_inv_cdf_mono(p1: int, p2: int)
    requires
        p1 <= p2,
    ensures
        inv_cdf_spec(p1) <= inv_cdf_spec(p2),
{
    lemma_inv_search_mono(p1, p2, -(CDF_CLAMP as int), CDF_CLAMP as int);
}

/// Evaluates the tail mass for a clamped nonnegative argument.
fn cdf_tail_exec(z: i128) -> (r: i128)
    requires
        0 <= z <= CDF_CLAMP,
    ensures
        r == cdf_tail(z as int),
        0 <= r <= 500_000_000,
{
    proof {
        lemma_tail_chain(z as int);
    }
    let zu = z as u128;
    let su = SCALE as u128;
    let z2 = zu * zu / su;
    let z3 = z2 * zu / su;
    let z4 = z3 * zu / su;
    let z5 = z4 * zu / su;
    let z6 = z5 * zu / su;
    let p = su + (C1 as u128) * zu / su + (C2 as u128) * z2 / su + (C3 as u128) * z3 / su + (
    C4 as u128) * z4 / su + (C5 as u128) * z5 / su + (C6 as u128) * z6 / su;
    let r1 = su * su / p;
    let r2 = r1 * r1 / su;
    let r4 = r2 * r2 / su;
    let r8 = r4 * r4 / su;
    let r16 = r8 * r8 / su;
    (r16 / 2) as i128
}

/// Evaluates the fixed-point standard normal cumulative distribution; the
/// result is exactly `cdf_spec` of the argument.
pub fn cdf(z: i128) -> (r: i128)
    ensures
        r == cdf_spec(z as int),
        0 <= r <= SCALE,
{
    let zc: i128 = if z < -CDF_CLAMP {
        -CDF_CLAMP
    } else if z > CDF_CLAMP {
        CDF_CLAMP
    } else {
        z
    };
    if zc >= 0 {
        let t = cdf_tail_exec(zc);
        SCALE - t
    } else {
        cdf_tail_exec(-zc)
    }
}

/// Inverts the fixed-point cumulative distribution by binary search: the
/// result is the largest clamped argument whose cumulative distribution does
/// not exceed `p`, and equals `inv_cdf_spec(p)` exactly.
pub fn inverse_cdf(p: i128) -> (r: i128)
    requires
        0 <= p <= SCALE,
    ensures
        r == inv_cdf_spec(p as int),
        -CDF_CLAMP <= r < CDF_CLAMP,
        cdf_spec(r as int) <= p,
        p <= cdf_spec(r as int + 1),
{
    proof {
        lemma_cdf_saturates();
        lemma_inv_cdf_bounds(p as int);
    }
    let mut lo: i128 = -CDF_CLAMP;
    let mut hi: i128 = CDF_CLAMP;
    while hi - lo > 1
        invariant
            -CDF_CLAMP <= lo < hi <= CDF_CLAMP,
            0 <= p <= SCALE,
            cdf_spec(lo as int) <= p as int,
            p as int <= cdf_spec(hi as int),
            inv_search(p as int, lo as int, hi as int) == inv_cdf_spec(p as int),
        decreases hi - lo,
    {
        let mid: i128 = lo + (((hi - lo) as u128 / 2) as i128);
        assert(mid == lo as int + (hi as int - lo as int) / 2);
        assert(lo < mid < hi);
        let c = cdf(mid);
        if c <= p {
            lo = mid;
        } else {
            hi = mid;
        }
    }
    lo
}

} // verus!
