//! Tests of the bisection root finder.

use proto_sim::bisection::{Bisection, CubicPoly, RootError};
use proto_sim::fixed::SCALE;

/// The polynomial `x^3 - x^2 + 2` in fixed-point arithmetic.
fn cubic() -> CubicPoly {
    CubicPoly { a3: SCALE, a2: -SCALE, a1: 0, a0: 2 * SCALE }
}

#[test]
fn find_root() {
    // basic polynomial function
    let fx = cubic();
    let bisection = Bisection::new(-200 * SCALE, 300 * SCALE, 100_000, 1000);
    let root = bisection.bisection(&fx).unwrap();
    assert!((root - -SCALE).abs() < 100_000); // about 1, but fixed-point error!
}

#[test]
fn bisection_rejects_same_sign_bracket() {
    // the cubic is positive on all of [1, 2]: no root is bracketed
    let fx = cubic();
    let bisection = Bisection::new(SCALE, 2 * SCALE, 100_000, 1000);
    assert_eq!(bisection.bisection(&fx), Err(RootError::InvalidBracket));
}

#[test]
fn bisection_reports_exhausted_budget() {
    // one halving of a 500-wide bracket cannot reach a tolerance of 1
    let fx = cubic();
    let bisection = Bisection::new(-200 * SCALE, 300 * SCALE, 1, 1);
    assert_eq!(bisection.bisection(&fx), Err(RootError::NoConvergence));
}

#[test]
fn bisection_degenerate_bracket_returns_midpoint() {
    // the bracket is already within the tolerance: no iteration runs and
    // the result is the bracket midpoint
    let fx = cubic();
    let bisection = Bisection::new(-10 * SCALE, 10 * SCALE, 30 * SCALE, 1000);
    assert_eq!(bisection.bisection(&fx), Ok(0));
}
