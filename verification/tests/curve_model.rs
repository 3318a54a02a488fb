//! Tests of the normal-curve trading function and its solvers.

use proto_sim::bisection::RootError;
use proto_sim::fixed::SCALE;
use proto_sim::math::{CurveError, Graphable, NormalCurve, SolveError};

/// The canonical regression state: both reserves at the value whose inverse
/// distribution argument is exactly one half, strike and volatility one,
/// one year remaining.
fn canonical_curve() -> NormalCurve {
    NormalCurve {
        reserve_x_per_wad: 308_537_539,
        reserve_y_per_wad: 308_537_539,
        strike_price_f: SCALE,
        std_dev_f: SCALE,
        time_remaining_sec: 31_556_953 * SCALE,
        invariant_f: 0,
    }
}

#[test]
fn math_trading_function_floating() {
    let k = canonical_curve().clone().trading_function_floating();
    assert_eq!(k, 421);
}

#[test]
fn math_approximate_amount_out() {
    let amount_in = SCALE / 10;
    let sell_asset = true;
    let amount_out = canonical_curve()
        .clone()
        .approximate_amount_out(sell_asset, amount_in)
        .unwrap();
    assert!(amount_out < SCALE); // price should go down...
}

#[test]
fn solvers_match_their_regression_values() {
    let curve = canonical_curve();
    assert_eq!(curve.approximate_y_given_x_floating(), 308_537_385);
    assert_eq!(curve.approximate_x_given_y_floating(), 308_537_540);
    assert_eq!(curve.approximate_amount_out(true, SCALE / 10), Ok(87_529_239));
    assert_eq!(curve.approximate_amount_out(false, SCALE / 10), Ok(87_529_239));
    assert_eq!(curve.approximate_other_reserve(true, curve.reserve_x_per_wad + SCALE / 10), Ok(221_008_300));
}

#[test]
fn unreachable_target_invariant_is_an_invalid_bracket() {
    // an absurdly low stored invariant puts the probed objective above zero
    // across the whole bracket, which the search must report, not mask
    let mut curve = canonical_curve();
    curve.invariant_f = -100_000_000_000_000;
    let r = curve.approximate_other_reserve(true, curve.reserve_x_per_wad);
    assert_eq!(r, Err(SolveError::Search(RootError::InvalidBracket)));
}

#[test]
fn coordinates_hit_the_half_way_point() {
    let points = canonical_curve().get_trading_function_coordinates();
    assert_eq!(points[50], (SCALE / 2, 158_655_330));
}

#[test]
fn trading_function_is_deterministic() {
    let curve = canonical_curve();
    let first = curve.trading_function_floating();
    let second = curve.trading_function_floating();
    assert_eq!(first, second);
}

#[test]
fn amount_out_stays_below_released_reserve() {
    let curve = canonical_curve();
    for amount_in in [SCALE / 100, SCALE / 10, SCALE / 4] {
        let out = curve.approximate_amount_out(true, amount_in).unwrap();
        assert!(out < curve.reserve_y_per_wad);
        let out = curve.approximate_amount_out(false, amount_in).unwrap();
        assert!(out < curve.reserve_x_per_wad);
    }
}

#[test]
fn round_trip_recovers_reserve_x() {
    // y = solveYGivenX(x0), then solveXGivenY on the updated state must
    // come back to x0 within one thousandth
    let base = canonical_curve();
    let mut x0 = SCALE / 20; // 0.05
    while x0 < SCALE * 95 / 100 {
        let mut curve = base;
        curve.reserve_x_per_wad = x0;
        let y0 = curve.approximate_y_given_x_floating();
        curve.reserve_y_per_wad = y0;
        let xr = curve.approximate_x_given_y_floating();
        assert!((xr - x0).abs() <= SCALE / 1000, "x0 {} xr {}", x0, xr);
        x0 += SCALE / 100;
    }
}

#[test]
fn y_given_x_is_decreasing() {
    let base = canonical_curve();
    let mut previous = i128::MAX;
    let mut x = SCALE / 100;
    while x < SCALE {
        let mut curve = base;
        curve.reserve_x_per_wad = x;
        let y = curve.approximate_y_given_x_floating();
        assert!(y <= previous, "y grew at x {}", x);
        previous = y;
        x += SCALE / 100;
    }
}

#[test]
fn boundary_reserves_are_rejected() {
    // a reserve of exactly zero or one whole unit must be refused with an
    // explicit domain error instead of entering the arithmetic
    let c = canonical_curve();
    for x in [0, SCALE] {
        let r = NormalCurve::new(
            x,
            c.reserve_y_per_wad,
            c.strike_price_f,
            c.std_dev_f,
            c.time_remaining_sec,
            0,
        );
        assert_eq!(r, Err(CurveError::ReserveXOutOfRange));
    }
}

#[test]
fn constructor_validates_every_field() {
    let c = canonical_curve();
    let ok = NormalCurve::new(
        c.reserve_x_per_wad,
        c.reserve_y_per_wad,
        c.strike_price_f,
        c.std_dev_f,
        c.time_remaining_sec,
        0,
    );
    assert_eq!(ok, Ok(c));
    let r = NormalCurve::new(c.reserve_x_per_wad, 0, c.strike_price_f, c.std_dev_f, 0, 0);
    assert_eq!(r, Err(CurveError::ReserveYOutOfRange));
    let r = NormalCurve::new(c.reserve_x_per_wad, c.strike_price_f, c.strike_price_f, c.std_dev_f, 0, 0);
    assert_eq!(r, Err(CurveError::ReserveYOutOfRange));
    let r = NormalCurve::new(c.reserve_x_per_wad, c.reserve_y_per_wad, 0, c.std_dev_f, 0, 0);
    assert_eq!(r, Err(CurveError::StrikeOutOfRange));
    let r = NormalCurve::new(c.reserve_x_per_wad, c.reserve_y_per_wad, c.strike_price_f, -1, 0, 0);
    assert_eq!(r, Err(CurveError::VolatilityOutOfRange));
    let r = NormalCurve::new(c.reserve_x_per_wad, c.reserve_y_per_wad, c.strike_price_f, 0, -1, 0);
    assert_eq!(r, Err(CurveError::TimeOutOfRange));
    let r = NormalCurve::new(
        c.reserve_x_per_wad,
        c.reserve_y_per_wad,
        c.strike_price_f,
        0,
        0,
        i128::MAX,
    );
    assert_eq!(r, Err(CurveError::InvariantOutOfRange));
}

#[test]
fn new_from_portfolio_scales_ledger_units() {
    let r = NormalCurve::new_from_portfolio(
        500_000_000_000_000_000,    // 0.5 in wad
        250_000_000_000_000_000,    // 0.25 in wad
        1_000_000_000_000_000_000,  // strike 1.0 in wad
        10_000,                     // volatility 100% in basis points
        31_556_953,                 // one year of seconds
    )
    .unwrap();
    assert_eq!(r.reserve_x_per_wad, SCALE / 2);
    assert_eq!(r.reserve_y_per_wad, SCALE / 4);
    assert_eq!(r.strike_price_f, SCALE);
    assert_eq!(r.std_dev_f, SCALE);
    assert_eq!(r.time_remaining_sec, 31_556_953 * SCALE);
    assert_eq!(r.invariant_f, 0);
}

#[test]
fn out_of_domain_probe_is_rejected() {
    let curve = canonical_curve();
    // selling more than fills the risky reserve to one whole unit
    let r = curve.approximate_amount_out(true, SCALE);
    assert_eq!(r, Err(SolveError::OutOfDomain));
}

#[test]
fn coordinates_sweep_the_unit_interval() {
    let curve = canonical_curve();
    let points = curve.get_trading_function_coordinates();
    assert_eq!(points.len(), 100);
    assert_eq!(points[0].0, 0);
    assert_eq!(points[50].0, SCALE / 2);
    for window in points.windows(2) {
        assert_eq!(window[1].0 - window[0].0, SCALE / 100);
        assert!(window[1].1 <= window[0].1);
    }
}

#[test]
fn graphable_methods_match_solvers() {
    let curve = canonical_curve();
    let mut probe = curve;
    probe.reserve_x_per_wad = SCALE / 2;
    assert_eq!(curve.y_equals(SCALE / 2), probe.approximate_y_given_x_floating());
    let mut probe = curve;
    probe.reserve_y_per_wad = SCALE / 2;
    assert_eq!(curve.x_equals(SCALE / 2), probe.approximate_x_given_y_floating());
    assert_eq!(curve.range_inclusive(), (0, SCALE));
    assert_eq!(curve.domain_inclusive(), (0, curve.strike_price_f));
}
