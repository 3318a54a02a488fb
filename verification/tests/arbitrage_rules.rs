//! Tests of the wad-arithmetic arbitrage decision rules.

use proto_sim::analysis::{Analysis, TradingFunctionSubtype};
use proto_sim::arbitrage::{
    arbitrage_fee_factor, check_no_arb_bounds, per_liquidity_wad, shave_order_output,
    total_from_per_liquidity, SwapDirection, WAD,
};

#[test]
fn fee_factor_discounts_twice_the_fee() {
    // ten basis points of fee leave 99.8% of one whole unit
    assert_eq!(arbitrage_fee_factor(10), 998_000_000_000_000_000);
    assert_eq!(arbitrage_fee_factor(0), WAD);
}

#[test]
fn prices_inside_the_band_do_not_trade() {
    let fee = 998_000_000_000_000_000;
    let current = WAD;
    assert_eq!(check_no_arb_bounds(current, WAD + WAD / 1000, fee), None);
    assert_eq!(check_no_arb_bounds(current, WAD - WAD / 1000, fee), None);
}

#[test]
fn prices_outside_the_band_pick_the_gap_direction() {
    let fee = 998_000_000_000_000_000;
    let current = WAD;
    // reference far above the reported price: the pool's risky asset is
    // cheap, sell it to the pool
    assert_eq!(
        check_no_arb_bounds(current, WAD + WAD / 100, fee),
        Some(SwapDirection::SwapXToY)
    );
    assert_eq!(
        check_no_arb_bounds(current, WAD - WAD / 100, fee),
        Some(SwapDirection::SwapYToX)
    );
}

#[test]
fn per_liquidity_normalizes_pool_totals() {
    // one raw unit of reserve over one raw unit of liquidity is one wad
    assert_eq!(per_liquidity_wad(1, 1), WAD);
    assert_eq!(per_liquidity_wad(3, 2), WAD * 3 / 2);
}

#[test]
fn order_totals_round_trip_per_liquidity() {
    let per_liquidity = 3 * WAD / 2;
    let liquidity = 2 * WAD;
    assert_eq!(total_from_per_liquidity(per_liquidity, liquidity), 3 * WAD);
}

#[test]
fn shaving_an_order_keeps_a_tenth_percent_back() {
    assert_eq!(shave_order_output(1000), 999);
    assert_eq!(shave_order_output(0), 0);
    assert_eq!(shave_order_output(WAD), 999 * WAD / 1000);
}

#[test]
fn error_analysis_is_the_default_subtype() {
    assert_eq!(TradingFunctionSubtype::default(), TradingFunctionSubtype::Error);
    let chosen = Analysis::TradingFunction(TradingFunctionSubtype::Curve);
    assert_eq!(chosen, Analysis::TradingFunction(TradingFunctionSubtype::Curve));
}
