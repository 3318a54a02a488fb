//! Arbitrage decision rules over ledger prices.
//!
//! Ledger quantities are wad integers: 10^18 units per whole number. An
//! arbitrageur watches the pool's reported price and a reference price, and
//! trades only when the reference leaves the no-arbitrage band that the
//! pool's fee carves around the reported price.

use vstd::arithmetic::mul::lemma_mul_upper_bound;
use vstd::prelude::*;

verus! {

/// Wad units per whole number.
pub const WAD: u128 = 1_000_000_000_000_000_000;

/// Basis points per whole number.
pub const BASIS_POINT_DIVISOR: u16 = 10_000;

/// Largest price the band arithmetic admits (one hundred whole units).
pub const PRICE_WAD_LIMIT: u128 = 100_000_000_000_000_000_000;

/// Which way an arbitrage trade moves through the pool.
#[derive(Clone, Copy, Debug, PartialEq, Eq, Structural)]
pub enum SwapDirection {
    /// Sell the risky asset to the pool.
    SwapXToY,
    /// Sell the stable asset to the pool.
    SwapYToX,
}

/// The discount factor, in wad units, that doubling a pool's fee leaves of
/// one whole unit: `(1 - 2 * fee) ` for a fee in basis points.
pub fn arbitrage_fee_factor(fee_basis_points: u16) -> (r: u128)
    requires
        2 * fee_basis_points < BASIS_POINT_DIVISOR,
    ensures
        r == (BASIS_POINT_DIVISOR - 2 * fee_basis_points) * (WAD as int) / (
        BASIS_POINT_DIVISOR as int),
{
    ((BASIS_POINT_DIVISOR as u128 - 2 * fee_basis_points as u128) * WAD) / (
    BASIS_POINT_DIVISOR as u128)
}

/// Checks the no-arbitrage bounds: the fee factor widens the reported price
/// into a band `[current * fee / 1, current / fee]`; a reference price
/// outside the band is worth trading toward, in the direction of the price
/// gap, and one inside is not.
pub fn check_no_arb_bounds(current_price: u128, target_price: u128, fee: u128) -> (r: Option<
    SwapDirection,
>)
    requires
        0 < fee <= WAD,
        current_price <= PRICE_WAD_LIMIT,
    ensures
        ({
            let upper_arb_bound = current_price * WAD / (fee as int);
            let lower_arb_bound = current_price * fee / (WAD as int);
            if target_price > upper_arb_bound || target_price < lower_arb_bound {
                if current_price < target_price {
                    r == Some(SwapDirection::SwapXToY)
                } else {
                    r == Some(SwapDirection::SwapYToX)
                }
            } else {
                r is None
            }
        }),
{
    proof {
        lemma_mul_upper_bound(
            current_price as int,
            PRICE_WAD_LIMIT as int,
            fee as int,
            WAD as int,
        );
    }
    let upper_arb_bound = current_price * WAD / fee;
    let lower_arb_bound = current_price * fee / WAD;
    if target_price > upper_arb_bound || target_price < lower_arb_bound {
        if current_price < target_price {
            Some(SwapDirection::SwapXToY)
        } else {
            Some(SwapDirection::SwapYToX)
        }
    } else {
        None
    }
}

/// A pool total divided out into per-liquidity terms: `total * 1 /
/// liquidity` in wad arithmetic.
pub fn per_liquidity_wad(total: u128, liquidity: u128) -> (r: u128)
    requires
        0 < liquidity,
        total * WAD <= u128::MAX,
    ensures
        r == total * WAD / (liquidity as int),
{
    total * WAD / liquidity
}

/// A per-liquidity order amount scaled back up to a pool total:
/// `per_liquidity * liquidity / 1` in wad arithmetic.
pub fn total_from_per_liquidity(per_liquidity: u128, liquidity: u128) -> (r: u128)
    requires
        per_liquidity * liquidity <= u128::MAX,
    ensures
        r == per_liquidity * liquidity / (WAD as int),
{
    per_liquidity * liquidity / WAD
}

/// One step of the swap retry rule: when the ledger refuses an order, its
/// requested output is shaved by a tenth of a percent before trying again.
pub fn shave_order_output(output: u128) -> (r: u128)
    requires
        output * 999 <= u128::MAX,
    ensures
        r == output * 999 / 1000,
        r <= output,
{
    proof {
        vstd::arithmetic::div_mod::lemma_div_is_ordered(
            output * 999,
            output * 1000,
            1000,
        );
        assert(output * 1000 / 1000 == output) by (nonlinear_arith);
    }
    output * 999 / 1000
}

} // verus!
