//! Normal-distribution trading function of an automated market maker.
//!
//! A pool holds a risky reserve `x` (normalized per unit of liquidity into
//! `[0, 1]`) and a stable reserve `y` (in `[0, K]` for a strike price `K`).
//! The trading function ties them together through the standard normal
//! cumulative distribution `N` and its inverse:
//!
//! `k = N^-1(y / K) - N^-1(1 - x) + sigma * sqrt(tau / secondsPerYear)`
//!
//! where `k` is the pool's invariant, `sigma` its volatility and `tau` the
//! time remaining. Solving for `y` at `k = 0` has the closed form
//! `y = K * N(N^-1(1 - x) - sigma * sqrt(tau))`; solving for `x`, and
//! probing how one reserve must move when the other is traded, go through
//! the same formulas and, for trades, a bisection search.
//!
//! All quantities are fixed-point numbers at `SCALE` units per whole number,
//! and every public function returns exactly the value of its spec-level
//! mirror, built from the deterministic fixed-point `cdf_spec`,
//! `inv_cdf_spec` and `fixed_sqrt_spec`.
//!
//! Out-of-domain inputs are rejected with an explicit error instead of being
//! propagated: a reserve `x` of exactly 0 or 1 (where the inverse
//! distribution diverges) never enters the arithmetic.

use crate::bisection::{bisect_spec, Bisection, RootError, RootFn};
use crate::fixed::{
    fixed_div, fixed_mul, fixed_sqrt, fixed_sqrt_spec, lemma_wdiv_mono_num, lemma_wmul_mono, wdiv,
    wmul, SCALE, SQRT_HI, SQRT_INPUT_LIMIT,
};
use crate::normal::{
    cdf, cdf_spec, inv_cdf_spec, inverse_cdf, lemma_cdf_mono, lemma_cdf_range, lemma_inv_cdf_bounds,
    lemma_inv_cdf_mono, CDF_CLAMP,
};
use vstd::arithmetic::mul::{lemma_mul_inequality, lemma_mul_upper_bound};
use vstd::prelude::*;

verus! {

/// Amount of seconds per year used by the trading function.
pub const SECONDS_PER_YEAR: i128 = 31_556_953;

/// One year in fixed-point seconds.
pub const SECONDS_PER_YEAR_FIXED: i128 = SECONDS_PER_YEAR * SCALE;

/// Largest strike price the arithmetic admits (one billion whole units).
pub const STRIKE_LIMIT: i128 = 1_000_000_000_000_000_000;

/// Largest annualized volatility the arithmetic admits (one thousand whole
/// units).
pub const VOLATILITY_LIMIT: i128 = 1_000_000_000_000;

/// Largest time to expiry the arithmetic admits, in fixed-point seconds
/// (about 126 years).
pub const TIME_LIMIT: i128 = 4_000_000_000_000_000_000;

/// Bound on the vol-time scalar `sigma * sqrt(tau / secondsPerYear)` over
/// the admitted parameter ranges.
pub const VOL_TIME_LIMIT: i128 = 20_000_000_000_000;

/// Magnitude limit on a stored invariant value; every invariant the trading
/// function itself can produce lies far below it.
pub const INVARIANT_LIMIT: i128 = 100_000_000_000_000;

/// Tie-break added to the target invariant when probing a trade: one
/// fixed-point unit. It keeps the root search aimed strictly past the
/// current invariant so the bracket cannot collapse onto the pre-trade
/// state; its size is a tunable choice, the smallest representable step.
pub const INVARIANT_NUDGE: i128 = 1;

/// Reasons a curve state is rejected before any arithmetic runs.
#[derive(Clone, Copy, Debug, PartialEq, Eq, Structural)]
pub enum CurveError {
    /// The risky reserve must lie strictly between 0 and one whole unit.
    ReserveXOutOfRange,
    /// The strike price must be positive and within `STRIKE_LIMIT`.
    StrikeOutOfRange,
    /// The stable reserve must lie strictly between 0 and the strike.
    ReserveYOutOfRange,
    /// The volatility must be nonnegative and within `VOLATILITY_LIMIT`.
    VolatilityOutOfRange,
    /// The time remaining must be nonnegative and within `TIME_LIMIT`.
    TimeOutOfRange,
    /// The stored invariant must be within `INVARIANT_LIMIT` in magnitude.
    InvariantOutOfRange,
}

/// Reasons a reserve solve can fail.
#[derive(Clone, Copy, Debug, PartialEq, Eq, Structural)]
pub enum SolveError {
    /// The probed reserve leaves the trading function's domain.
    OutOfDomain,
    /// The bisection search failed.
    Search(RootError),
}

/// Normal curve contains the parameters for the normal distribution trading
/// function, all as fixed-point numbers at `SCALE` units per whole number:
/// reserve_x_per_wad - risky reserve per unit of liquidity, in `[0, 1]`.
/// reserve_y_per_wad - stable reserve per unit of liquidity, in `[0, K]`.
/// strike_price_f - strike price `K`.
/// std_dev_f - annualized volatility.
/// time_remaining_sec - time remaining, in seconds.
/// invariant_f - current value of the trading function.
#[derive(Clone, Copy, Debug, PartialEq, Eq, Structural)]
pub struct NormalCurve {
    pub reserve_x_per_wad: i128,
    pub reserve_y_per_wad: i128,
    pub strike_price_f: i128,
    pub std_dev_f: i128,
    pub time_remaining_sec: i128,
    pub invariant_f: i128,
}

/// Fixed parameters within the ranges the arithmetic admits.
pub open spec fn curve_params_ok(strike: int, sigma: int, tau: int) -> bool {
    &&& 0 < strike <= STRIKE_LIMIT
    &&& 0 <= sigma <= VOLATILITY_LIMIT
    &&& 0 <= tau <= TIME_LIMIT
}

/// The ratio `y / K` handed to the inverse distribution, clamped to one
/// whole unit: while probing a trade the stable reserve may exceed the
/// strike, where the true ratio would leave the distribution's domain.
pub open spec fn y_ratio_math(y: int, strike: int) -> int {
    let q = wdiv(y, strike);
    if q > SCALE {
        SCALE as int
    } else {
        q
    }
}

/// The vol-time scalar `sigma * sqrt(tau / secondsPerYear)`.
pub open spec fn vol_time_math(sigma: int, tau: int) -> int {
    wmul(sigma, fixed_sqrt_spec(wdiv(tau, SECONDS_PER_YEAR_FIXED as int)))
}

/// The term `N^-1(1 - x)` of the trading function.
pub open spec fn term_x_math(x: int) -> int {
    inv_cdf_spec(SCALE - x)
}

/// The term `N^-1(y / K)` of the trading function.
pub open spec fn term_y_math(y: int, strike: int) -> int {
    inv_cdf_spec(y_ratio_math(y, strike))
}

/// The trading function `N^-1(y/K) - N^-1(1-x) + sigma sqrt(tau)`.
pub open spec fn trading_function_math(x: int, y: int, strike: int, sigma: int, tau: int) -> int {
    term_y_math(y, strike) - term_x_math(x) + vol_time_math(sigma, tau)
}

/// The stable reserve solved from the risky one at invariant zero:
/// `K * N(N^-1(1-x) - sigma sqrt(tau))`.
pub open spec fn y_given_x_math(x: int, strike: int, sigma: int, tau: int) -> int {
    wmul(strike, cdf_spec(term_x_math(x) - vol_time_math(sigma, tau)))
}

/// The risky reserve solved from the stable one with the invariant held at
/// its current value `k`: `1 - N(N^-1(y/K) + sigma sqrt(tau) - k)`.
pub open spec fn x_given_y_math(x: int, y: int, strike: int, sigma: int, tau: int) -> int {
    SCALE - cdf_spec(
        term_y_math(y, strike) + vol_time_math(sigma, tau) - trading_function_math(
            x,
            y,
            strike,
            sigma,
            tau,
        ),
    )
}

/// A state whose fields the evaluation formulas accept: reserves may sit on
/// the domain boundary (the distribution saturates there), the fixed
/// parameters must be in range.
pub open spec fn eval_domain(s: NormalCurve) -> bool {
    &&& 0 <= s.reserve_x_per_wad <= SCALE
    &&& 0 <= s.reserve_y_per_wad <= STRIKE_LIMIT
    &&& curve_params_ok(
        s.strike_price_f as int,
        s.std_dev_f as int,
        s.time_remaining_sec as int,
    )
    &&& -INVARIANT_LIMIT <= s.invariant_f <= INVARIANT_LIMIT
}

/// The same state with the risky reserve overwritten.
pub open spec fn with_reserve_x(s: NormalCurve, x: i128) -> NormalCurve {
    NormalCurve { reserve_x_per_wad: x, ..s }
}

/// The same state with the stable reserve overwritten.
pub open spec fn with_reserve_y(s: NormalCurve, y: i128) -> NormalCurve {
    NormalCurve { reserve_y_per_wad: y, ..s }
}

/// The vol-time scalar is nonnegative and bounded over the admitted
/// parameter ranges.
pub proof fn lemma_vol_time_bounds(sigma: int, tau: int)
    requires
        0 <= sigma <= VOLATILITY_LIMIT,
        0 <= tau <= TIME_LIMIT,
    ensures
        0 <= vol_time_math(sigma, tau) <= VOL_TIME_LIMIT,
        0 <= wdiv(tau, SECONDS_PER_YEAR_FIXED as int) <= SQRT_INPUT_LIMIT,
        0 <= fixed_sqrt_spec(wdiv(tau, SECONDS_PER_YEAR_FIXED as int)) < 12_000_000_000,
{
    let tn = wdiv(tau, SECONDS_PER_YEAR_FIXED as int);
    lemma_wdiv_mono_num(tau, TIME_LIMIT as int, SECONDS_PER_YEAR_FIXED as int);
    lemma_wdiv_mono_num(0, tau, SECONDS_PER_YEAR_FIXED as int);
    assert(wdiv(TIME_LIMIT as int, SECONDS_PER_YEAR_FIXED as int) == 126_754_950_010);
    crate::fixed::lemma_fixed_sqrt_bounds(tn);
    let r = fixed_sqrt_spec(tn);
    if r >= 12_000_000_000 {
        lemma_mul_inequality(12_000_000_000, r, r);
        lemma_mul_inequality(12_000_000_000, 12_000_000_000, r);
        assert(r * 12_000_000_000 == 12_000_000_000 * r) by (nonlinear_arith);
        assert(r * r >= 144_000_000_000_000_000_000);
        lemma_mul_upper_bound(tn, 126_754_950_010, SCALE as int, SCALE as int);
        assert(false);
    }
    lemma_wmul_mono(sigma, VOLATILITY_LIMIT as int, r, 12_000_000_000);
    assert(wmul(VOLATILITY_LIMIT as int, 12_000_000_000) == 12_000_000_000_000);
    lemma_wmul_mono(0, sigma, 0, r);
}

/// Tolerance of the default trade-probing root search.
pub const DEFAULT_EPSILON: i128 = 100_000;

/// Iteration budget of the default trade-probing root search.
pub const DEFAULT_MAX_ITER: u64 = 1000;

/// Objective probed while selling the risky asset: the trading function at
/// a candidate stable reserve `y`, minus the pre-trade invariant nudged one
/// unit upward.
pub open spec fn swap_x_objective(c: NormalCurve, y: int) -> int {
    trading_function_math(
        c.reserve_x_per_wad as int,
        y,
        c.strike_price_f as int,
        c.std_dev_f as int,
        c.time_remaining_sec as int,
    ) - (c.invariant_f + INVARIANT_NUDGE)
}

/// Objective probed while selling the stable asset: the trading function at
/// a candidate risky reserve `x`, minus the pre-trade invariant nudged one
/// unit downward.
pub open spec fn swap_y_objective(c: NormalCurve, x: int) -> int {
    trading_function_math(
        x,
        c.reserve_y_per_wad as int,
        c.strike_price_f as int,
        c.std_dev_f as int,
        c.time_remaining_sec as int,
    ) - (c.invariant_f - INVARIANT_NUDGE)
}

/// Root-search probe over the stable reserve of a fixed curve state.
pub struct SwapXProbe {
    pub curve: NormalCurve,
}

impl RootFn for SwapXProbe {
    open spec fn dom(&self, x: int) -> bool {
        &&& eval_domain(self.curve)
        &&& 0 <= x <= SCALE
    }

    open spec fn f(&self, x: int) -> int {
        swap_x_objective(self.curve, x)
    }

    fn eval(&self, x: i128) -> (r: i128) {
        let c = NormalCurve { reserve_y_per_wad: x, ..self.curve };
        let t = c.trading_function_floating();
        t - (self.curve.invariant_f + INVARIANT_NUDGE)
    }
}

/// Root-search probe over the risky reserve of a fixed curve state.
pub struct SwapYProbe {
    pub curve: NormalCurve,
}

impl RootFn for SwapYProbe {
    open spec fn dom(&self, x: int) -> bool {
        &&& eval_domain(self.curve)
        &&& 0 <= x <= SCALE
    }

    open spec fn f(&self, x: int) -> int {
        swap_y_objective(self.curve, x)
    }

    fn eval(&self, x: i128) -> (r: i128) {
        let c = NormalCurve { reserve_x_per_wad: x, ..self.curve };
        let t = c.trading_function_floating();
        t - (self.curve.invariant_f - INVARIANT_NUDGE)
    }
}

/// What `approximate_other_reserve` returns: reject a probed reserve outside
/// the search bracket's domain, otherwise run the default bisection over the
/// matching probe.
pub open spec fn other_reserve_spec(
    s: NormalCurve,
    sell_asset: bool,
    reserve_in: i128,
) -> Result<i128, SolveError> {
    if sell_asset {
        if !(0 <= reserve_in <= SCALE) {
            Err(SolveError::OutOfDomain)
        } else {
            let probe = (SwapXProbe { curve: with_reserve_x(s, reserve_in) });
            match bisect_spec(
                &probe,
                0,
                SCALE as int,
                DEFAULT_EPSILON as int,
                DEFAULT_MAX_ITER as nat,
            ) {
                Ok(v) => Ok(v as i128),
                Err(e) => Err(SolveError::Search(e)),
            }
        }
    } else {
        if !(0 <= reserve_in <= STRIKE_LIMIT) {
            Err(SolveError::OutOfDomain)
        } else {
            let probe = (SwapYProbe { curve: with_reserve_y(s, reserve_in) });
            match bisect_spec(
                &probe,
                0,
                SCALE as int,
                DEFAULT_EPSILON as int,
                DEFAULT_MAX_ITER as nat,
            ) {
                Ok(v) => Ok(v as i128),
                Err(e) => Err(SolveError::Search(e)),
            }
        }
    }
}

/// What `approximate_amount_out` returns: move the traded reserve up by the
/// amount in, solve the other reserve, and return how far it fell.
pub open spec fn amount_out_spec(
    s: NormalCurve,
    sell_asset: bool,
    amount_in: i128,
) -> Result<i128, SolveError> {
    if sell_asset {
        match other_reserve_spec(s, true, (s.reserve_x_per_wad + amount_in) as i128) {
            Ok(out) => Ok((s.reserve_y_per_wad - out) as i128),
            Err(e) => Err(e),
        }
    } else {
        match other_reserve_spec(s, false, (s.reserve_y_per_wad + amount_in) as i128) {
            Ok(out) => Ok((s.reserve_x_per_wad - out) as i128),
            Err(e) => Err(e),
        }
    }
}

impl NormalCurve {
    /// A state the constructor accepts: both reserves strictly inside their
    /// domain, the fixed parameters in range.
    pub open spec fn well_formed(self) -> bool {
        &&& 0 < self.reserve_x_per_wad < SCALE
        &&& 0 < self.reserve_y_per_wad < self.strike_price_f
        &&& curve_params_ok(
            self.strike_price_f as int,
            self.std_dev_f as int,
            self.time_remaining_sec as int,
        )
        &&& -INVARIANT_LIMIT <= self.invariant_f <= INVARIANT_LIMIT
    }

    /// What the constructor returns: the first violated bound's error, in
    /// the order risky reserve, strike, stable reserve, volatility, time,
    /// invariant; otherwise the assembled state.
    pub open spec fn new_spec(
        reserve_x_per_wad: i128,
        reserve_y_per_wad: i128,
        strike_price_f: i128,
        std_dev_f: i128,
        time_remaining_sec: i128,
        invariant_f: i128,
    ) -> Result<NormalCurve, CurveError> {
        if !(0 < reserve_x_per_wad < SCALE) {
            Err(CurveError::ReserveXOutOfRange)
        } else if !(0 < strike_price_f <= STRIKE_LIMIT) {
            Err(CurveError::StrikeOutOfRange)
        } else if !(0 < reserve_y_per_wad < strike_price_f) {
            Err(CurveError::ReserveYOutOfRange)
        } else if !(0 <= std_dev_f <= VOLATILITY_LIMIT) {
            Err(CurveError::VolatilityOutOfRange)
        } else if !(0 <= time_remaining_sec <= TIME_LIMIT) {
            Err(CurveError::TimeOutOfRange)
        } else if !(-INVARIANT_LIMIT <= invariant_f <= INVARIANT_LIMIT) {
            Err(CurveError::InvariantOutOfRange)
        } else {
            Ok(
                NormalCurve {
                    reserve_x_per_wad,
                    reserve_y_per_wad,
                    strike_price_f,
                    std_dev_f,
                    time_remaining_sec,
                    invariant_f,
                },
            )
        }
    }

    /// Constructor: validates every field against its domain and returns a
    /// well-formed state, or the explicit reason the state is rejected. In
    /// particular a risky reserve of exactly 0 or one whole unit, where the
    /// inverse distribution diverges, is refused rather than evaluated.
    pub fn new(
        reserve_x_per_wad: i128,
        reserve_y_per_wad: i128,
        strike_price_f: i128,
        std_dev_f: i128,
        time_remaining_sec: i128,
        invariant_f: i128,
    ) -> (r: Result<NormalCurve, CurveError>)
        ensures
            r == Self::new_spec(
                reserve_x_per_wad,
                reserve_y_per_wad,
                strike_price_f,
                std_dev_f,
                time_remaining_sec,
                invariant_f,
            ),
            r matches Ok(c) ==> c.well_formed() && eval_domain(c),
            r matches Ok(_) <==> (0 < reserve_x_per_wad < SCALE && 0 < strike_price_f
                <= STRIKE_LIMIT && 0 < reserve_y_per_wad < strike_price_f && 0 <= std_dev_f
                <= VOLATILITY_LIMIT && 0 <= time_remaining_sec <= TIME_LIMIT && -INVARIANT_LIMIT
                <= invariant_f <= INVARIANT_LIMIT),
    {
        if !(0 < reserve_x_per_wad && reserve_x_per_wad < SCALE) {
            Err(CurveError::ReserveXOutOfRange)
        } else if !(0 < strike_price_f && strike_price_f <= STRIKE_LIMIT) {
            Err(CurveError::StrikeOutOfRange)
        } else if !(0 < reserve_y_per_wad && reserve_y_per_wad < strike_price_f) {
            Err(CurveError::ReserveYOutOfRange)
        } else if !(0 <= std_dev_f && std_dev_f <= VOLATILITY_LIMIT) {
            Err(CurveError::VolatilityOutOfRange)
        } else if !(0 <= time_remaining_sec && time_remaining_sec <= TIME_LIMIT) {
            Err(CurveError::TimeOutOfRange)
        } else if !(-INVARIANT_LIMIT <= invariant_f && invariant_f <= INVARIANT_LIMIT) {
            Err(CurveError::InvariantOutOfRange)
        } else {
            Ok(
                NormalCurve {
                    reserve_x_per_wad,
                    reserve_y_per_wad,
                    strike_price_f,
                    std_dev_f,
                    time_remaining_sec,
                    invariant_f,
                },
            )
        }
    }

    /// Constructor from a pool's raw ledger values: reserves and strike in
    /// wad units (10^18 per whole number), volatility in basis points and
    /// duration in whole seconds. The wad values are scaled down to the
    /// fixed-point scale, rounding down; the invariant starts at zero.
    pub fn new_from_portfolio(
        virtual_x_wad: u128,
        virtual_y_wad: u128,
        strike_price_wad: u128,
        volatility_basis_points: u16,
        duration_seconds: u32,
    ) -> (r: Result<NormalCurve, CurveError>)
        ensures
            r == Self::new_spec(
                (virtual_x_wad / 1_000_000_000) as i128,
                (virtual_y_wad / 1_000_000_000) as i128,
                (strike_price_wad / 1_000_000_000) as i128,
                ((volatility_basis_points as i128) * 100_000) as i128,
                ((duration_seconds as i128) * SCALE) as i128,
                0,
            ),
    {
        let x = (virtual_x_wad / 1_000_000_000) as i128;
        let y = (virtual_y_wad / 1_000_000_000) as i128;
        let strike = (strike_price_wad / 1_000_000_000) as i128;
        let sigma = (volatility_basis_points as i128) * 100_000;
        let tau = (duration_seconds as i128) * SCALE;
        Self::new(x, y, strike, sigma, tau, 0)
    }

    /// The vol-time scalar of this state.
    fn vol_time(&self) -> (r: i128)
        requires
            0 <= self.std_dev_f <= VOLATILITY_LIMIT,
            0 <= self.time_remaining_sec <= TIME_LIMIT,
        ensures
            r == vol_time_math(self.std_dev_f as int, self.time_remaining_sec as int),
            0 <= r <= VOL_TIME_LIMIT,
    {
        proof {
            lemma_vol_time_bounds(self.std_dev_f as int, self.time_remaining_sec as int);
        }
        let tau_norm = fixed_div(self.time_remaining_sec, SECONDS_PER_YEAR_FIXED);
        let root = fixed_sqrt(tau_norm);
        proof {
            lemma_mul_upper_bound(
                self.std_dev_f as int,
                VOLATILITY_LIMIT as int,
                root as int,
                SQRT_HI as int,
            );
        }
        fixed_mul(self.std_dev_f, root)
    }

    /// The clamped ratio `y / K` handed to the inverse distribution.
    fn y_ratio(&self) -> (r: i128)
        requires
            0 <= self.reserve_y_per_wad <= STRIKE_LIMIT,
            0 < self.strike_price_f <= STRIKE_LIMIT,
        ensures
            r == y_ratio_math(self.reserve_y_per_wad as int, self.strike_price_f as int),
            0 <= r <= SCALE,
    {
        let q = fixed_div(self.reserve_y_per_wad, self.strike_price_f);
        if q > SCALE {
            SCALE
        } else {
            q
        }
    }

    /// computes the trading function invariant
    /// `k = N^-1(y/K) - N^-1(1-x) + sigma sqrt(tau)`.
    pub fn trading_function_floating(&self) -> (r: i128)
        requires
            eval_domain(*self),
        ensures
            r == trading_function_math(
                self.reserve_x_per_wad as int,
                self.reserve_y_per_wad as int,
                self.strike_price_f as int,
                self.std_dev_f as int,
                self.time_remaining_sec as int,
            ),
            -2 * CDF_CLAMP <= r <= 2 * CDF_CLAMP + VOL_TIME_LIMIT,
    {
        let vol = self.vol_time();
        let p = self.y_ratio();
        let term_y = inverse_cdf(p);
        let term_x = inverse_cdf(SCALE - self.reserve_x_per_wad);
        term_y - term_x + vol
    }

    /// computes the trading function's stable reserve at invariant zero:
    /// `y = K * N(N^-1(1-x) - sigma sqrt(tau))`.
    pub fn approximate_y_given_x_floating(&self) -> (r: i128)
        requires
            eval_domain(*self),
        ensures
            r == y_given_x_math(
                self.reserve_x_per_wad as int,
                self.strike_price_f as int,
                self.std_dev_f as int,
                self.time_remaining_sec as int,
            ),
            0 <= r <= self.strike_price_f,
    {
        let vol = self.vol_time();
        let term_x = inverse_cdf(SCALE - self.reserve_x_per_wad);
        let c = cdf(term_x - vol);
        proof {
            lemma_mul_upper_bound(self.strike_price_f as int, STRIKE_LIMIT as int, c as int, SCALE as int);
            lemma_wmul_mono(self.strike_price_f as int, self.strike_price_f as int, c as int, SCALE as int);
            vstd::arithmetic::div_mod::lemma_div_by_multiple(self.strike_price_f as int, SCALE as int);
        }
        fixed_mul(self.strike_price_f, c)
    }

    /// computes the trading function's risky reserve with the invariant held
    /// at its current value: `x = 1 - N(N^-1(y/K) + sigma sqrt(tau) - k)`.
    pub fn approximate_x_given_y_floating(&self) -> (r: i128)
        requires
            eval_domain(*self),
        ensures
            r == x_given_y_math(
                self.reserve_x_per_wad as int,
                self.reserve_y_per_wad as int,
                self.strike_price_f as int,
                self.std_dev_f as int,
                self.time_remaining_sec as int,
            ),
            0 <= r <= SCALE,
    {
        let vol = self.vol_time();
        let p = self.y_ratio();
        let term_y = inverse_cdf(p);
        let k = self.trading_function_floating();
        let c = cdf(term_y + vol - k);
        SCALE - c
    }

    /// finds the root such that the invariant is one unit more than the
    /// current invariant.
    /// value - the candidate y reserve value
    pub fn find_root_swapping_x(&self, value: i128) -> (r: i128)
        requires
            eval_domain(*self),
            0 <= value <= STRIKE_LIMIT,
        ensures
            r == swap_x_objective(*self, value as int),
    {
        let c = NormalCurve { reserve_y_per_wad: value, ..*self };
        let t = c.trading_function_floating();
        t - (self.invariant_f + INVARIANT_NUDGE)
    }

    /// finds the root such that the invariant is one unit less than the
    /// current invariant.
    /// value - the candidate x reserve value
    pub fn find_root_swapping_y(&self, value: i128) -> (r: i128)
        requires
            eval_domain(*self),
            0 <= value <= SCALE,
        ensures
            r == swap_y_objective(*self, value as int),
    {
        let c = NormalCurve { reserve_x_per_wad: value, ..*self };
        let t = c.trading_function_floating();
        t - (self.invariant_f - INVARIANT_NUDGE)
    }

    /// Solves the reserve that must balance a trade: with one reserve moved
    /// to the known value `reserve_in`, finds the other reserve at which the
    /// invariant returns to (one unit past) its pre-trade value, by
    /// bisection over `[0, 1]`.
    ///
    /// sell_asset - if true the risky reserve was moved and the stable one
    /// is solved, else the other way around.
    ///
    /// The result is the search's answer exactly; it lies strictly inside
    /// `(0, 1)`. A probed reserve outside the domain is rejected as
    /// `OutOfDomain`, and a bracket on which the objective does not change
    /// sign as `InvalidBracket`; with the default budget the search always
    /// converges, so those are the only errors.
    pub fn approximate_other_reserve(&self, sell_asset: bool, reserve_in: i128) -> (r: Result<
        i128,
        SolveError,
    >)
        requires
            eval_domain(*self),
        ensures
            r == other_reserve_spec(*self, sell_asset, reserve_in),
            r matches Ok(v) ==> 0 < v < SCALE,
            r matches Err(SolveError::Search(e)) ==> e == RootError::InvalidBracket,
            (sell_asset && 0 <= reserve_in <= SCALE && swap_x_objective(
                with_reserve_x(*self, reserve_in),
                0,
            ) * swap_x_objective(with_reserve_x(*self, reserve_in), SCALE as int) <= 0) ==> r
                matches Ok(_),
            (!sell_asset && 0 <= reserve_in <= STRIKE_LIMIT && swap_y_objective(
                with_reserve_y(*self, reserve_in),
                0,
            ) * swap_y_objective(with_reserve_y(*self, reserve_in), SCALE as int) <= 0) ==> r
                matches Ok(_),
    {
        proof {
            vstd::arithmetic::power2::lemma2_to64();
            vstd::arithmetic::power2::lemma_pow2_strictly_increases(30, DEFAULT_MAX_ITER as nat);
        }
        let data = Bisection::new(0, SCALE, DEFAULT_EPSILON, DEFAULT_MAX_ITER);
        if sell_asset {
            if !(0 <= reserve_in && reserve_in <= SCALE) {
                return Err(SolveError::OutOfDomain);
            }
            let probe = SwapXProbe { curve: NormalCurve { reserve_x_per_wad: reserve_in, ..*self } };
            match data.bisection(&probe) {
                Ok(v) => Ok(v),
                Err(e) => Err(SolveError::Search(e)),
            }
        } else {
            if !(0 <= reserve_in && reserve_in <= STRIKE_LIMIT) {
                return Err(SolveError::OutOfDomain);
            }
            let probe = SwapYProbe { curve: NormalCurve { reserve_y_per_wad: reserve_in, ..*self } };
            match data.bisection(&probe) {
                Ok(v) => Ok(v),
                Err(e) => Err(SolveError::Search(e)),
            }
        }
    }

    /// approximates the amount released by a trade: the traded reserve grows
    /// by `amount_in`, the other reserve is solved so the invariant holds,
    /// and the amount out is how far that reserve fell. Whenever a value is
    /// returned it is strictly less than the released reserve's balance.
    pub fn approximate_amount_out(&self, sell_asset: bool, amount_in: i128) -> (r: Result<
        i128,
        SolveError,
    >)
        requires
            eval_domain(*self),
            0 < amount_in <= STRIKE_LIMIT,
        ensures
            r == amount_out_spec(*self, sell_asset, amount_in),
            sell_asset ==> (r matches Ok(v) ==> v < self.reserve_y_per_wad),
            !sell_asset ==> (r matches Ok(v) ==> v < self.reserve_x_per_wad),
    {
        if sell_asset {
            let reserve_in = self.reserve_x_per_wad + amount_in;
            match self.approximate_other_reserve(true, reserve_in) {
                Ok(reserve_out) => Ok(self.reserve_y_per_wad - reserve_out),
                Err(e) => Err(e),
            }
        } else {
            let reserve_in = self.reserve_y_per_wad + amount_in;
            match self.approximate_other_reserve(false, reserve_in) {
                Ok(reserve_out) => Ok(self.reserve_x_per_wad - reserve_out),
                Err(e) => Err(e),
            }
        }
    }

    /// gets the y coordinates for the trading function across the range
    /// `[0, 1)`: one point per step of a hundredth, each solved at invariant
    /// zero from a copy of this state with the risky reserve overwritten.
    pub fn get_trading_function_coordinates(&self) -> (points: Vec<(i128, i128)>)
        requires
            eval_domain(*self),
        ensures
            points@.len() == 100,
            forall|i: int|
                0 <= i < 100 ==> (#[trigger] points@[i]).0 == i * COORDINATE_STEP && points@[i].1
                    == y_given_x_math(
                    i * COORDINATE_STEP,
                    self.strike_price_f as int,
                    self.std_dev_f as int,
                    self.time_remaining_sec as int,
                ),
    {
        let mut points: Vec<(i128, i128)> = Vec::new();
        let mut x: i128 = 0;
        while x < SCALE
            invariant
                eval_domain(*self),
                0 <= x <= SCALE,
                x == points@.len() * COORDINATE_STEP,
                points@.len() <= 100,
                forall|i: int|
                    0 <= i < points@.len() ==> (#[trigger] points@[i]).0 == i * COORDINATE_STEP
                        && points@[i].1 == y_given_x_math(
                        i * COORDINATE_STEP,
                        self.strike_price_f as int,
                        self.std_dev_f as int,
                        self.time_remaining_sec as int,
                    ),
            decreases SCALE - x,
        {
            let copy = NormalCurve { reserve_x_per_wad: x, ..*self };
            let y = copy.approximate_y_given_x_floating();
            points.push((x, y));
            x = x + COORDINATE_STEP;
        }
        points
    }
}

/// Width of one sweep step of `get_trading_function_coordinates`: a
/// hundredth of a whole unit.
pub const COORDINATE_STEP: i128 = 10_000_000;

/// Exposes methods to graph a curve: its height at an abscissa, its
/// abscissa at a height, and the bounds of both axes.
pub trait Graphable {
    /// Whether the value is in a state the graphing methods accept.
    spec fn graphable(&self) -> bool;

    /// Abscissas at which the height may be asked.
    spec fn y_arg_ok(&self, x: int) -> bool;

    /// Heights at which the abscissa may be asked.
    spec fn x_arg_ok(&self, y: int) -> bool;

    /// The curve's height at `x`.
    spec fn y_of(&self, x: int) -> int;

    /// The curve's abscissa at height `y`.
    spec fn x_of(&self, y: int) -> int;

    /// The inclusive bounds of the abscissa axis.
    spec fn range_of(&self) -> (int, int);

    /// The inclusive bounds of the height axis.
    spec fn domain_of(&self) -> (int, int);

    fn y_equals(&self, x: i128) -> (r: i128)
        requires
            self.graphable(),
            self.y_arg_ok(x as int),
        ensures
            r == self.y_of(x as int),
    ;

    fn x_equals(&self, y: i128) -> (r: i128)
        requires
            self.graphable(),
            self.x_arg_ok(y as int),
        ensures
            r == self.x_of(y as int),
    ;

    fn range_inclusive(&self) -> (r: (i128, i128))
        requires
            self.graphable(),
        ensures
            (r.0 as int, r.1 as int) == self.range_of(),
    ;

    fn domain_inclusive(&self) -> (r: (i128, i128))
        requires
            self.graphable(),
        ensures
            (r.0 as int, r.1 as int) == self.domain_of(),
    ;
}

/// Allows us to graph the trading function.
impl Graphable for NormalCurve {
    open spec fn graphable(&self) -> bool {
        eval_domain(*self)
    }

    open spec fn y_arg_ok(&self, x: int) -> bool {
        0 <= x <= SCALE
    }

    open spec fn x_arg_ok(&self, y: int) -> bool {
        0 <= y <= STRIKE_LIMIT
    }

    open spec fn y_of(&self, x: int) -> int {
        y_given_x_math(
            x,
            self.strike_price_f as int,
            self.std_dev_f as int,
            self.time_remaining_sec as int,
        )
    }

    open spec fn x_of(&self, y: int) -> int {
        x_given_y_math(
            self.reserve_x_per_wad as int,
            y,
            self.strike_price_f as int,
            self.std_dev_f as int,
            self.time_remaining_sec as int,
        )
    }

    open spec fn range_of(&self) -> (int, int) {
        (0, SCALE as int)
    }

    open spec fn domain_of(&self) -> (int, int) {
        (0, self.strike_price_f as int)
    }

    fn y_equals(&self, x: i128) -> (r: i128) {
        let copy = NormalCurve { reserve_x_per_wad: x, ..*self };
        copy.approximate_y_given_x_floating()
    }

    fn x_equals(&self, y: i128) -> (r: i128) {
        let copy = NormalCurve { reserve_y_per_wad: y, ..*self };
        copy.approximate_x_given_y_floating()
    }

    fn range_inclusive(&self) -> (r: (i128, i128)) {
        (0, SCALE)
    }

    fn domain_inclusive(&self) -> (r: (i128, i128)) {
        (0, self.strike_price_f)
    }
}

/// **Round trip.** Solving the risky reserve back from any stable reserve
/// recovers the risky reserve the invariant was computed at: the stable
/// reserve's term cancels exactly against its occurrence inside the
/// invariant, so the result is `1 - N(N^-1(1 - x0))`, which overshoots `x0`
/// by at most one step of the cumulative distribution — 80 fixed-point
/// units, less than a tenth of a millionth — and never undershoots it. In
/// particular this holds for the stable reserve solved by
/// `y_given_x_math(x0, ..)`.
pub proof fn lemma_round_trip(x0: int, y: int, strike: int, sigma: int, tau: int)
    requires
        0 <= x0 <= SCALE,
        curve_params_ok(strike, sigma, tau),
    ensures
        x_given_y_math(x0, y, strike, sigma, tau) == SCALE - cdf_spec(inv_cdf_spec(SCALE - x0)),
        x0 <= x_given_y_math(x0, y, strike, sigma, tau),
        x_given_y_math(x0, y, strike, sigma, tau) - x0 <= 80,
{
    assert(term_y_math(y, strike) + vol_time_math(sigma, tau) - trading_function_math(
        x0,
        y,
        strike,
        sigma,
        tau,
    ) == term_x_math(x0));
    lemma_inv_cdf_bounds(SCALE - x0);
    crate::normal::lemma_cdf_step(term_x_math(x0));
}

/// **Monotonicity.** The stable reserve solved at invariant zero is weakly
/// decreasing in the risky reserve: a larger risky reserve never buys a
/// larger stable reserve. (On adjacent fixed-point arguments the two values
/// may coincide, so the decrease is weak, not strict.)
pub proof fn lemma_y_given_x_decreasing(x1: int, x2: int, strike: int, sigma: int, tau: int)
    requires
        0 <= x1 <= x2 <= SCALE,
        curve_params_ok(strike, sigma, tau),
    ensures
        y_given_x_math(x2, strike, sigma, tau) <= y_given_x_math(x1, strike, sigma, tau),
{
    let vol = vol_time_math(sigma, tau);
    lemma_inv_cdf_mono(SCALE - x2, SCALE - x1);
    lemma_cdf_mono(term_x_math(x2) - vol, term_x_math(x1) - vol);
    lemma_cdf_range(term_x_math(x2) - vol);
    lemma_cdf_range(term_x_math(x1) - vol);
    lemma_wmul_mono(strike, strike, cdf_spec(term_x_math(x2) - vol), cdf_spec(term_x_math(x1) - vol));
}

/// **Determinism.** The trading function is a mathematical function of the
/// state alone: any two values pinned to it by the evaluator's contract are
/// identical, so re-evaluating an unchanged state cannot drift.
pub proof fn lemma_trading_function_deterministic(s: NormalCurve, r1: int, r2: int)
    requires
        r1 == trading_function_math(
            s.reserve_x_per_wad as int,
            s.reserve_y_per_wad as int,
            s.strike_price_f as int,
            s.std_dev_f as int,
            s.time_remaining_sec as int,
        ),
        r2 == trading_function_math(
            s.reserve_x_per_wad as int,
            s.reserve_y_per_wad as int,
            s.strike_price_f as int,
            s.std_dev_f as int,
            s.time_remaining_sec as int,
        ),
    ensures
        r1 == r2,
{
}

} // verus!

