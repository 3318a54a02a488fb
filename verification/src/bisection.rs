//! Bisection method for finding roots of a function.
//!
//! Bisection, or binary search, keeps a bracket around a sign change of a
//! continuous function and repeatedly replaces one end of the bracket by its
//! midpoint, keeping the sign change inside, until the bracket is no wider
//! than a tolerance or an iteration budget runs out. A bracket whose ends
//! have the same sign is rejected up front, and running out of iterations is
//! reported, so a caller can never mistake a degenerate value for a root.
//!
//! The executable search returns exactly the value of the spec-level mirror
//! `bisect_spec`, and its contract also states the classical guarantees
//! directly: a returned root lies in a sub-bracket of width at most the
//! tolerance across which the function changes sign.

use vstd::arithmetic::div_mod::{lemma_div_denominator, lemma_div_is_ordered};
use vstd::arithmetic::power2::{lemma_pow2_unfold, pow2};
use vstd::prelude::*;

verus! {

/// Magnitude limit on bracket ends, leaving room for every width and
/// midpoint computation in an `i128`.
pub const BRACKET_LIMIT: i128 = 1_000_000_000_000_000_000_000_000_000_000_000_000;

/// A scalar function that the root finder can probe.
///
/// `f` is the mathematical function searched for a root, `dom` the set of
/// arguments on which `eval` may be called; `eval` computes exactly `f`.
pub trait RootFn {
    spec fn dom(&self, x: int) -> bool;

    spec fn f(&self, x: int) -> int;

    fn eval(&self, x: i128) -> (r: i128)
        requires
            self.dom(x as int),
        ensures
            r == self.f(x as int),
    ;
}

/// How a root search can fail.
#[derive(Clone, Copy, Debug, PartialEq, Eq, Structural)]
pub enum RootError {
    /// The function has the same strict sign at both bracket ends.
    InvalidBracket,
    /// The bracket was still wider than the tolerance when the iteration
    /// budget ran out.
    NoConvergence,
}

/// Bisection method for finding roots of a function.
/// lower - lower bound of the search space
/// upper - upper bound of the search space
/// epsilon - maximum distance between the bracket ends on success
/// max_iter - maximum number of iterations to perform
pub struct Bisection {
    pub lower: i128,
    pub upper: i128,
    pub epsilon: i128,
    pub max_iter: u64,
}

/// The search loop as a mathematical function: narrow the bracket
/// `[lo, hi]` around a sign change of `t.f` until it is no wider than `eps`
/// or `left` halvings have been spent; `root` is the midpoint most recently
/// computed.
pub open spec fn bisect_loop<T: RootFn>(
    t: &T,
    lo: int,
    hi: int,
    root: int,
    eps: int,
    left: nat,
) -> Result<int, RootError>
    decreases left,
{
    if hi - lo <= eps {
        Ok(root)
    } else if left == 0 {
        Err(RootError::NoConvergence)
    } else {
        let mid = lo + (hi - lo) / 2;
        if t.f(mid) * t.f(lo) <= 0 {
            bisect_loop(t, lo, mid, mid, eps, (left - 1) as nat)
        } else {
            bisect_loop(t, mid, hi, mid, eps, (left - 1) as nat)
        }
    }
}

/// The whole search as a mathematical function: reject a bracket without a
/// sign change, otherwise run the loop starting from the bracket midpoint.
pub open spec fn bisect_spec<T: RootFn>(
    t: &T,
    lower: int,
    upper: int,
    eps: int,
    max_iter: nat,
) -> Result<int, RootError> {
    if t.f(lower) * t.f(upper) > 0 {
        Err(RootError::InvalidBracket)
    } else {
        bisect_loop(t, lower, upper, lower + (upper - lower) / 2, eps, max_iter)
    }
}

/// The sign of a product of two integers, stated without the product.
proof fn lemma_sign_product(a: int, b: int)
    by (nonlinear_arith)
    ensures
        (a * b <= 0) <==> ((a <= 0 && b >= 0) || (a >= 0 && b <= 0)),
        (a * b > 0) <==> ((a > 0 && b > 0) || (a < 0 && b < 0)),
{
}

/// Same-sign and opposite-sign products: if `a` and `b` have the same strict
/// sign while `a` and `c` do not, then `b` and `c` do not either.
proof fn lemma_sign_transfer(a: int, b: int, c: int)
    by (nonlinear_arith)
    requires
        a * b > 0,
        a * c <= 0,
    ensures
        b * c <= 0,
{
}

/// Magnitude limit on the argument of a `CubicPoly`.
pub const CUBIC_ARG_LIMIT: i128 = 10_000_000_000_000;

/// Magnitude limit on the leading coefficients of a `CubicPoly`.
pub const CUBIC_COEF_LIMIT: i128 = 1_000_000_000_000;

/// Magnitude limit on the constant coefficient of a `CubicPoly`.
pub const CUBIC_CONST_LIMIT: i128 = 1_000_000_000_000_000_000;

/// The cubic `a3 x^3 + a2 x^2 + a1 x + a0` over fixed-point numbers, with
/// every product rounded toward zero.
pub open spec fn cubic_math(a3: int, a2: int, a1: int, a0: int, x: int) -> int {
    let x2 = crate::fixed::tmul(x, x);
    let x3 = crate::fixed::tmul(x2, x);
    crate::fixed::tmul(a3, x3) + crate::fixed::tmul(a2, x2) + crate::fixed::tmul(a1, x) + a0
}

/// A cubic polynomial over fixed-point numbers: a ready-made probe for the
/// root finder.
pub struct CubicPoly {
    pub a3: i128,
    pub a2: i128,
    pub a1: i128,
    pub a0: i128,
}

impl RootFn for CubicPoly {
    open spec fn dom(&self, x: int) -> bool {
        &&& -CUBIC_ARG_LIMIT <= x <= CUBIC_ARG_LIMIT
        &&& -CUBIC_COEF_LIMIT <= self.a3 <= CUBIC_COEF_LIMIT
        &&& -CUBIC_COEF_LIMIT <= self.a2 <= CUBIC_COEF_LIMIT
        &&& -CUBIC_COEF_LIMIT <= self.a1 <= CUBIC_COEF_LIMIT
        &&& -CUBIC_CONST_LIMIT <= self.a0 <= CUBIC_CONST_LIMIT
    }

    open spec fn f(&self, x: int) -> int {
        cubic_math(self.a3 as int, self.a2 as int, self.a1 as int, self.a0 as int, x)
    }

    fn eval(&self, x: i128) -> (r: i128) {
        proof {
            assert(0 <= x * x <= 100_000_000_000_000_000_000_000_000int) by (nonlinear_arith)
                requires
                    -CUBIC_ARG_LIMIT <= x <= CUBIC_ARG_LIMIT,
            ;
            crate::fixed::lemma_tmul_bound(x as int, x as int, 100_000_000_000_000_000_000_000_000int);
        }
        let x2 = crate::fixed::fixed_mul_signed(x, x);
        proof {
            assert(-(0x1_0000_0000_0000_0000_0000_0000_0000_0000int)
                <= (x2 as int) * (x as int) <= 0x1_0000_0000_0000_0000_0000_0000_0000_0000int
                && -1_000_000_000_000_000_000_000_000_000_000int <= (x2 as int) * (x as int)
                <= 1_000_000_000_000_000_000_000_000_000_000int) by (nonlinear_arith)
                requires
                    -100_000_000_000_000_000 <= x2 <= 100_000_000_000_000_000,
                    -CUBIC_ARG_LIMIT <= x <= CUBIC_ARG_LIMIT,
            ;
            crate::fixed::lemma_tmul_bound(
                x2 as int,
                x as int,
                1_000_000_000_000_000_000_000_000_000_000int,
            );
        }
        let x3 = crate::fixed::fixed_mul_signed(x2, x);
        proof {
            assert(-1_000_000_000_000_000_000_000_000_000_000_000int <= (self.a3 as int) * (
            x3 as int) <= 1_000_000_000_000_000_000_000_000_000_000_000int) by (nonlinear_arith)
                requires
                    -CUBIC_COEF_LIMIT <= self.a3 <= CUBIC_COEF_LIMIT,
                    -1_000_000_000_000_000_000_000 <= x3 <= 1_000_000_000_000_000_000_000,
            ;
            crate::fixed::lemma_tmul_bound(
                self.a3 as int,
                x3 as int,
                1_000_000_000_000_000_000_000_000_000_000_000int,
            );
            assert(-1_000_000_000_000_000_000_000_000_000_000int <= (self.a2 as int) * (x2 as int)
                <= 1_000_000_000_000_000_000_000_000_000_000int) by (nonlinear_arith)
                requires
                    -CUBIC_COEF_LIMIT <= self.a2 <= CUBIC_COEF_LIMIT,
                    -100_000_000_000_000_000 <= x2 <= 100_000_000_000_000_000,
            ;
            crate::fixed::lemma_tmul_bound(
                self.a2 as int,
                x2 as int,
                1_000_000_000_000_000_000_000_000_000_000int,
            );
            assert(-100_000_000_000_000_000_000_000_000int <= (self.a1 as int) * (x as int)
                <= 100_000_000_000_000_000_000_000_000int) by (nonlinear_arith)
                requires
                    -CUBIC_COEF_LIMIT <= self.a1 <= CUBIC_COEF_LIMIT,
                    -CUBIC_ARG_LIMIT <= x <= CUBIC_ARG_LIMIT,
            ;
            crate::fixed::lemma_tmul_bound(
                self.a1 as int,
                x as int,
                100_000_000_000_000_000_000_000_000int,
            );
        }
        let t3 = crate::fixed::fixed_mul_signed(self.a3, x3);
        let t2 = crate::fixed::fixed_mul_signed(self.a2, x2);
        let t1 = crate::fixed::fixed_mul_signed(self.a1, x);
        t3 + t2 + t1 + self.a0
    }
}

impl Bisection {
    /// Creates a new bisection object.
    pub fn new(lower: i128, upper: i128, epsilon: i128, max_iter: u64) -> (r: Self)
        ensures
            r.lower == lower,
            r.upper == upper,
            r.epsilon == epsilon,
            r.max_iter == max_iter,
    {
        Self { upper, lower, epsilon, max_iter }
    }

    /// Finds a root of the function `fx` between `lower` and `upper`, to
    /// within a bracket of width `epsilon`.
    ///
    /// On success the returned value is a midpoint of the final bracket:
    /// it lies within `epsilon` of a sign change of `fx`. A bracket whose
    /// ends have the same strict sign is rejected as `InvalidBracket`; a
    /// budget too small for the bracket and tolerance is reported as
    /// `NoConvergence`, which cannot happen once `2^max_iter` exceeds the
    /// initial bracket width.
    pub fn bisection<T: RootFn>(&self, fx: &T) -> (r: Result<i128, RootError>)
        requires
            self.lower < self.upper,
            1 <= self.epsilon,
            -BRACKET_LIMIT <= self.lower,
            self.upper <= BRACKET_LIMIT,
            forall|x: int| self.lower <= x <= self.upper ==> fx.dom(x),
        ensures
            ({
                let s = bisect_spec(
                    fx,
                    self.lower as int,
                    self.upper as int,
                    self.epsilon as int,
                    self.max_iter as nat,
                );
                match r {
                    Ok(root) => s == Ok::<int, RootError>(root as int),
                    Err(e) => s == Err::<int, RootError>(e),
                }
            }),
            r == Err::<i128, RootError>(RootError::InvalidBracket) <==> fx.f(self.lower as int)
                * fx.f(self.upper as int) > 0,
            r matches Ok(root) ==> self.lower <= root <= self.upper,
            r matches Ok(root) ==> exists|a: int, b: int|
                self.lower <= a <= root <= b <= self.upper && b - a <= self.epsilon && (
                #[trigger] (fx.f(a) * fx.f(b))) <= 0,
            r matches Ok(root) ==> (self.upper - self.lower > self.epsilon ==> self.lower < root
                < self.upper),
            (fx.f(self.lower as int) * fx.f(self.upper as int) <= 0 && self.upper - self.lower - 1
                < pow2(self.max_iter as nat)) ==> r matches Ok(_),
    {
        let ghost width0 = self.upper as int - self.lower as int;
        let flow = fx.eval(self.lower);
        let fhigh = fx.eval(self.upper);
        proof {
            lemma_sign_product(fx.f(self.lower as int), fx.f(self.upper as int));
        }
        if (flow > 0 && fhigh > 0) || (flow < 0 && fhigh < 0) {
            return Err(RootError::InvalidBracket);
        }
        let mut lo = self.lower;
        let mut hi = self.upper;
        let mut root = lo + (((hi - lo) as u128 / 2) as i128);
        let mut iterations: u64 = 0;
        proof {
            vstd::arithmetic::power2::lemma2_to64();
            assert(root == lo as int + (hi as int - lo as int) / 2);
        }
        while hi - lo > self.epsilon && iterations < self.max_iter
            invariant
                self.lower <= lo < hi <= self.upper,
                self.lower < self.upper,
                1 <= self.epsilon,
                -BRACKET_LIMIT <= self.lower,
                self.upper <= BRACKET_LIMIT,
                width0 == self.upper as int - self.lower as int,
                forall|x: int| self.lower <= x <= self.upper ==> fx.dom(x),
                fx.f(lo as int) * fx.f(hi as int) <= 0,
                lo <= root <= hi,
                iterations <= self.max_iter,
                iterations == 0 ==> hi as int - lo as int == width0,
                iterations > 0 ==> self.lower < root < self.upper,
                hi - lo - 1 <= (width0 - 1) / pow2(iterations as nat) as int,
                bisect_loop(
                    fx,
                    lo as int,
                    hi as int,
                    root as int,
                    self.epsilon as int,
                    (self.max_iter - iterations) as nat,
                ) == bisect_loop(
                    fx,
                    self.lower as int,
                    self.upper as int,
                    self.lower as int + (self.upper as int - self.lower as int) / 2,
                    self.epsilon as int,
                    self.max_iter as nat,
                ),
            decreases self.max_iter - iterations,
        {
            let ghost w = hi as int - lo as int;
            let mid = lo + (((hi - lo) as u128 / 2) as i128);
            assert(mid == lo as int + (hi as int - lo as int) / 2);
            assert(lo < mid < hi);
            root = mid;
            let fmid = fx.eval(mid);
            let flo2 = fx.eval(lo);
            proof {
                lemma_sign_product(fx.f(mid as int), fx.f(lo as int));
                lemma_sign_product(fx.f(lo as int), fx.f(mid as int));
                if fx.f(lo as int) * fx.f(mid as int) > 0 {
                    lemma_sign_transfer(fx.f(lo as int), fx.f(mid as int), fx.f(hi as int));
                }
            }
            if (fmid <= 0 && flo2 >= 0) || (fmid >= 0 && flo2 <= 0) {
                hi = mid;
            } else {
                lo = mid;
            }
            proof {
                let k = iterations as nat;
                lemma_pow2_unfold((k + 1) as nat);
                vstd::arithmetic::power2::lemma_pow2_pos(k);
                assert(hi as int - lo as int - 1 <= (w - 1) / 2);
                lemma_div_is_ordered(w - 1, (width0 - 1) / pow2(k) as int, 2);
                lemma_div_denominator(width0 - 1, pow2(k) as int, 2);
            }
            iterations = iterations + 1;
        }
        if hi - lo > self.epsilon {
            proof {
                if width0 - 1 < pow2(self.max_iter as nat) {
                    vstd::arithmetic::power2::lemma_pow2_pos(self.max_iter as nat);
                    vstd::arithmetic::div_mod::lemma_basic_div(
                        width0 - 1,
                        pow2(self.max_iter as nat) as int,
                    );
                    assert(false);
                }
            }
            return Err(RootError::NoConvergence);
        }
        proof {
            assert(self.lower <= lo as int <= root as int <= hi as int <= self.upper && hi as int
                - lo as int <= self.epsilon && fx.f(lo as int) * fx.f(hi as int) <= 0);
        }
        Ok(root)
    }
}

} // verus!
