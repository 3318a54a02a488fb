//! Fixed-point analysis library for a normal-distribution trading function.
//!
//! The library models an automated market maker whose trading function is
//! built from the cumulative distribution of the standard normal
//! distribution. Reserves, prices and volatilities are carried as signed
//! fixed-point numbers with a decimal scale, so that every computation is
//! exact integer arithmetic with a proved contract.

pub mod analysis;
pub mod arbitrage;
pub mod bisection;
pub mod fixed;
pub mod math;
pub mod normal;
