//! Catalogue of the analyses a harness can run against the curve model.

use vstd::prelude::*;

verus! {

/// Available analyses.
#[derive(Clone, Copy, Debug, PartialEq, Eq, Structural)]
pub enum Analysis {
    TradingFunction(TradingFunctionSubtype),
}

/// Specific analysis to conduct on Trading Function analysis class.
#[derive(Clone, Copy, Debug, PartialEq, Eq, Structural)]
pub enum TradingFunctionSubtype {
    Error,
    Curve,
}

impl Default for TradingFunctionSubtype {
    /// The error analysis is the default subtype.
    fn default() -> (r: Self)
        ensures
            r == TradingFunctionSubtype::Error,
    {
        TradingFunctionSubtype::Error
    }
}

} // verus!
