use vstd::prelude::*;

verus! {

/// Parks-McClellan filter design weight type.
#[derive(Debug, Clone, Copy, PartialEq, Eq, Structural)]
pub enum FirPmWeightType {
    /// flat weighting
    Flat,
    /// exponential weighting
    Exp,
    /// linear weighting
    Lin,
}

} // verus!
