use vstd::prelude::*;

verus! {

/// Parks-McClellan filter design band type.
#[derive(Debug, Clone, Copy, PartialEq, Eq, Structural)]
pub enum FirPmBandType {
    /// regular band-pass filter
    Bandpass,
    /// differentiating filter
    Differentiator,
    /// Hilbert transform
    Hilbert,
}

/// Parks-McClellan filter design weight type.
#[derive(Debug, Clone, Copy, PartialEq, Eq, Structural)]
pub enum FirPmWeightType {
    /// flat weighting
    Flat,
    /// exponential weighting
    Exp,
    /// linear weighting
    Lin,
}

} // verus!
