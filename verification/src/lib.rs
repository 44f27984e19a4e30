//! Finite and infinite impulse response filters, polyphase filter banks,
//! interpolators, decimators, resamplers and order-statistic filters over
//! generic sample and coefficient types.
use vstd::prelude::*;

pub mod error;
pub mod dotprod;
pub mod window;
pub mod math;
pub mod fir;
pub mod resampler;
pub mod iir;
pub mod ordfilt;

verus! {
} // verus!
