use vstd::prelude::*;

verus! {

/// IIR filter design shape.
#[derive(Debug, Clone, Copy, PartialEq, Eq, Structural)]
pub enum IirFilterShape {
    Butter,
    Cheby1,
    Cheby2,
    Ellip,
    Bessel,
}

/// IIR filter band type.
#[derive(Debug, Clone, Copy, PartialEq, Eq, Structural)]
pub enum IirBandType {
    Lowpass,
    Highpass,
    Bandpass,
    Bandstop,
}

/// IIR filter format.
#[derive(Debug, Clone, Copy, PartialEq, Eq, Structural)]
pub enum IirFormat {
    TransferFunction,
    SecondOrderSections,
}

} // verus!
