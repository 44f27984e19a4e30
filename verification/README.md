# dsp_filter

Digital filters with machine-checked contracts: finite and infinite impulse
response filters, polyphase filter banks, interpolators and decimators,
half-band, multi-stage half-band and rational resamplers, and order-statistic
(median) filters.

The filter objects are generic over the sample type `T` and the coefficient
type `Coeff`. Each operation's contract states its result as a function of the
coefficients, the sample history and the object's zero value, the value that
`T::default()` returns (0 for the integer types). The output values are
proved for sample and coefficient types whose arithmetic the verifier models
exactly (the primitive integer types). The same code runs with floating-point
and complex samples, but for those types the contracts do not state the output
values. Derived `Clone` impls carry no contract.

Layout:

- `src/` — the verified library (Verus). `fir/` holds the FIR filter, the
  polyphase bank and filter, the interpolator and the decimator, and the
  filter shape names; `iir/` the second-order section, the IIR filter, its
  decimator and interpolators and the IIR design enumerations; `resampler/`
  the half-band, multi-stage half-band and rational resamplers; `ordfilt.rs`
  the order-statistic filter; `window.rs` the sliding sample window;
  `dotprod.rs` the dot product the filters are built on; `math.rs` the
  greatest common divisor.
- `app/` — floating-point designs (Kaiser-windowed sinc, Butterworth and
  Chebyshev type II prototypes) and the constructors built on them, which
  hand the designed coefficients to the verified constructors.
- `tests/` — scenario tests, run against the compiled library.
