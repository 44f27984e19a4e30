use vstd::prelude::*;
use core::ops::{Add, Sub, Mul, Div};
use crate::error::{Result, config_error};
use crate::iir::iirfilt::{IirFilter, normalized_ok};
use crate::iir::iirfiltsos::iir_exact;
use crate::iir::iirinterp;

verus! {

/// Infinite impulse response (IIR) interpolation filter with descriptive
/// parameter names; it behaves as `iirinterp::IirInterpolationFilter`.
#[derive(Clone, Debug)]
pub struct IirInterpolationFilter<T, Coeff = T> {
    inner: iirinterp::IirInterpolationFilter<T, Coeff>,
}

impl<T, Coeff> IirInterpolationFilter<T, Coeff>
where
    T: Copy + Default + Add<Output = T> + Sub<Output = T> + Mul<Coeff, Output = T>,
    Coeff: Copy + Default + Mul<T, Output = T> + Div<Output = Coeff>,
{
    pub open spec fn wf(&self) -> bool {
        self.base().wf()
    }

    /// The interpolator this one behaves as.
    pub closed spec fn base(&self) -> iirinterp::IirInterpolationFilter<T, Coeff> {
        self.inner
    }

    /// Interpolation factor.
    pub open spec fn interp(&self) -> nat {
        self.base().interp()
    }

    /// The underlying IIR filter.
    pub open spec fn filter(&self) -> IirFilter<T, Coeff> {
        self.base().filter()
    }

    /// Creates an interpolator by `interpolation_factor` (at least 2) around the
    /// transfer-function filter given by its numerator and denominator
    /// coefficients (see `IirFilter::new`).
    pub fn new(interpolation_factor: usize, numerator_coefficients: &[Coeff], denominator_coefficients: &[Coeff]) -> (r: Result<Self>)
        requires
            denominator_coefficients@.len() > 0 ==>
                normalized_ok(numerator_coefficients@, denominator_coefficients@[0])
                && normalized_ok(denominator_coefficients@, denominator_coefficients@[0]),
        ensures
            (interpolation_factor < 2 || numerator_coefficients@.len() == 0 || denominator_coefficients@.len() == 0) <==> r is Err,
            r is Err ==> r->Err_0 is Config,
            r matches Ok(q) ==> q.wf() && q.interp() == interpolation_factor
                && q.filter().created_from(numerator_coefficients@, denominator_coefficients@),
    {
        if interpolation_factor < 2 {
            return Err(config_error("interpolation factor must be greater than 1"));
        }
        let inner = iirinterp::IirInterpolationFilter::new(interpolation_factor, numerator_coefficients, denominator_coefficients)?;
        Ok(IirInterpolationFilter { inner })
    }

    /// Creates an interpolator by `interpolation_factor` (at least 2) around an
    /// existing filter, such as one designed from a prototype and scaled by the
    /// interpolation factor.
    pub fn with_filter(interpolation_factor: usize, filter: IirFilter<T, Coeff>) -> (r: Result<Self>)
        requires
            filter.wf(),
        ensures
            interpolation_factor < 2 <==> r is Err,
            r is Err ==> r->Err_0 is Config,
            r matches Ok(q) ==> q.wf() && q.interp() == interpolation_factor && q.filter() == filter,
    {
        if interpolation_factor < 2 {
            return Err(config_error("interpolation factor must be greater than 1"));
        }
        let inner = iirinterp::IirInterpolationFilter::with_filter(interpolation_factor, filter)?;
        Ok(IirInterpolationFilter { inner })
    }

    /// Clears the filter state.
    pub fn reset(&mut self)
        requires
            old(self).wf(),
        ensures
            final(self).wf(),
            final(self).interp() == old(self).interp(),
            final(self).filter().same_config(&old(self).filter()),
            !old(self).filter().is_sos() ==> final(self).filter().model().v
                == crate::window::zeros(old(self).filter().length(), old(self).filter().zero()),
            old(self).filter().is_sos() ==> final(self).filter().sections_cleared(),
            crate::window::is_default(final(self).filter().zero()),
    {
        self.inner.reset();
    }

    /// Interpolates one sample: `output[j]` is the filter output for `input` when
    /// `j == 0` and for a zero otherwise. Fails, changing nothing, unless
    /// `output` holds exactly `interp` samples.
    pub fn execute(&mut self, input: T, output: &mut [T]) -> (r: Result<()>)
        requires
            old(self).wf(),
            iir_exact::<T, Coeff>(),
            old(self).base().run_ok(seq![input]),
        ensures
            old(output)@.len() != old(self).interp() <==> r is Err,
            r is Err ==> r->Err_0 is Config && *final(self) == *old(self) && final(output)@ == old(output)@,
            r is Ok ==> {
                &&& final(self).wf()
                &&& final(self).interp() == old(self).interp()
                &&& final(self).filter().same_config(&old(self).filter())
                &&& final(self).filter().model() == old(self).filter().run(
                    old(self).filter().model(), old(self).base().stream(seq![input]), old(self).interp())
                &&& final(output)@.len() == old(output)@.len()
                &&& forall|j: int| 0 <= j < old(self).interp() ==>
                    #[trigger] final(output)@[j] == old(self).base().output_at(seq![input], j)
            },
    {
        self.inner.execute(input, output)
    }

    /// Interpolates a block: `output[k]` is the filter output for position `k` of
    /// the stream of `input`. Fails, changing nothing, unless `output` holds
    /// exactly `input.len() * interp` samples.
    pub fn execute_block(&mut self, input: &[T], output: &mut [T]) -> (r: Result<()>)
        requires
            old(self).wf(),
            iir_exact::<T, Coeff>(),
            input@.len() * old(self).interp() <= usize::MAX,
            old(self).base().run_ok(input@),
        ensures
            old(output)@.len() != input@.len() * old(self).interp() <==> r is Err,
            r is Err ==> r->Err_0 is Config && *final(self) == *old(self) && final(output)@ == old(output)@,
            r is Ok ==> {
                &&& final(self).wf()
                &&& final(self).interp() == old(self).interp()
                &&& final(self).filter().same_config(&old(self).filter())
                &&& final(self).filter().model() == old(self).filter().run(
                    old(self).filter().model(), old(self).base().stream(input@), input@.len() * old(self).interp())
                &&& final(output)@.len() == old(output)@.len()
                &&& forall|k: int| 0 <= k < old(output)@.len() ==>
                    #[trigger] final(output)@[k] == old(self).base().output_at(input@, k)
            },
    {
        self.inner.execute_block(input, output)
    }
}

} // verus!
