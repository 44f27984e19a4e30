use vstd::prelude::*;
use core::ops::{Add, Mul};
use crate::error::Result;
use crate::dotprod::exact_ops;
use crate::window::{zeros, is_default, window_after};
use crate::fir::firpfb::{FirPfbBank, FirPfbFilter, pfb_phase_from};

verus! {

/// Finite impulse response (FIR) polyphase filter with internal sample history.
#[derive(Clone, Debug)]
pub struct FirPolyphaseFilter<T, Coeff = T> {
    pfb: FirPfbFilter<T, Coeff>,
}

impl<T, Coeff> FirPolyphaseFilter<T, Coeff>
where
    T: Copy + Default + Add<Output = T> + Mul<Coeff, Output = T>,
    Coeff: Copy,
{
    pub open spec fn wf(&self) -> bool {
        &&& self.bank_view().wf()
        &&& self.history().len() == self.bank_view().flen()
        &&& self.zero() == self.bank_view().zero()
    }

    /// The coefficient bank.
    pub closed spec fn bank_view(&self) -> FirPfbBank<T, Coeff> {
        self.pfb.bank_view()
    }

    /// The most recent input samples, oldest first.
    pub closed spec fn history(&self) -> Seq<T> {
        self.pfb.history()
    }

    /// The value the history is cleared to.
    pub closed spec fn zero(&self) -> T {
        self.pfb.zero()
    }

    /// Creates a polyphase filter of `num_filters` phases from all of `coefficients`.
    pub fn new(num_filters: usize, coefficients: &[Coeff]) -> (r: Result<Self>)
        ensures
            (num_filters == 0 || (coefficients@.len() as int) / (num_filters as int) == 0) <==> r is Err,
            r is Err ==> r->Err_0 is Config,
            r matches Ok(q) ==> {
                let fl = (coefficients@.len() as int) / (num_filters as int);
                &&& q.wf()
                &&& q.bank_view().nf() == num_filters
                &&& q.bank_view().flen() == fl
                &&& forall|i: int| 0 <= i < num_filters ==> #[trigger] q.bank_view().phase(i)
                    == pfb_phase_from(coefficients@, num_filters as int, fl, i)
                &&& q.bank_view().scale_value() is None
                &&& q.history() == zeros(q.bank_view().flen(), q.zero())
                &&& is_default(q.zero())
            },
    {
        proof {
            if num_filters > 0 {
                assert(num_filters * ((coefficients@.len() as int) / (num_filters as int)) <= coefficients@.len())
                    by (nonlinear_arith) requires num_filters > 0;
            }
        }
        let pfb = FirPfbFilter::new(num_filters, coefficients, coefficients.len())?;
        Ok(FirPolyphaseFilter { pfb })
    }

    /// Wraps a coefficient bank with a newly cleared history.
    pub fn from_bank(bank: FirPfbBank<T, Coeff>) -> (r: Result<Self>)
        requires
            bank.wf(),
        ensures
            r matches Ok(q) && q.wf() && q.bank_view() == bank && q.history() == zeros(bank.flen(), q.zero())
                && q.zero() == bank.zero() && is_default(q.zero()),
    {
        let pfb = FirPfbFilter::from_bank(bank)?;
        Ok(FirPolyphaseFilter { pfb })
    }

    /// Clears the history.
    pub fn reset(&mut self)
        requires
            old(self).wf(),
        ensures
            final(self).wf(),
            final(self).history() == zeros(old(self).history().len(), old(self).zero()),
            final(self).zero() == old(self).zero(),
            is_default(final(self).zero()),
            final(self).bank_view() == old(self).bank_view(),
    {
        self.pfb.reset();
    }

    /// The coefficient bank.
    pub fn bank(&self) -> (r: &FirPfbBank<T, Coeff>)
        ensures
            *r == self.bank_view(),
    {
        self.pfb.bank()
    }

    /// The coefficient bank, for changes in place.
    pub fn bank_mut(&mut self) -> (r: &mut FirPfbBank<T, Coeff>)
        ensures
            *r == old(self).bank_view(),
            final(self).bank_view() == *final(r),
            final(self).history() == old(self).history(),
            final(self).zero() == old(self).zero(),
    {
        self.pfb.bank_mut()
    }

    /// Number of phases.
    pub fn num_filters(&self) -> (r: usize)
        ensures
            r == self.bank_view().nf(),
    {
        self.pfb.num_filters()
    }

    /// Number of samples retained in the history.
    pub fn filter_len(&self) -> (r: usize)
        ensures
            r == self.bank_view().flen(),
    {
        self.pfb.filter_len()
    }

    /// Replaces the coefficients without clearing the history; the phase length
    /// must stay the same, otherwise nothing changes.
    pub fn set_coefficients(&mut self, coefficients: &[Coeff]) -> (r: Result<()>)
        requires
            old(self).wf(),
        ensures
            (coefficients@.len() / old(self).bank_view().nf() != old(self).bank_view().flen()) <==> r is Err,
            r is Err ==> r->Err_0 is Config && *final(self) == *old(self),
            r is Ok ==> {
                &&& final(self).wf()
                &&& final(self).history() == old(self).history()
                &&& final(self).zero() == old(self).zero()
                &&& final(self).bank_view().nf() == old(self).bank_view().nf()
                &&& final(self).bank_view().flen() == old(self).bank_view().flen()
                &&& final(self).bank_view().scale_value() == old(self).bank_view().scale_value()
                &&& final(self).bank_view().zero() == old(self).bank_view().zero()
                &&& forall|i: int| 0 <= i < old(self).bank_view().nf() ==> #[trigger] final(self).bank_view().phase(i)
                    == pfb_phase_from(coefficients@, old(self).bank_view().nf() as int,
                        old(self).bank_view().flen() as int, i)
            },
    {
        if coefficients.len() / self.pfb.num_filters() != self.pfb.filter_len() {
            return Err(crate::error::config_error("coefficient count does not match the filter bank"));
        }
        let b = self.pfb.bank_mut();
        b.set_coefficients(coefficients)
    }

    /// Sets the output scaling.
    pub fn set_scale(&mut self, scale: Coeff)
        requires
            old(self).wf(),
        ensures
            final(self).wf(),
            final(self).bank_view().scale_value() == Some(scale),
            final(self).bank_view().nf() == old(self).bank_view().nf(),
            final(self).bank_view().flen() == old(self).bank_view().flen(),
            final(self).bank_view().zero() == old(self).bank_view().zero(),
            forall|i: int| #[trigger] final(self).bank_view().phase(i) == old(self).bank_view().phase(i),
            final(self).history() == old(self).history(),
            final(self).zero() == old(self).zero(),
    {
        self.pfb.set_scale(scale);
    }

    /// The output scaling: the factor last set, or one (`Coeff::from(1u8)`)
    /// until `set_scale` was called.
    pub fn scale(&self) -> (r: Coeff)
        where Coeff: From<u8>,
        ensures
            crate::dotprod::scale_factor_is(self.bank_view().scale_value(), r),
    {
        self.pfb.get_scale()
    }

    /// Pushes one input sample into the history.
    pub fn push(&mut self, input: T)
        requires
            old(self).wf(),
        ensures
            final(self).wf(),
            final(self).history() == old(self).history().drop_first().push(input),
            final(self).zero() == old(self).zero(),
            final(self).bank_view() == old(self).bank_view(),
    {
        self.pfb.push(input)
    }

    /// Pushes a block of input samples into the history.
    pub fn write(&mut self, input: &[T])
        requires
            old(self).wf(),
        ensures
            final(self).wf(),
            final(self).history() == window_after(old(self).history(), input@, input@.len() as int),
            final(self).zero() == old(self).zero(),
            final(self).bank_view() == old(self).bank_view(),
    {
        self.pfb.write(input)
    }

    /// Runs phase `phase` against the history.
    pub fn execute(&self, phase: usize) -> (r: Result<T>)
        requires
            self.wf(),
            exact_ops::<T, Coeff>(),
            phase < self.bank_view().nf() ==> self.bank_view().phase_ok(phase as int, self.history()),
        ensures
            phase < self.bank_view().nf() <==> r is Ok,
            r is Err ==> r->Err_0 is Config,
            r matches Ok(y) ==> y == self.bank_view().phase_output(phase as int, self.history()),
    {
        self.pfb.execute(phase)
    }

    /// Filters a block with one phase: `output[k]` is the output after
    /// `input[0..=k]` were pushed, for `k < min(input.len(), output.len())`.
    pub fn execute_block(&mut self, phase: usize, input: &[T], output: &mut [T]) -> (r: Result<()>)
        requires
            old(self).wf(),
            exact_ops::<T, Coeff>(),
            phase < old(self).bank_view().nf() ==> forall|k: int| 0 <= k < input@.len() && k < old(output)@.len() ==>
                old(self).bank_view().phase_ok(phase as int, #[trigger] window_after(old(self).history(), input@, k + 1)),
        ensures
            phase < old(self).bank_view().nf() <==> r is Ok,
            r is Err ==> r->Err_0 is Config && *final(self) == *old(self) && final(output)@ == old(output)@,
            r is Ok ==> ({
                let n = if input@.len() < old(output)@.len() { input@.len() as int } else { old(output)@.len() as int };
                &&& final(self).wf()
                &&& final(self).bank_view() == old(self).bank_view()
                &&& final(self).zero() == old(self).zero()
                &&& final(self).history() == window_after(old(self).history(), input@, n)
                &&& final(output)@.len() == old(output)@.len()
                &&& forall|k: int| 0 <= k < n ==> #[trigger] final(output)@[k]
                    == old(self).bank_view().phase_output(phase as int, window_after(old(self).history(), input@, k + 1))
                &&& forall|k: int| n <= k < old(output)@.len() ==> #[trigger] final(output)@[k] == old(output)@[k]
            }),
    {
        if phase >= self.pfb.num_filters() {
            return Err(crate::error::config_error("filterbank index exceeds the number of filters"));
        }
        self.pfb.execute_block(phase, input, output)
    }
}

} // verus!
