use vstd::prelude::*;
use core::ops::{Add, Sub, Mul, Div};
use crate::error::{Result, config_error};
use crate::iir::iirfilt::{IirFilter, normalized_ok};
use crate::iir::iirfiltsos::iir_exact;
use crate::window::is_default;

verus! {

/// Infinite impulse response (IIR) decimation filter: every input sample is
/// filtered, and the output for the first sample of each group of `decim` is kept.
#[derive(Clone, Debug)]
pub struct IirDecimationFilter<T, Coeff = T> {
    decimation_factor: usize,
    iirfilt: IirFilter<T, Coeff>,
}

impl<T, Coeff> IirDecimationFilter<T, Coeff>
where
    T: Copy + Default + Add<Output = T> + Sub<Output = T> + Mul<Coeff, Output = T>,
    Coeff: Copy + Default + Mul<T, Output = T> + Div<Output = Coeff>,
{
    pub open spec fn wf(&self) -> bool {
        &&& self.filter().wf()
        &&& self.decim() >= 2
    }

    /// Decimation factor.
    pub closed spec fn decim(&self) -> nat {
        self.decimation_factor as nat
    }

    /// The underlying IIR filter.
    pub closed spec fn filter(&self) -> IirFilter<T, Coeff> {
        self.iirfilt
    }

    /// Creates a decimator by `decimation_factor` (at least 2) around the
    /// transfer-function filter `b / a` (see `IirFilter::new`).
    pub fn new(decimation_factor: usize, numerator_coefficients: &[Coeff], denominator_coefficients: &[Coeff]) -> (r: Result<Self>)
        requires
            denominator_coefficients@.len() > 0 ==>
                normalized_ok(numerator_coefficients@, denominator_coefficients@[0])
                && normalized_ok(denominator_coefficients@, denominator_coefficients@[0]),
        ensures
            (decimation_factor < 2 || numerator_coefficients@.len() == 0 || denominator_coefficients@.len() == 0) <==> r is Err,
            r is Err ==> r->Err_0 is Config,
            r matches Ok(q) ==> q.wf() && q.decim() == decimation_factor
                && q.filter().created_from(numerator_coefficients@, denominator_coefficients@),
    {
        if decimation_factor < 2 {
            return Err(config_error("decimation factor must be greater than 1"));
        }
        let iirfilt = IirFilter::new(numerator_coefficients, denominator_coefficients)?;
        Ok(IirDecimationFilter { decimation_factor, iirfilt })
    }

    /// Creates a decimator by `decimation_factor` (at least 2) around an existing
    /// filter, such as one designed from a prototype.
    pub fn with_filter(decimation_factor: usize, filter: IirFilter<T, Coeff>) -> (r: Result<Self>)
        requires
            filter.wf(),
        ensures
            decimation_factor < 2 <==> r is Err,
            r is Err ==> r->Err_0 is Config,
            r matches Ok(q) ==> q.wf() && q.decim() == decimation_factor && q.filter() == filter,
    {
        if decimation_factor < 2 {
            return Err(config_error("decimation factor must be greater than 1"));
        }
        Ok(IirDecimationFilter { decimation_factor, iirfilt: filter })
    }

    /// Clears the filter state.
    pub fn reset(&mut self)
        requires
            old(self).wf(),
        ensures
            final(self).wf(),
            final(self).decim() == old(self).decim(),
            final(self).filter().same_config(&old(self).filter()),
            !old(self).filter().is_sos() ==> final(self).filter().model().v
                == crate::window::zeros(old(self).filter().length(), old(self).filter().zero()),
            old(self).filter().is_sos() ==> final(self).filter().sections_cleared(),
            is_default(final(self).filter().zero()),
    {
        self.iirfilt.reset();
    }

    /// Filters all of `input` and returns the output for `input[0]` (or
    /// `T::default()` if `input` is empty).
    pub fn execute(&mut self, input: &[T]) -> (y: T)
        requires
            old(self).wf(),
            iir_exact::<T, Coeff>(),
            forall|k: int| 0 <= k < input@.len() ==> old(self).filter().step_ok(
                #[trigger] old(self).filter().run(old(self).filter().model(), input@, k as nat), input@[k]),
        ensures
            final(self).wf(),
            final(self).decim() == old(self).decim(),
            final(self).filter().same_config(&old(self).filter()),
            final(self).filter().model() == old(self).filter().run(old(self).filter().model(), input@, input@.len()),
            input@.len() > 0 ==> y == old(self).filter().step(old(self).filter().model(), input@[0]).1,
            input@.len() == 0 ==> is_default(y),
    {
        proof {
            assert(input@.skip(0) =~= input@);
            assert forall|k: int| 0 <= k < input@.len() implies old(self).filter().step_ok(
                #[trigger] old(self).filter().run(old(self).filter().model(), input@.skip(0), (k - 0) as nat), input@[k]) by {
                assert(old(self).filter().step_ok(old(self).filter().run(old(self).filter().model(), input@, k as nat), input@[k]));
            }
        }
        self.execute_at(input, 0, input.len())
    }

    fn execute_at(&mut self, input: &[T], start: usize, end: usize) -> (y: T)
        requires
            old(self).wf(),
            iir_exact::<T, Coeff>(),
            start <= end <= input@.len(),
            forall|k: int| start <= k < end ==> old(self).filter().step_ok(
                #[trigger] old(self).filter().run(old(self).filter().model(), input@.skip(start as int), (k - start) as nat), input@[k]),
        ensures
            final(self).wf(),
            final(self).decim() == old(self).decim(),
            final(self).filter().same_config(&old(self).filter()),
            final(self).filter().model() == old(self).filter().run(old(self).filter().model(), input@.skip(start as int), (end - start) as nat),
            start < end ==> y == old(self).filter().step(old(self).filter().model(), input@[start as int]).1,
            start == end ==> is_default(y),
    {
        let ghost f0 = self.iirfilt;
        let ghost xs = input@.skip(start as int);
        let mut y = T::default();
        let mut i: usize = start;
        while i < end
            invariant
                start <= i <= end,
                end <= input@.len(),
                xs == input@.skip(start as int),
                f0 == old(self).filter(),
                self.decim() == old(self).decim(),
                self.wf(),
                iir_exact::<T, Coeff>(),
                self.filter().same_config(&f0),
                self.filter().model() == f0.run(f0.model(), xs, (i - start) as nat),
                forall|k: int| start <= k < end ==> f0.step_ok(#[trigger] f0.run(f0.model(), xs, (k - start) as nat), input@[k]),
                i > start ==> y == f0.step(f0.model(), input@[start as int]).1,
                i == start ==> is_default(y),
            decreases end - i,
        {
            proof {
                let ki = i as int;
                assert(f0.step_ok(f0.run(f0.model(), xs, (ki - start) as nat), input@[ki]));
                assert(xs[ki - start] == input@[ki]);
                assert(self.filter().step_ok(self.filter().model(), input@[ki]) == f0.step_ok(self.filter().model(), input@[ki]));
                assert(self.filter().step(self.filter().model(), input@[ki]) == f0.step(self.filter().model(), input@[ki]));
            }
            let v = self.iirfilt.execute(input[i]);
            if i == start {
                y = v;
            }
            proof {
                assert(f0.run(f0.model(), xs, (i + 1 - start) as nat) == f0.step(f0.run(f0.model(), xs, (i - start) as nat), xs[i - start]).0);
            }
            i = i + 1;
        }
        y
    }

    /// Decimates a block: input is taken in groups of `decim` samples (the last
    /// group may be shorter); `output[g]` is the filter output for the first sample
    /// of group `g`.
    pub fn execute_block(&mut self, input: &[T], output: &mut [T])
        requires
            old(self).wf(),
            iir_exact::<T, Coeff>(),
            old(output)@.len() * old(self).decim() >= input@.len(),
            forall|k: int| 0 <= k < input@.len() ==> old(self).filter().step_ok(
                #[trigger] old(self).filter().run(old(self).filter().model(), input@, k as nat), input@[k]),
        ensures
            final(self).wf(),
            final(self).decim() == old(self).decim(),
            final(self).filter().same_config(&old(self).filter()),
            final(self).filter().model() == old(self).filter().run(old(self).filter().model(), input@, input@.len()),
            final(output)@.len() == old(output)@.len(),
            forall|g: int| 0 <= g && g * old(self).decim() < input@.len() ==> #[trigger] final(output)@[g]
                == old(self).filter().step(old(self).filter().run(old(self).filter().model(), input@,
                    (g * old(self).decim()) as nat), input@[g * old(self).decim()]).1,
    {
        let ghost f0 = self.iirfilt;
        let ghost m0 = f0.model();
        let ghost d = self.decimation_factor as int;
        let df = self.decimation_factor;
        let len = input.len();
        let olen = output.len();
        let mut g: usize = 0;
        let mut start: usize = 0;
        while start < len
            invariant
                df == d,
                d >= 2,
                len == input@.len(),
                olen == output@.len(),
                output@.len() == old(output)@.len(),
                olen * d >= len,
                start <= len,
                start < len ==> start == g * d,
                start == len ==> g * d >= len,
                f0 == old(self).filter(),
                m0 == f0.model(),
                self.decim() == old(self).decim(),
                d == old(self).decim(),
                self.wf(),
                iir_exact::<T, Coeff>(),
                self.filter().same_config(&f0),
                self.filter().model() == f0.run(m0, input@, start as nat),
                forall|k: int| 0 <= k < len ==> f0.step_ok(#[trigger] f0.run(m0, input@, k as nat), input@[k]),
                forall|h: int| 0 <= h < g && h * d < len ==> #[trigger] output@[h]
                    == f0.step(f0.run(m0, input@, (h * d) as nat), input@[h * d]).1,
            decreases len - start,
        {
            let rem = len - start;
            let end = if rem <= df { len } else { start + df };
            let ghost fc = self.iirfilt;
            proof {
                assert(g < olen) by (nonlinear_arith) requires start == g * d, start < len, olen * d >= len, d >= 2;
                assert forall|k: int| start <= k < end implies fc.step_ok(
                    #[trigger] fc.run(fc.model(), input@.skip(start as int), (k - start) as nat), input@[k]) by {
                    lemma_run_shift(f0, m0, input@, start as nat, (k - start) as nat);
                    lemma_run_same_config(fc, f0, fc.model(), input@.skip(start as int), (k - start) as nat);
                    assert(f0.step_ok(f0.run(m0, input@, k as nat), input@[k]));
                    lemma_step_same_config(fc, f0, f0.run(m0, input@, k as nat), input@[k]);
                }
                lemma_run_shift(f0, m0, input@, start as nat, (end - start) as nat);
                lemma_run_same_config(fc, f0, fc.model(), input@.skip(start as int), (end - start) as nat);
                lemma_step_same_config(fc, f0, fc.model(), input@[start as int]);
            }
            let y = self.execute_at(input, start, end);
            output[g] = y;
            proof {
                assert((g + 1) * d == g * d + d) by (nonlinear_arith);
            }
            g = g + 1;
            start = end;
        }
        proof {
            assert forall|h: int| 0 <= h && h * d < len implies #[trigger] output@[h]
                == f0.step(f0.run(m0, input@, (h * d) as nat), input@[h * d]).1 by {
                assert(h < g) by (nonlinear_arith) requires h * d < len, g * d >= len, d >= 2;
            }
        }
    }
}

/// `run` and `step` depend only on the configuration.
pub proof fn lemma_step_same_config<T, Coeff>(f: IirFilter<T, Coeff>, g: IirFilter<T, Coeff>, m: crate::iir::iirfilt::IirModel<T, Coeff>, x: T)
    where
        T: Copy + Default + Add<Output = T> + Sub<Output = T> + Mul<Coeff, Output = T>,
        Coeff: Copy + Default + Mul<T, Output = T> + Div<Output = Coeff>,
    requires
        f.same_config(&g),
    ensures
        f.step(m, x) == g.step(m, x),
        f.step_ok(m, x) == g.step_ok(m, x),
{
}

pub proof fn lemma_run_same_config<T, Coeff>(f: IirFilter<T, Coeff>, g: IirFilter<T, Coeff>, m: crate::iir::iirfilt::IirModel<T, Coeff>, xs: Seq<T>, k: nat)
    where
        T: Copy + Default + Add<Output = T> + Sub<Output = T> + Mul<Coeff, Output = T>,
        Coeff: Copy + Default + Mul<T, Output = T> + Div<Output = Coeff>,
    requires
        f.same_config(&g),
    ensures
        f.run(m, xs, k) == g.run(m, xs, k),
    decreases k,
{
    if k > 0 {
        lemma_run_same_config(f, g, m, xs, (k - 1) as nat);
        lemma_step_same_config(f, g, f.run(m, xs, (k - 1) as nat), xs[k - 1]);
    }
}

/// Running `j` steps on `xs[s..]` after `s` steps on `xs` is running `s + j` steps on `xs`.
pub proof fn lemma_run_shift<T, Coeff>(f: IirFilter<T, Coeff>, m: crate::iir::iirfilt::IirModel<T, Coeff>, xs: Seq<T>, s: nat, j: nat)
    where
        T: Copy + Default + Add<Output = T> + Sub<Output = T> + Mul<Coeff, Output = T>,
        Coeff: Copy + Default + Mul<T, Output = T> + Div<Output = Coeff>,
    requires
        s + j <= xs.len(),
    ensures
        f.run(f.run(m, xs, s), xs.skip(s as int), j) == f.run(m, xs, s + j),
    decreases j,
{
    if j > 0 {
        lemma_run_shift(f, m, xs, s, (j - 1) as nat);
        assert(xs.skip(s as int)[j - 1] == xs[s + j - 1]);
    }
}

} // verus!
