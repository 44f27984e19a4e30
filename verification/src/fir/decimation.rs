use vstd::prelude::*;
use core::ops::{Add, Mul};
use crate::error::{Result, config_error, range_error};
use crate::dotprod::{exact_ops, dotprod, apply_scale};
use crate::window::{is_default, Window, zeros, window_after, lemma_window_after_step, lemma_window_after_zero};
use crate::fir::firfilt::{FirFilter, fir_output, fir_ok, reversed, copied};

verus! {

/// Finite impulse response (FIR) decimation filter: every `decim` input samples
/// yield one output, computed when the first of them enters the history.
#[derive(Clone, Debug)]
pub struct FirDecimationFilter<T, Coeff = T> {
    h: Vec<Coeff>,
    h_rev: Vec<Coeff>,
    decimation_factor: usize,
    w: Window<T>,
    scale: Option<Coeff>,
}

impl<T, Coeff> FirDecimationFilter<T, Coeff>
where
    T: Copy + Default + Add<Output = T> + Mul<Coeff, Output = T>,
    Coeff: Copy,
{
    pub closed spec fn wf(&self) -> bool {
        &&& self.h@.len() > 0
        &&& self.h_rev@ == crate::dotprod::rev(self.h@)
        &&& self.w@.len() == self.h@.len()
        &&& self.decimation_factor > 0
        &&& is_default(self.w.zero())
    }

    /// The zero of any decimator in a valid state is a value `T::default()`
    /// returns.
    pub proof fn lemma_zero_is_default(&self)
        requires
            self.wf(),
        ensures
            is_default(self.zero()),
    {
    }

    /// The filter coefficients.
    pub closed spec fn coefficients(&self) -> Seq<Coeff> {
        self.h@
    }

    /// Decimation factor.
    pub closed spec fn decim(&self) -> nat {
        self.decimation_factor as nat
    }

    /// The most recent input samples, oldest first.
    pub closed spec fn history(&self) -> Seq<T> {
        self.w@
    }

    /// The value the history is cleared to.
    pub closed spec fn zero(&self) -> T {
        self.w.zero()
    }

    /// The output scaling; `None` is unit gain.
    pub closed spec fn scale_value(&self) -> Option<Coeff> {
        self.scale
    }

    /// Output produced for history `hist`.
    pub open spec fn output_for(&self, hist: Seq<T>) -> T {
        fir_output(hist, self.coefficients(), self.zero(), self.scale_value())
    }

    pub open spec fn output_ok_for(&self, hist: Seq<T>) -> bool {
        fir_ok(hist, self.coefficients(), self.zero(), self.scale_value())
    }

    /// Output `j` of a block run from history `h0` on input `x`.
    pub open spec fn block_output(&self, h0: Seq<T>, x: Seq<T>, j: int) -> T {
        self.output_for(window_after(h0, x, j * self.decim() + 1))
    }

    /// Creates a decimator with the given coefficients, a cleared history and unit gain.
    pub fn new(decimation_factor: usize, coefficients: &[Coeff]) -> (r: Result<Self>)
        ensures
            (coefficients@.len() == 0 || decimation_factor == 0) <==> r is Err,
            r is Err ==> r->Err_0 is Config,
            r matches Ok(q) ==> {
                &&& q.wf()
                &&& q.coefficients() == coefficients@
                &&& q.decim() == decimation_factor
                &&& q.history() == zeros(coefficients@.len(), q.zero())
                &&& is_default(q.zero())
                &&& q.scale_value() is None
            },
    {
        if coefficients.len() == 0 {
            return Err(config_error("filter length must be greater than zero"));
        }
        if decimation_factor == 0 {
            return Err(config_error("decimation factor must be greater than zero"));
        }
        let w = Window::new(coefficients.len())?;
        Ok(FirDecimationFilter {
            h: copied(coefficients),
            h_rev: reversed(coefficients),
            decimation_factor,
            w,
            scale: None,
        })
    }

    /// Clears the history.
    pub fn reset(&mut self)
        requires
            old(self).wf(),
        ensures
            final(self).wf(),
            final(self).history() == zeros(old(self).history().len(), old(self).zero()),
            final(self).zero() == old(self).zero(),
            is_default(final(self).zero()),
            final(self).coefficients() == old(self).coefficients(),
            final(self).decim() == old(self).decim(),
            final(self).scale_value() == old(self).scale_value(),
    {
        self.w.reset();
    }

    /// Decimation factor.
    pub fn decim_rate(&self) -> (r: usize)
        ensures
            r == self.decim(),
    {
        self.decimation_factor
    }

    /// Sets the output scaling.
    pub fn set_scale(&mut self, scale: Coeff)
        requires
            old(self).wf(),
        ensures
            final(self).wf(),
            final(self).scale_value() == Some(scale),
            final(self).history() == old(self).history(),
            final(self).zero() == old(self).zero(),
            final(self).coefficients() == old(self).coefficients(),
            final(self).decim() == old(self).decim(),
    {
        self.scale = Some(scale);
    }

    /// The output scaling: the factor last set, or one (`Coeff::from(1u8)`)
    /// until `set_scale` was called.
    pub fn scale(&self) -> (r: Coeff)
        where Coeff: From<u8>,
        ensures
            crate::dotprod::scale_factor_is(self.scale_value(), r),
    {
        crate::dotprod::scale_or_one(self.scale)
    }

    /// Consumes `input[0..decim]` and returns one output: the filter output right
    /// after `input[0]` entered the history.
    pub fn execute(&mut self, input: &[T]) -> (r: Result<T>)
        requires
            old(self).wf(),
            exact_ops::<T, Coeff>(),
            input@.len() >= old(self).decim(),
            old(self).output_ok_for(window_after(old(self).history(), input@, 1)),
        ensures
            r matches Ok(y) && y == old(self).output_for(window_after(old(self).history(), input@, 1)),
            final(self).wf(),
            final(self).history() == window_after(old(self).history(), input@, old(self).decim() as int),
            final(self).zero() == old(self).zero(),
            final(self).coefficients() == old(self).coefficients(),
            final(self).decim() == old(self).decim(),
            final(self).scale_value() == old(self).scale_value(),
    {
        proof {
            assert(input@.skip(0) =~= input@);
        }
        let y = self.execute_at(input, 0);
        Ok(y)
    }

    fn execute_at(&mut self, input: &[T], start: usize) -> (y: T)
        requires
            old(self).wf(),
            exact_ops::<T, Coeff>(),
            start + old(self).decim() <= input@.len(),
            old(self).output_ok_for(window_after(old(self).history(), input@.skip(start as int), 1)),
        ensures
            y == old(self).output_for(window_after(old(self).history(), input@.skip(start as int), 1)),
            final(self).wf(),
            final(self).history() == window_after(old(self).history(), input@.skip(start as int), old(self).decim() as int),
            final(self).zero() == old(self).zero(),
            final(self).coefficients() == old(self).coefficients(),
            final(self).decim() == old(self).decim(),
            final(self).scale_value() == old(self).scale_value(),
    {
        let ghost xs = input@.skip(start as int);
        let ghost h0 = self.w@;
        proof { lemma_window_after_zero(h0, xs); }
        let mut y = T::default();
        let mut i: usize = 0;
        while i < self.decimation_factor
            invariant
                self.wf(),
                exact_ops::<T, Coeff>(),
                start + self.decimation_factor <= input@.len(),
                xs == input@.skip(start as int),
                h0 == old(self).history(),
                h0.len() > 0,
                i <= self.decimation_factor,
                self.w@ == window_after(h0, xs, i as int),
                self.zero() == old(self).zero(),
                self.coefficients() == old(self).coefficients(),
                self.decim() == old(self).decim(),
                self.scale_value() == old(self).scale_value(),
                old(self).output_ok_for(window_after(h0, xs, 1)),
                i > 0 ==> y == old(self).output_for(window_after(h0, xs, 1)),
            decreases self.decimation_factor - i,
        {
            proof { lemma_window_after_step(h0, xs, i as int); }
            self.w.push(input[start + i]);
            if i == 0 {
                let r = self.w.read();
                proof { assert(self.h_rev@.skip(0) =~= self.h_rev@); }
                let d = dotprod(r, self.h_rev.as_slice(), 0, self.w.zero_value());
                y = apply_scale(d, self.scale);
            }
            i = i + 1;
        }
        y
    }

    /// Decimates `n` groups of `decim` samples from `input` into `output[0..n]` and
    /// returns `n`. `output[j]` is the filter output right after `input[j*decim]`
    /// entered the history. Fails, changing nothing, when `n * decim` overflows
    /// (`Range`) or either buffer is too short (`Config`).
    pub fn execute_block(&mut self, input: &[T], n: usize, output: &mut [T]) -> (r: Result<usize>)
        requires
            old(self).wf(),
            exact_ops::<T, Coeff>(),
            forall|j: int| 0 <= j < n ==>
                old(self).output_ok_for(#[trigger] window_after(old(self).history(), input@, j * old(self).decim() + 1)),
        ensures
            n * old(self).decim() > usize::MAX ==> (r is Err && r->Err_0 is Range),
            n * old(self).decim() <= usize::MAX ==>
                (r is Err <==> (input@.len() < n * old(self).decim() || old(output)@.len() < n)),
            r is Err ==> *final(self) == *old(self) && final(output)@ == old(output)@,
            r is Err && n * old(self).decim() <= usize::MAX ==> r->Err_0 is Config,
            r matches Ok(k) ==> {
                &&& k == n
                &&& final(self).wf()
                &&& final(self).history() == window_after(old(self).history(), input@, n * old(self).decim())
                &&& final(self).zero() == old(self).zero()
                &&& final(self).coefficients() == old(self).coefficients()
                &&& final(self).decim() == old(self).decim()
                &&& final(self).scale_value() == old(self).scale_value()
                &&& final(output)@.len() == old(output)@.len()
                &&& forall|j: int| 0 <= j < n ==> #[trigger] final(output)@[j]
                    == old(self).block_output(old(self).history(), input@, j)
                &&& forall|j: int| n <= j < old(output)@.len() ==> #[trigger] final(output)@[j] == old(output)@[j]
            },
    {
        let input_len = match n.checked_mul(self.decimation_factor) {
            Some(v) => v,
            None => { return Err(range_error("decimator input length overflow")); }
        };
        if input.len() < input_len {
            return Err(config_error("input length is shorter than n times the decimation factor"));
        }
        if output.len() < n {
            return Err(config_error("output length is shorter than n"));
        }
        let ghost h0 = self.history();
        let ghost d = self.decim() as int;
        proof { lemma_window_after_zero(h0, input@); }
        let df = self.decimation_factor;
        let mut j: usize = 0;
        while j < n
            invariant
                df == d,
                d > 0,
                d == old(self).decim(),
                input_len == n * d,
                input_len <= input@.len(),
                n <= output@.len(),
                output@.len() == old(output)@.len(),
                j <= n,
                self.wf(),
                exact_ops::<T, Coeff>(),
                h0 == old(self).history(),
                h0.len() > 0,
                self.history() == window_after(h0, input@, j * d),
                self.zero() == old(self).zero(),
                self.coefficients() == old(self).coefficients(),
                self.decim() == old(self).decim(),
                self.scale_value() == old(self).scale_value(),
                forall|k: int| 0 <= k < n ==>
                    old(self).output_ok_for(#[trigger] window_after(h0, input@, k * d + 1)),
                forall|k: int| 0 <= k < j ==> #[trigger] output@[k] == old(self).block_output(h0, input@, k),
                forall|k: int| j <= k < output@.len() ==> #[trigger] output@[k] == old(output)@[k],
            decreases n - j,
        {
            proof {
                assert((j + 1) * d <= n * d) by (nonlinear_arith) requires j < n, d > 0;
                assert((j + 1) * d == j * d + d) by (nonlinear_arith);
                lemma_window_after_shift(h0, input@, j * d, d);
                lemma_window_after_shift(h0, input@, j * d, 1);
                assert(old(self).output_ok_for(window_after(h0, input@, j * d + 1)));
            }
            let y = self.execute_at(input, j * df);
            output[j] = y;
            j = j + 1;
        }
        Ok(n)
    }
}

/// A decimator outputs what a FIR filter with the same coefficients, history,
/// zero and scale outputs for the first sample of each group of `decim`: output
/// `j` of a decimated block is output `j * decim` of the filtered block.
pub proof fn lemma_decimation_samples_filter<T, Coeff>(d: FirDecimationFilter<T, Coeff>, f: FirFilter<T, Coeff>, x: Seq<T>, j: int)
    where
        T: Copy + Default + Add<Output = T> + Mul<Coeff, Output = T>,
        Coeff: Copy,
    requires
        d.coefficients() == f.coefficients(),
        d.history() == f.history(),
        d.zero() == f.zero(),
        d.scale_value() == f.scale_value(),
        0 <= j,
    ensures
        d.block_output(d.history(), x, j) == fir_output(window_after(f.history(), x, j * d.decim() + 1),
            f.coefficients(), f.zero(), f.scale_value()),
{
}

/// Pushing `xs[s..s+k]` after `xs[..s]` is pushing `xs[..s+k]`.
pub proof fn lemma_window_after_shift<T>(h: Seq<T>, xs: Seq<T>, s: int, k: int)
    requires
        0 <= s,
        0 <= k,
        s + k <= xs.len(),
    ensures
        window_after(window_after(h, xs, s), xs.skip(s), k) == window_after(h, xs, s + k),
{
    assert(xs.skip(s).take(k) =~= xs.subrange(s, s + k));
    assert(xs.take(s + k) =~= xs.take(s) + xs.subrange(s, s + k));
    let a = h + xs.take(s);
    assert(window_after(window_after(h, xs, s), xs.skip(s), k) =~= (a.skip(s) + xs.subrange(s, s + k)).skip(k));
    assert((a.skip(s) + xs.subrange(s, s + k)).skip(k) =~= (a + xs.subrange(s, s + k)).skip(s + k));
    assert(a + xs.subrange(s, s + k) =~= h + xs.take(s + k));
}

} // verus!
