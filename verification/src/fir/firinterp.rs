use vstd::prelude::*;
use core::ops::{Add, Mul};
use crate::error::{Result, config_error};
use crate::dotprod::{exact_ops, absorbing, lemma_filter_output_zeros};
use crate::window::{zeros, is_default, window_after, pushed, lemma_write_is_pushes, lemma_window_after_zeros, lemma_window_after_step, lemma_window_after_zero};
use crate::fir::firpfb::{FirPfbBank, FirPfbFilter, pfb_phase_from};

verus! {

/// Smallest `s` with `interp * s >= h_len`.
pub open spec fn sub_len_for(h_len: int, interp: int) -> int {
    if h_len % interp == 0 { h_len / interp } else { h_len / interp + 1 }
}

/// Finite impulse response (FIR) interpolator: every input sample yields
/// `interp` output samples, one per phase of a polyphase filter bank.
#[derive(Clone)]
pub struct FirInterpolationFilter<T, Coeff = T> {
    h_sub_len: usize,
    interpolation_factor: usize,
    filterbank: FirPfbFilter<T, Coeff>,
    prototype: Ghost<Seq<Coeff>>,
}

impl<T, Coeff> FirInterpolationFilter<T, Coeff>
where
    T: Copy + Default + Add<Output = T> + Mul<Coeff, Output = T>,
    Coeff: Copy + Default,
{
    pub open spec fn wf(&self) -> bool {
        &&& self.bank_view().wf()
        &&& self.history().len() == self.bank_view().flen()
        &&& self.zero() == self.bank_view().zero()
        &&& self.interp() == self.bank_view().nf()
        &&& self.sub_len() == self.bank_view().flen()
        &&& self.interp() >= 2
    }

    /// Interpolation factor.
    pub closed spec fn interp(&self) -> nat {
        self.interpolation_factor as nat
    }

    /// Length of each polyphase sub-filter.
    pub closed spec fn sub_len(&self) -> nat {
        self.h_sub_len as nat
    }

    /// The zero-padded prototype the bank was built from.
    pub closed spec fn prototype(&self) -> Seq<Coeff> {
        self.prototype@
    }

    /// The coefficient bank.
    pub closed spec fn bank_view(&self) -> FirPfbBank<T, Coeff> {
        self.filterbank.bank_view()
    }

    /// The most recent input samples, oldest first.
    pub closed spec fn history(&self) -> Seq<T> {
        self.filterbank.history()
    }

    /// The value the history is cleared to.
    pub closed spec fn zero(&self) -> T {
        self.filterbank.zero()
    }

    /// All phases can be evaluated on the history `hist`.
    pub open spec fn outputs_ok(&self, hist: Seq<T>) -> bool {
        forall|i: int| 0 <= i < self.interp() ==> #[trigger] self.bank_view().phase_ok(i, hist)
    }

    /// Flushing empties the interpolator: `k >= sub_len()` successive flushes
    /// from any state leave a history holding only the zero, and when the zero
    /// absorbs products and sums (0 for the integer types) every phase then
    /// outputs the zero.
    pub proof fn lemma_flushes_clear(&self, k: nat)
        requires
            self.wf(),
            k >= self.sub_len(),
        ensures
            pushed(self.history(), zeros(k, self.zero()), k) == zeros(self.sub_len(), self.zero()),
            absorbing::<T, Coeff>(self.zero()) ==> forall|i: int| 0 <= i < self.interp() ==>
                #[trigger] self.bank_view().phase_output(i, zeros(self.sub_len(), self.zero())) == self.zero(),
    {
        lemma_write_is_pushes(self.history(), zeros(k, self.zero()), k);
        lemma_window_after_zeros(self.history(), self.zero(), k);
        if absorbing::<T, Coeff>(self.zero()) {
            assert forall|i: int| 0 <= i < self.interp() implies
                #[trigger] self.bank_view().phase_output(i, zeros(self.sub_len(), self.zero())) == self.zero() by {
                lemma_filter_output_zeros(self.sub_len(), self.bank_view().phase(i), self.zero(),
                    self.bank_view().scale_value());
            }
        }
    }

    /// Creates an interpolator from the first `h_len` coefficients of `h`; when
    /// `h_len` is not a multiple of `interp` the prototype is padded with
    /// `Coeff::default()` up to the next multiple.
    pub fn new(interp: usize, h: &[Coeff], h_len: usize) -> (r: Result<Self>)
        requires
            interp >= 2 && h_len >= interp ==> h_len <= h@.len() && h_len + interp <= usize::MAX,
        ensures
            (interp < 2 || h_len < interp) <==> r is Err,
            r is Err ==> r->Err_0 is Config,
            r matches Ok(q) ==> {
                &&& q.wf()
                &&& q.interp() == interp
                &&& q.sub_len() == sub_len_for(h_len as int, interp as int)
                &&& q.prototype().len() == interp * q.sub_len()
                &&& q.prototype().take(h_len as int) == h@.take(h_len as int)
                &&& forall|i: int, j: int| h_len <= i < q.prototype().len() && h_len <= j < q.prototype().len()
                    ==> #[trigger] q.prototype()[i] == #[trigger] q.prototype()[j]
                &&& forall|i: int| h_len <= i < q.prototype().len() ==> is_default(#[trigger] q.prototype()[i])
                &&& forall|i: int| 0 <= i < interp ==> #[trigger] q.bank_view().phase(i)
                    == pfb_phase_from(q.prototype(), interp as int, q.sub_len() as int, i)
                &&& q.bank_view().scale_value() is None
                &&& q.history() == zeros(q.sub_len(), q.zero())
                &&& is_default(q.zero())
            },
    {
        if interp < 2 {
            return Err(config_error("interp factor must be greater than 1"));
        }
        if h_len < interp {
            return Err(config_error("filter length cannot be less than interp factor"));
        }
        let mut h_sub_len: usize = h_len / interp;
        if h_len % interp != 0 {
            h_sub_len = h_sub_len + 1;
        }
        proof {
            assert(interp * (h_len / interp) + h_len % interp == h_len) by (nonlinear_arith)
                requires interp > 0;
            assert(interp * h_sub_len >= h_len && interp * h_sub_len < h_len + interp) by (nonlinear_arith)
                requires
                    interp > 0,
                    interp * (h_len / interp) + h_len % interp == h_len,
                    0 <= h_len % interp < interp,
                    h_sub_len == (if h_len % interp == 0 { (h_len / interp) as int } else { h_len / interp + 1 });
        }
        let h_len_padded = interp * h_sub_len;
        let pad = Coeff::default();
        let mut h_padded: Vec<Coeff> = Vec::new();
        let mut i: usize = 0;
        while i < h_len_padded
            invariant
                h_len <= h@.len(),
                h_len <= h_len_padded,
                i <= h_len_padded,
                h_padded@.len() == i,
                forall|k: int| 0 <= k < i && k < h_len ==> #[trigger] h_padded@[k] == h@[k],
                forall|k: int| h_len <= k < i ==> #[trigger] h_padded@[k] == pad,
            decreases h_len_padded - i,
        {
            if i < h_len {
                h_padded.push(h[i]);
            } else {
                h_padded.push(pad);
            }
            i = i + 1;
        }
        proof {
            assert(h_padded@.take(h_len as int) =~= h@.take(h_len as int));
            assert(h_len_padded / interp == h_sub_len) by (nonlinear_arith)
                requires h_len_padded == interp * h_sub_len, interp > 0;
            assert(h_sub_len > 0) by (nonlinear_arith)
                requires interp * h_sub_len >= h_len, h_len >= interp, interp > 0;
        }
        let filterbank = FirPfbFilter::new(interp, h_padded.as_slice(), h_len_padded);
        match filterbank {
            Ok(filterbank) => Ok(FirInterpolationFilter {
                h_sub_len,
                interpolation_factor: interp,
                filterbank,
                prototype: Ghost(h_padded@),
            }),
            Err(e) => Err(e),
        }
    }

    /// Clears the history.
    pub fn reset(&mut self)
        requires
            old(self).wf(),
        ensures
            final(self).wf(),
            final(self).history() == zeros(old(self).history().len(), old(self).zero()),
            final(self).zero() == old(self).zero(),
            is_default(final(self).zero()),
            final(self).bank_view() == old(self).bank_view(),
            final(self).interp() == old(self).interp(),
            final(self).sub_len() == old(self).sub_len(),
            final(self).prototype() == old(self).prototype(),
    {
        self.filterbank.reset()
    }

    /// Interpolation factor.
    pub fn get_interp_rate(&self) -> (r: usize)
        ensures
            r == self.interp(),
    {
        self.interpolation_factor
    }

    /// Length of each polyphase sub-filter.
    pub fn get_sub_len(&self) -> (r: usize)
        ensures
            r == self.sub_len(),
    {
        self.h_sub_len
    }

    /// Sets the output scaling.
    pub fn set_scale(&mut self, scale: Coeff)
        requires
            old(self).wf(),
        ensures
            final(self).wf(),
            final(self).bank_view().scale_value() == Some(scale),
            final(self).bank_view().nf() == old(self).bank_view().nf(),
            final(self).bank_view().flen() == old(self).bank_view().flen(),
            final(self).bank_view().zero() == old(self).bank_view().zero(),
            forall|i: int| #[trigger] final(self).bank_view().phase(i) == old(self).bank_view().phase(i),
            final(self).history() == old(self).history(),
            final(self).zero() == old(self).zero(),
            final(self).interp() == old(self).interp(),
            final(self).sub_len() == old(self).sub_len(),
            final(self).prototype() == old(self).prototype(),
    {
        self.filterbank.set_scale(scale)
    }

    /// The output scaling: the factor last set, or one (`Coeff::from(1u8)`)
    /// until `set_scale` was called.
    pub fn get_scale(&self) -> (r: Coeff)
        where Coeff: From<u8>,
        ensures
            crate::dotprod::scale_factor_is(self.bank_view().scale_value(), r),
    {
        self.filterbank.get_scale()
    }

    /// Pushes `x` and writes the `interp` outputs `y[i]` (phase `i`) for it.
    pub fn execute(&mut self, x: T, y: &mut [T]) -> (r: Result<()>)
        requires
            old(self).wf(),
            exact_ops::<T, Coeff>(),
            old(y)@.len() >= old(self).interp(),
            old(self).outputs_ok(old(self).history().drop_first().push(x)),
        ensures
            r is Ok,
            final(self).wf(),
            final(self).history() == old(self).history().drop_first().push(x),
            final(self).bank_view() == old(self).bank_view(),
            final(self).zero() == old(self).zero(),
            final(self).interp() == old(self).interp(),
            final(self).sub_len() == old(self).sub_len(),
            final(self).prototype() == old(self).prototype(),
            final(y)@.len() == old(y)@.len(),
            forall|i: int| 0 <= i < old(self).interp() ==>
                #[trigger] final(y)@[i] == old(self).bank_view().phase_output(i, final(self).history()),
            forall|i: int| old(self).interp() <= i < old(y)@.len() ==> #[trigger] final(y)@[i] == old(y)@[i],
    {
        self.execute_at(x, y, 0);
        proof {
            assert forall|i: int| 0 <= i < old(self).interp() implies
                #[trigger] y@[i] == old(self).bank_view().phase_output(i, self.history()) by {
                assert(y@[0 + i] == y@[i]);
            }
        }
        Ok(())
    }

    fn execute_at(&mut self, x: T, y: &mut [T], offset: usize)
        requires
            old(self).wf(),
            exact_ops::<T, Coeff>(),
            offset + old(self).interp() <= old(y)@.len(),
            old(self).outputs_ok(old(self).history().drop_first().push(x)),
        ensures
            final(self).wf(),
            final(self).history() == old(self).history().drop_first().push(x),
            final(self).bank_view() == old(self).bank_view(),
            final(self).zero() == old(self).zero(),
            final(self).interp() == old(self).interp(),
            final(self).sub_len() == old(self).sub_len(),
            final(self).prototype() == old(self).prototype(),
            final(y)@.len() == old(y)@.len(),
            forall|i: int| 0 <= i < old(self).interp() ==>
                #[trigger] final(y)@[offset + i] == old(self).bank_view().phase_output(i, final(self).history()),
            forall|i: int| 0 <= i < old(y)@.len() && !(offset <= i < offset + old(self).interp()) ==>
                #[trigger] final(y)@[i] == old(y)@[i],
    {
        self.filterbank.push(x);
        let n = self.interpolation_factor;
        let ylen = y.len();
        let mut i: usize = 0;
        while i < n
            invariant
                n == self.interp(),
                self.wf(),
                exact_ops::<T, Coeff>(),
                i <= n,
                offset + n <= y@.len(),
                ylen == y@.len(),
                y@.len() == old(y)@.len(),
                self.history() == old(self).history().drop_first().push(x),
                self.bank_view() == old(self).bank_view(),
                self.zero() == old(self).zero(),
                self.interp() == old(self).interp(),
                self.sub_len() == old(self).sub_len(),
                self.prototype() == old(self).prototype(),
                old(self).outputs_ok(self.history()),
                forall|k: int| 0 <= k < i ==>
                    #[trigger] y@[offset + k] == old(self).bank_view().phase_output(k, self.history()),
                forall|k: int| 0 <= k < y@.len() && !(offset <= k < offset + i) ==> #[trigger] y@[k] == old(y)@[k],
            decreases n - i,
        {
            proof { assert(self.bank_view().phase_ok(i as int, self.history())); }
            let v = self.filterbank.execute(i);
            if let Ok(v) = v {
                y[offset + i] = v;
            }
            i = i + 1;
        }
    }

    /// Interpolates a block: input `x[k]` yields `y[k*interp .. (k+1)*interp]`,
    /// phase `i` at `y[k*interp + i]`.
    pub fn execute_block(&mut self, x: &[T], y: &mut [T]) -> (r: Result<()>)
        requires
            old(self).wf(),
            exact_ops::<T, Coeff>(),
            x@.len() * old(self).interp() <= old(y)@.len(),
            forall|k: int| 0 <= k < x@.len() ==>
                old(self).outputs_ok(#[trigger] window_after(old(self).history(), x@, k + 1)),
        ensures
            r is Ok,
            final(self).wf(),
            final(self).history() == window_after(old(self).history(), x@, x@.len() as int),
            final(self).bank_view() == old(self).bank_view(),
            final(self).zero() == old(self).zero(),
            final(self).interp() == old(self).interp(),
            final(self).sub_len() == old(self).sub_len(),
            final(self).prototype() == old(self).prototype(),
            final(y)@.len() == old(y)@.len(),
            forall|k: int, i: int| 0 <= k < x@.len() && 0 <= i < old(self).interp() ==>
                #[trigger] final(y)@[k * old(self).interp() + i] == old(self).bank_view().phase_output(i,
                    window_after(old(self).history(), x@, k + 1)),
            forall|j: int| x@.len() * old(self).interp() <= j < old(y)@.len() ==> #[trigger] final(y)@[j] == old(y)@[j],
    {
        let ghost h0 = self.history();
        let ghost m = self.interp() as int;
        proof { lemma_window_after_zero(h0, x@); }
        let l = self.interpolation_factor;
        let ylen = y.len();
        let mut k: usize = 0;
        while k < x.len()
            invariant
                l == m,
                m == old(self).interp(),
                m >= 2,
                self.wf(),
                exact_ops::<T, Coeff>(),
                k <= x@.len(),
                x@.len() * m <= y@.len(),
                ylen == y@.len(),
                y@.len() == old(y)@.len(),
                h0 == old(self).history(),
                h0.len() > 0,
                self.history() == window_after(h0, x@, k as int),
                self.bank_view() == old(self).bank_view(),
                self.zero() == old(self).zero(),
                self.interp() == old(self).interp(),
                self.sub_len() == old(self).sub_len(),
                self.prototype() == old(self).prototype(),
                forall|j: int| 0 <= j < x@.len() ==>
                    old(self).outputs_ok(#[trigger] window_after(h0, x@, j + 1)),
                forall|j: int, i: int| 0 <= j < k && 0 <= i < m ==>
                    #[trigger] y@[j * m + i] == old(self).bank_view().phase_output(i, window_after(h0, x@, j + 1)),
                forall|j: int| k * m <= j < y@.len() ==> #[trigger] y@[j] == old(y)@[j],
            decreases x@.len() - k,
        {
            proof {
                lemma_window_after_step(h0, x@, k as int);
                assert(old(self).outputs_ok(window_after(h0, x@, k + 1)));
                assert((k + 1) * m <= x@.len() * m) by (nonlinear_arith)
                    requires k < x@.len(), m >= 0;
                assert((k + 1) * m == k * m + m) by (nonlinear_arith);
            }
            let ghost y0 = y@;
            self.execute_at(x[k], y, k * l);
            proof {
                assert forall|j: int, i: int| 0 <= j < k + 1 && 0 <= i < m implies
                    #[trigger] y@[j * m + i] == old(self).bank_view().phase_output(i, window_after(h0, x@, j + 1)) by {
                    if j < k {
                        assert(j * m + i < k * m) by (nonlinear_arith)
                            requires j < k, 0 <= i < m, m >= 0;
                        assert(0 <= j * m) by (nonlinear_arith) requires 0 <= j, m >= 0;
                        assert(y@[j * m + i] == y0[j * m + i]);
                    }
                }
            }
            k = k + 1;
        }
        Ok(())
    }

    /// Runs the interpolator on a zero (`T::default()`) input sample: `execute`
    /// with `zero()`.
    pub fn flush(&mut self, y: &mut [T]) -> (r: Result<()>)
        requires
            old(self).wf(),
            exact_ops::<T, Coeff>(),
            old(y)@.len() >= old(self).interp(),
            old(self).outputs_ok(old(self).history().drop_first().push(old(self).zero())),
        ensures
            r is Ok,
            final(self).wf(),
            final(self).history() == old(self).history().drop_first().push(old(self).zero()),
            final(self).bank_view() == old(self).bank_view(),
            final(self).zero() == old(self).zero(),
            final(self).interp() == old(self).interp(),
            final(self).sub_len() == old(self).sub_len(),
            final(self).prototype() == old(self).prototype(),
            final(y)@.len() == old(y)@.len(),
            forall|i: int| 0 <= i < old(self).interp() ==>
                #[trigger] final(y)@[i] == old(self).bank_view().phase_output(i, final(self).history()),
            forall|i: int| old(self).interp() <= i < old(y)@.len() ==> #[trigger] final(y)@[i] == old(y)@[i],
    {
        let z = self.filterbank.zero_value();
        self.execute(z, y)
    }
}

} // verus!
