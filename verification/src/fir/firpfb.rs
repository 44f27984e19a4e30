use vstd::prelude::*;
use core::ops::{Add, Mul};
use crate::error::{Result, config_error};
use crate::dotprod::{exact_ops, dot_spec, dot_ok, filter_output, filter_ok, dotprod, apply_scale,
    lemma_dot_coeff_prefix};
use crate::window::{Window, zeros, is_default, window_after, lemma_window_after_step, lemma_window_after_zero};

verus! {

/// Coefficients of phase `i` of a bank of `nf` filters of length `fl` built from the
/// prototype `h`, stored in reverse order: entry `j` is `h[i + (fl - 1 - j) * nf]`.
pub open spec fn pfb_phase_from<C>(h: Seq<C>, nf: int, fl: int, i: int) -> Seq<C> {
    Seq::new(fl as nat, |j: int| h[i + (fl - 1 - j) * nf])
}

/// Coefficients of an FIR polyphase filter bank; it keeps no sample history.
#[derive(Clone, Debug)]
pub struct FirPfbBank<T, Coeff = T> {
    num_filters: usize,
    filter_len: usize,
    coefficients: Vec<Coeff>,
    scale: Option<Coeff>,
    zero: T,
}

proof fn lemma_index_bound(i: int, j: int, nf: int, fl: int)
    requires
        0 <= i < nf,
        0 <= j < fl,
    ensures
        0 <= i * fl + j < nf * fl,
        i * fl + fl <= nf * fl,
        i + (fl - 1 - j) * nf < nf * fl,
        0 <= i + (fl - 1 - j) * nf,
{
    assert(i * fl + fl <= nf * fl) by (nonlinear_arith)
        requires 0 <= i < nf, 0 <= j < fl;
    assert(0 <= i * fl) by (nonlinear_arith)
        requires 0 <= i, 0 <= fl;
    assert(i + (fl - 1 - j) * nf < nf * fl) by (nonlinear_arith)
        requires 0 <= i < nf, 0 <= j < fl;
    assert(0 <= (fl - 1 - j) * nf) by (nonlinear_arith)
        requires 0 <= j < fl, 0 <= nf;
}

impl<T, Coeff> FirPfbBank<T, Coeff>
where
    T: Copy + Default + Add<Output = T> + Mul<Coeff, Output = T>,
    Coeff: Copy,
{
    pub open spec fn wf(&self) -> bool {
        &&& self.nf() > 0
        &&& self.flen() > 0
        &&& self.stored_len() == self.nf() * self.flen()
        &&& is_default(self.zero())
    }

    /// Number of coefficients stored for all phases together.
    pub closed spec fn stored_len(&self) -> nat {
        self.coefficients@.len()
    }

    /// Number of phases.
    pub closed spec fn nf(&self) -> nat {
        self.num_filters as nat
    }

    /// Number of samples each phase consumes.
    pub closed spec fn flen(&self) -> nat {
        self.filter_len as nat
    }

    /// Coefficients of phase `i`, in the order they meet the history (oldest first).
    pub closed spec fn phase(&self, i: int) -> Seq<Coeff> {
        self.coefficients@.subrange(i * self.filter_len, (i + 1) * self.filter_len)
    }

    /// The output scaling; `None` is unit gain.
    pub closed spec fn scale_value(&self) -> Option<Coeff> {
        self.scale
    }

    /// The accumulator's starting value (`T::default()`).
    pub closed spec fn zero(&self) -> T {
        self.zero
    }

    /// What `execute(i, history)` returns.
    pub open spec fn phase_output(&self, i: int, history: Seq<T>) -> T {
        filter_output(history, self.phase(i), self.zero(), self.scale_value())
    }

    pub open spec fn phase_ok(&self, i: int, history: Seq<T>) -> bool {
        filter_ok(history, self.phase(i), self.zero(), self.scale_value())
    }

    /// Creates a bank of `num_filters` phases from the prototype `h` of length
    /// `h_len`; each phase has `h_len / num_filters` coefficients.
    pub fn new(num_filters: usize, h: &[Coeff], h_len: usize) -> (r: Result<Self>)
        requires
            num_filters > 0 && h_len / num_filters > 0 ==> num_filters * (h_len / num_filters) <= h@.len(),
        ensures
            (num_filters == 0 || h_len == 0 || h_len / num_filters == 0) <==> r is Err,
            r is Err ==> r->Err_0 is Config,
            r matches Ok(b) ==> {
                &&& b.wf()
                &&& b.nf() == num_filters
                &&& b.flen() == h_len / num_filters
                &&& forall|i: int| 0 <= i < num_filters ==> #[trigger] b.phase(i)
                    == pfb_phase_from(h@, num_filters as int, (h_len / num_filters) as int, i)
                &&& b.scale_value() is None
                &&& is_default(b.zero())
            },
    {
        if num_filters == 0 {
            return Err(config_error("number of filters must be greater than zero"));
        }
        if h_len == 0 {
            return Err(config_error("filter length must be greater than zero"));
        }
        let filter_len = h_len / num_filters;
        if filter_len == 0 {
            return Err(config_error("filter length must be at least the number of filters"));
        }
        let coefficients = Self::load(num_filters, h, filter_len);
        let zero = T::default();
        Ok(FirPfbBank { num_filters, filter_len, coefficients, scale: None, zero })
    }

    /// The accumulator's starting value.
    pub fn zero_value(&self) -> (r: T)
        ensures
            r == self.zero(),
    {
        self.zero
    }

    fn load(num_filters: usize, h: &[Coeff], filter_len: usize) -> (c: Vec<Coeff>)
        requires
            num_filters > 0,
            filter_len > 0,
            num_filters * filter_len <= h@.len(),
        ensures
            c@.len() == num_filters * filter_len,
            forall|i: int| 0 <= i < num_filters ==>
                #[trigger] c@.subrange(i * filter_len, (i + 1) * filter_len)
                    == pfb_phase_from(h@, num_filters as int, filter_len as int, i),
    {
        let ghost nf = num_filters as int;
        let ghost fl = filter_len as int;
        let h_total = h.len();
        let mut c: Vec<Coeff> = Vec::new();
        let mut i: usize = 0;
        while i < num_filters
            invariant
                nf == num_filters,
                fl == filter_len,
                num_filters > 0,
                filter_len > 0,
                nf * fl <= h@.len(),
                h_total == h@.len(),
                i <= num_filters,
                c@.len() == i * filter_len,
                forall|k: int, j: int| 0 <= k < i && 0 <= j < fl ==>
                    #[trigger] c@[k * fl + j] == h@[k + (fl - 1 - j) * nf],
            decreases num_filters - i,
        {
            let mut n: usize = 0;
            while n < filter_len
                invariant
                    nf == num_filters,
                    fl == filter_len,
                    nf * fl <= h@.len(),
                    h_total == h@.len(),
                    i < num_filters,
                    n <= filter_len,
                    c@.len() == i * filter_len + n,
                    forall|k: int, j: int| 0 <= k < i && 0 <= j < fl ==>
                        #[trigger] c@[k * fl + j] == h@[k + (fl - 1 - j) * nf],
                    forall|j: int| 0 <= j < n ==>
                        #[trigger] c@[i * fl + j] == h@[i + (fl - 1 - j) * nf],
                decreases filter_len - n,
            {
                proof {
                    lemma_index_bound(i as int, n as int, nf, fl);
                    assert(i * filter_len + n < num_filters * filter_len);
                    assert(0 <= (filter_len - 1 - n) * num_filters <= h@.len()) by (nonlinear_arith)
                        requires
                            (i as int) + (fl - 1 - n) * nf < nf * fl,
                            nf * fl <= h@.len(),
                            nf == num_filters, fl == filter_len, n < filter_len,
                            0 <= (fl - 1 - n) * nf;
                }
                let idx = i + (filter_len - 1 - n) * num_filters;
                let v = h[idx];
                let ghost c0 = c@;
                c.push(v);
                proof {
                    assert forall|k: int, j: int| 0 <= k < i && 0 <= j < fl implies
                        #[trigger] c@[k * fl + j] == h@[k + (fl - 1 - j) * nf] by {
                        lemma_index_bound(k, j, i as int, fl);
                        assert(c@[k * fl + j] == c0[k * fl + j]);
                    }
                    assert forall|j: int| 0 <= j < n + 1 implies
                        #[trigger] c@[i * fl + j] == h@[i + (fl - 1 - j) * nf] by {
                        if j < n {
                            assert(c@[i * fl + j] == c0[i * fl + j]);
                        }
                    }
                }
                n = n + 1;
            }
            proof {
                assert((i + 1) * fl == i * fl + fl) by (nonlinear_arith);
            }
            i = i + 1;
        }
        proof {
            assert forall|k: int| 0 <= k < num_filters implies
                #[trigger] c@.subrange(k * filter_len, (k + 1) * filter_len)
                    == pfb_phase_from(h@, nf, fl, k) by {
                lemma_index_bound(k, 0, nf, fl);
                assert((k + 1) * fl == k * fl + fl) by (nonlinear_arith);
                assert forall|j: int| 0 <= j < fl implies
                    c@.subrange(k * fl, (k + 1) * fl)[j] == #[trigger] pfb_phase_from(h@, nf, fl, k)[j] by {
                    assert(c@[k * fl + j] == h@[k + (fl - 1 - j) * nf]);
                }
                assert(c@.subrange(k * fl, (k + 1) * fl) =~= pfb_phase_from(h@, nf, fl, k));
            }
        }
        c
    }

    /// Number of phases in the bank.
    pub fn num_filters(&self) -> (r: usize)
        ensures
            r == self.nf(),
    {
        self.num_filters
    }

    /// Number of input samples each phase consumes.
    pub fn filter_len(&self) -> (r: usize)
        ensures
            r == self.flen(),
    {
        self.filter_len
    }

    /// Sets the output scaling.
    pub fn set_scale(&mut self, scale: Coeff)
        ensures
            final(self).scale_value() == Some(scale),
            final(self).wf() == old(self).wf(),
            final(self).nf() == old(self).nf(),
            final(self).flen() == old(self).flen(),
            final(self).zero() == old(self).zero(),
            forall|i: int| #[trigger] final(self).phase(i) == old(self).phase(i),
    {
        self.scale = Some(scale);
    }

    /// The output scaling: the factor last set, or one (`Coeff::from(1u8)`)
    /// until `set_scale` was called.
    pub fn get_scale(&self) -> (r: Coeff)
        where Coeff: From<u8>,
        ensures
            crate::dotprod::scale_factor_is(self.scale_value(), r),
    {
        crate::dotprod::scale_or_one(self.scale)
    }

    /// Runs phase `i` against a history of `filter_len` samples, oldest first.
    pub fn execute(&self, i: usize, history: &[T]) -> (r: Result<T>)
        requires
            self.wf(),
            i < self.nf() ==> history@.len() == self.flen(),
            exact_ops::<T, Coeff>(),
            i < self.nf() ==> self.phase_ok(i as int, history@),
        ensures
            i < self.nf() <==> r is Ok,
            r is Err ==> r->Err_0 is Config,
            r matches Ok(y) ==> y == self.phase_output(i as int, history@),
    {
        if i >= self.num_filters {
            return Err(config_error("filterbank index exceeds the number of filters"));
        }
        let total = self.coefficients.len();
        proof {
            lemma_index_bound(i as int, 0, self.num_filters as int, self.filter_len as int);
            assert(i * self.filter_len + self.filter_len <= total);
            assert((i + 1) * self.filter_len == i * self.filter_len + self.filter_len) by (nonlinear_arith);
        }
        let start = i * self.filter_len;
        proof {
            lemma_dot_coeff_prefix(history@, self.coefficients@.skip(start as int), self.phase(i as int), self.zero);
        }
        let d = dotprod(history, self.coefficients.as_slice(), start, self.zero);
        Ok(apply_scale(d, self.scale))
    }

    /// Replaces the coefficients with those built from `h` for the same number
    /// of phases; the phase length must stay the same.
    pub fn set_coefficients(&mut self, h: &[Coeff]) -> (r: Result<()>)
        requires
            old(self).wf(),
        ensures
            (h@.len() / old(self).nf() != old(self).flen()) <==> r is Err,
            r is Err ==> r->Err_0 is Config && *final(self) == *old(self),
            r is Ok ==> {
                &&& final(self).wf()
                &&& final(self).nf() == old(self).nf()
                &&& final(self).flen() == old(self).flen()
                &&& final(self).scale_value() == old(self).scale_value()
                &&& final(self).zero() == old(self).zero()
                &&& forall|i: int| 0 <= i < old(self).nf() ==> #[trigger] final(self).phase(i)
                    == pfb_phase_from(h@, old(self).nf() as int, old(self).flen() as int, i)
            },
    {
        if h.len() / self.num_filters != self.filter_len {
            return Err(config_error("coefficient count does not match the filter bank"));
        }
        proof {
            assert(self.num_filters * (h.len() / self.num_filters) <= h.len()) by (nonlinear_arith)
                requires self.num_filters > 0;
        }
        self.coefficients = Self::load(self.num_filters, h, self.filter_len);
        Ok(())
    }
}

/// Finite impulse response (FIR) polyphase filter bank with internal history.
#[derive(Clone, Debug)]
pub struct FirPfbFilter<T, Coeff = T> {
    w: Window<T>,
    bank: FirPfbBank<T, Coeff>,
}

impl<T, Coeff> FirPfbFilter<T, Coeff>
where
    T: Copy + Default + Add<Output = T> + Mul<Coeff, Output = T>,
    Coeff: Copy,
{
    pub open spec fn wf(&self) -> bool {
        &&& self.bank_view().wf()
        &&& self.history().len() == self.bank_view().flen()
        &&& self.zero() == self.bank_view().zero()
    }

    /// The coefficient bank.
    pub closed spec fn bank_view(&self) -> FirPfbBank<T, Coeff> {
        self.bank
    }

    /// The most recent input samples, oldest first.
    pub closed spec fn history(&self) -> Seq<T> {
        self.w@
    }

    /// The value the history is cleared to.
    pub closed spec fn zero(&self) -> T {
        self.w.zero()
    }

    /// Creates a filter bank from the prototype `h` (see `FirPfbBank::new`) with a
    /// cleared history.
    pub fn new(num_filters: usize, h: &[Coeff], h_len: usize) -> (r: Result<Self>)
        requires
            num_filters > 0 && h_len / num_filters > 0 ==> num_filters * (h_len / num_filters) <= h@.len(),
        ensures
            (num_filters == 0 || h_len == 0 || h_len / num_filters == 0) <==> r is Err,
            r is Err ==> r->Err_0 is Config,
            r matches Ok(q) ==> {
                &&& q.wf()
                &&& q.bank_view().nf() == num_filters
                &&& q.bank_view().flen() == h_len / num_filters
                &&& forall|i: int| 0 <= i < num_filters ==> #[trigger] q.bank_view().phase(i)
                    == pfb_phase_from(h@, num_filters as int, (h_len / num_filters) as int, i)
                &&& q.bank_view().scale_value() is None
                &&& q.history() == zeros(q.bank_view().flen(), q.zero())
                &&& is_default(q.zero())
            },
    {
        let bank = FirPfbBank::new(num_filters, h, h_len)?;
        Self::from_bank(bank)
    }

    /// Wraps a coefficient bank with a newly cleared history; the history is
    /// filled with the bank's zero.
    pub fn from_bank(bank: FirPfbBank<T, Coeff>) -> (r: Result<Self>)
        requires
            bank.wf(),
        ensures
            r matches Ok(q) && q.wf() && q.bank_view() == bank && q.history() == zeros(bank.flen(), q.zero())
                && q.zero() == bank.zero() && is_default(q.zero()),
    {
        let w = Window::new_with(bank.filter_len(), bank.zero_value())?;
        Ok(FirPfbFilter { w, bank })
    }

    /// Clears the history.
    pub fn reset(&mut self)
        requires
            old(self).wf(),
        ensures
            final(self).wf(),
            final(self).history() == zeros(old(self).history().len(), old(self).zero()),
            final(self).zero() == old(self).zero(),
            is_default(final(self).zero()),
            final(self).bank_view() == old(self).bank_view(),
    {
        self.w.reset();
    }

    /// The coefficient bank.
    pub fn bank(&self) -> (r: &FirPfbBank<T, Coeff>)
        ensures
            *r == self.bank_view(),
    {
        &self.bank
    }

    /// The coefficient bank, for changes in place.
    pub fn bank_mut(&mut self) -> (r: &mut FirPfbBank<T, Coeff>)
        ensures
            *r == old(self).bank_view(),
            final(self).bank_view() == *final(r),
            final(self).history() == old(self).history(),
            final(self).zero() == old(self).zero(),
    {
        &mut self.bank
    }

    /// Number of phases.
    pub fn num_filters(&self) -> (r: usize)
        ensures
            r == self.bank_view().nf(),
    {
        self.bank.num_filters()
    }

    /// Number of samples retained in the history.
    pub fn filter_len(&self) -> (r: usize)
        ensures
            r == self.bank_view().flen(),
    {
        self.bank.filter_len()
    }

    /// Sets the output scaling.
    pub fn set_scale(&mut self, scale: Coeff)
        requires
            old(self).wf(),
        ensures
            final(self).wf(),
            final(self).bank_view().scale_value() == Some(scale),
            final(self).bank_view().nf() == old(self).bank_view().nf(),
            final(self).bank_view().flen() == old(self).bank_view().flen(),
            final(self).bank_view().zero() == old(self).bank_view().zero(),
            forall|i: int| #[trigger] final(self).bank_view().phase(i) == old(self).bank_view().phase(i),
            final(self).history() == old(self).history(),
            final(self).zero() == old(self).zero(),
    {
        self.bank.set_scale(scale);
    }

    /// The output scaling: the factor last set, or one (`Coeff::from(1u8)`)
    /// until `set_scale` was called.
    pub fn get_scale(&self) -> (r: Coeff)
        where Coeff: From<u8>,
        ensures
            crate::dotprod::scale_factor_is(self.bank_view().scale_value(), r),
    {
        self.bank.get_scale()
    }

    /// The value the history is cleared to (`T::default()`).
    pub(crate) fn zero_value(&self) -> (r: T)
        ensures
            r == self.zero(),
    {
        self.w.zero_value()
    }

    /// Pushes one sample into the history.
    pub fn push(&mut self, x: T)
        requires
            old(self).wf(),
        ensures
            final(self).wf(),
            final(self).history() == old(self).history().drop_first().push(x),
            final(self).zero() == old(self).zero(),
            final(self).bank_view() == old(self).bank_view(),
    {
        self.w.push(x)
    }

    /// Pushes a block of samples into the history.
    pub fn write(&mut self, x: &[T])
        requires
            old(self).wf(),
        ensures
            final(self).wf(),
            final(self).history() == window_after(old(self).history(), x@, x@.len() as int),
            final(self).zero() == old(self).zero(),
            final(self).bank_view() == old(self).bank_view(),
    {
        self.w.write(x)
    }

    /// Runs phase `i` against the history.
    pub fn execute(&self, i: usize) -> (r: Result<T>)
        requires
            self.wf(),
            exact_ops::<T, Coeff>(),
            i < self.bank_view().nf() ==> self.bank_view().phase_ok(i as int, self.history()),
        ensures
            i < self.bank_view().nf() <==> r is Ok,
            r is Err ==> r->Err_0 is Config,
            r matches Ok(y) ==> y == self.bank_view().phase_output(i as int, self.history()),
    {
        self.bank.execute(i, self.w.read())
    }

    /// Filters a block with phase `i`: `y[k]` is the phase-`i` output after
    /// `x[0..=k]` were pushed. Only `min(x.len(), y.len())` samples are used. If
    /// `i` is out of range and the block is not empty, the first sample is
    /// pushed, `y` is left as it was, and an error is returned; an empty block
    /// always succeeds.
    pub fn execute_block(&mut self, i: usize, x: &[T], y: &mut [T]) -> (r: Result<()>)
        requires
            old(self).wf(),
            exact_ops::<T, Coeff>(),
            i < old(self).bank_view().nf() ==> forall|k: int| 0 <= k < x@.len() && k < old(y)@.len() ==>
                old(self).bank_view().phase_ok(i as int, #[trigger] window_after(old(self).history(), x@, k + 1)),
        ensures
            ({
                let n = if x@.len() < old(y)@.len() { x@.len() as int } else { old(y)@.len() as int };
                &&& (i >= old(self).bank_view().nf() && n > 0) <==> r is Err
                &&& r is Err ==> {
                    &&& r->Err_0 is Config
                    &&& final(self).wf()
                    &&& final(self).bank_view() == old(self).bank_view()
                    &&& final(self).zero() == old(self).zero()
                    &&& final(self).history() == old(self).history().drop_first().push(x@[0])
                    &&& final(y)@ == old(y)@
                }
                &&& r is Ok ==> {
                    &&& final(self).wf()
                    &&& final(self).bank_view() == old(self).bank_view()
                    &&& final(self).zero() == old(self).zero()
                    &&& final(self).history() == window_after(old(self).history(), x@, n)
                    &&& final(y)@.len() == old(y)@.len()
                    &&& forall|k: int| 0 <= k < n ==> #[trigger] final(y)@[k]
                        == old(self).bank_view().phase_output(i as int, window_after(old(self).history(), x@, k + 1))
                    &&& forall|k: int| n <= k < old(y)@.len() ==> #[trigger] final(y)@[k] == old(y)@[k]
                }
            }),
    {
        let n = if x.len() < y.len() { x.len() } else { y.len() };
        if i >= self.bank.num_filters() {
            if n == 0 {
                proof { lemma_window_after_zero(self.history(), x@); }
                return Ok(());
            }
            self.push(x[0]);
            return Err(config_error("filterbank index exceeds the number of filters"));
        }
        let ghost h0 = self.history();
        proof { lemma_window_after_zero(h0, x@); }
        let mut k: usize = 0;
        while k < n
            invariant
                n <= x@.len(),
                n <= y@.len(),
                n == x@.len() || n == y@.len(),
                y@.len() == old(y)@.len(),
                k <= n,
                i < self.bank_view().nf(),
                self.wf(),
                exact_ops::<T, Coeff>(),
                h0 == old(self).history(),
                h0.len() > 0,
                self.history() == window_after(h0, x@, k as int),
                self.bank_view() == old(self).bank_view(),
                self.zero() == old(self).zero(),
                forall|j: int| 0 <= j < x@.len() && j < old(y)@.len() ==>
                    old(self).bank_view().phase_ok(i as int, #[trigger] window_after(h0, x@, j + 1)),
                forall|j: int| 0 <= j < k ==> #[trigger] y@[j]
                    == old(self).bank_view().phase_output(i as int, window_after(h0, x@, j + 1)),
                forall|j: int| k <= j < y@.len() ==> #[trigger] y@[j] == old(y)@[j],
            decreases n - k,
        {
            proof { lemma_window_after_step(h0, x@, k as int); }
            self.push(x[k]);
            proof {
                assert(self.bank_view().phase_ok(i as int, window_after(h0, x@, k + 1)));
            }
            let v = self.execute(i);
            match v {
                Ok(v) => { y[k] = v; }
                Err(_) => {}
            }
            k = k + 1;
        }
        Ok(())
    }
}

} // verus!
