use vstd::prelude::*;
use vstd::std_specs::ops::MulSpec;
use vstd::std_specs::convert::FromSpec;
use core::ops::{Add, Mul};
use crate::error::{Result, config_error};
use crate::dotprod::{exact_ops, rev, dot_spec, dot_ok, filter_output, filter_ok, dotprod, apply_scale};
use crate::window::{Window, zeros, is_default, window_after, lemma_window_after_step, lemma_window_after_zero};

verus! {

/// Finite impulse response (FIR) filter.
///
/// The output is the dot product of the most recent `len` input samples
/// (oldest first) with the coefficients in reverse order, times the output
/// scale: `y[n] = scale * sum_k h[k] * x[n - k]`.
#[derive(Debug, Clone)]
pub struct FirFilter<T, Coeff = T> {
    h: Vec<Coeff>,
    h_rev: Vec<Coeff>,
    h_len: usize,
    w: Window<T>,
    scale: Option<Coeff>,
}

/// Copies `h` in reverse order.
pub fn reversed<C: Copy>(h: &[C]) -> (r: Vec<C>)
    ensures
        r@ == rev(h@),
{
    let n = h.len();
    let mut r: Vec<C> = Vec::new();
    let mut i: usize = 0;
    while i < n
        invariant
            n == h@.len(),
            i <= n,
            r@.len() == i,
            forall|j: int| 0 <= j < i ==> r@[j] == h@[n - 1 - j],
        decreases n - i,
    {
        r.push(h[n - 1 - i]);
        i = i + 1;
    }
    assert(r@ =~= rev(h@));
    r
}

/// Copies `h` into a new vector.
pub fn copied<C: Copy>(h: &[C]) -> (r: Vec<C>)
    ensures
        r@ == h@,
{
    let mut r: Vec<C> = Vec::new();
    let mut i: usize = 0;
    while i < h.len()
        invariant
            i <= h.len(),
            r@ == h@.take(i as int),
        decreases h.len() - i,
    {
        r.push(h[i]);
        i = i + 1;
        assert(r@ =~= h@.take(i as int));
    }
    assert(h@.take(h.len() as int) =~= h@);
    r
}

/// Output of a FIR filter with coefficients `h` whose history is `hist`.
pub open spec fn fir_output<T, C>(hist: Seq<T>, h: Seq<C>, zero: T, scale: Option<C>) -> T
    where T: Add<Output = T> + Mul<C, Output = T>,
{
    filter_output(hist, rev(h), zero, scale)
}

pub open spec fn fir_ok<T, C>(hist: Seq<T>, h: Seq<C>, zero: T, scale: Option<C>) -> bool
    where T: Add<Output = T> + Mul<C, Output = T>,
{
    filter_ok(hist, rev(h), zero, scale)
}

/// Unit impulse of `m` samples: a one followed by `m - 1` zeros.
pub open spec fn impulse(m: nat) -> Seq<i64> {
    Seq::new(m, |i: int| if i == 0 { 1i64 } else { 0i64 })
}

/// Dot product of a sequence that is one at `p` and zero elsewhere: the first
/// `m` terms sum to `c[p]` once `p` is among them, and to zero before.
pub(crate) proof fn lemma_dot_single(w: Seq<i64>, c: Seq<i64>, p: int, m: int)
    requires
        w.len() == c.len(),
        0 <= p < w.len(),
        0 <= m <= w.len(),
        forall|j: int| 0 <= j < w.len() ==> #[trigger] w[j] == if j == p { 1i64 } else { 0i64 },
    ensures
        dot_ok(w.take(m), c, 0i64),
        dot_spec(w.take(m), c, 0i64) == if m > p { c[p] } else { 0i64 },
    decreases m,
{
    if m > 0 {
        lemma_dot_single(w, c, p, m - 1);
        assert(w.take(m).take(m - 1) =~= w.take(m - 1));
        assert(w.take(m)[m - 1] == w[m - 1]);
    }
}

/// Impulse response: from a cleared history (all zeros) and unit gain, the
/// output after sample `k` of a unit impulse is the coefficient `h[k]`, and no
/// step overflows.
pub proof fn lemma_fir_impulse_response(h: Seq<i64>, k: int)
    requires
        0 <= k < h.len(),
    ensures
        fir_ok(window_after(zeros(h.len(), 0i64), impulse((k + 1) as nat), k + 1), h, 0i64, None),
        fir_output(window_after(zeros(h.len(), 0i64), impulse((k + 1) as nat), k + 1), h, 0i64, None) == h[k],
{
    let n = h.len() as int;
    let w = window_after(zeros(h.len(), 0i64), impulse((k + 1) as nat), k + 1);
    let p = n - 1 - k;
    assert(impulse((k + 1) as nat).take(k + 1) =~= impulse((k + 1) as nat));
    assert forall|j: int| 0 <= j < w.len() implies #[trigger] w[j] == if j == p { 1i64 } else { 0i64 } by {
        let a = zeros(h.len(), 0i64) + impulse((k + 1) as nat);
        assert(w[j] == a[j + k + 1]);
    }
    assert(w.len() == n);
    lemma_dot_single(w, rev(h), p, n);
    assert(w.take(n) =~= w);
}

impl<T, Coeff> FirFilter<T, Coeff>
where
    T: Copy + Default + Add<Output = T> + Mul<Coeff, Output = T>,
    Coeff: Copy,
{
    /// A filter ready to run: `shaped()`, with at least one coefficient and a
    /// history of one sample per coefficient.
    pub closed spec fn wf(&self) -> bool {
        &&& self.shaped()
        &&& self.h_len > 0
        &&& self.w@.len() == self.h_len
    }

    /// The state `set_coefficients` needs: the reversed coefficients match the
    /// coefficients, the history is not empty and its zero is a `T::default()`
    /// value. A filter whose coefficients were replaced by an empty set is
    /// `shaped()` but not `wf()`.
    pub closed spec fn shaped(&self) -> bool {
        &&& self.h_len == self.h@.len()
        &&& self.h_rev@ == rev(self.h@)
        &&& self.w@.len() > 0
        &&& self.h_len > 0 ==> self.w@.len() == self.h_len
        &&& is_default(self.w.zero())
    }

    /// The zero of any filter in a valid state is a value `T::default()`
    /// returns.
    pub proof fn lemma_zero_is_default(&self)
        requires
            self.wf() || self.shaped(),
        ensures
            is_default(self.zero()),
    {
    }

    /// The filter coefficients.
    pub closed spec fn coefficients(&self) -> Seq<Coeff> {
        self.h@
    }

    /// The most recent input samples, oldest first.
    pub closed spec fn history(&self) -> Seq<T> {
        self.w@
    }

    /// The value the history is cleared to.
    pub closed spec fn zero(&self) -> T {
        self.w.zero()
    }

    /// The output scaling; `None` is unit gain.
    pub closed spec fn scale_value(&self) -> Option<Coeff> {
        self.scale
    }

    /// What `execute` returns in the current state.
    pub open spec fn output(&self) -> T {
        fir_output(self.history(), self.coefficients(), self.zero(), self.scale_value())
    }

    pub open spec fn output_ok(&self) -> bool {
        fir_ok(self.history(), self.coefficients(), self.zero(), self.scale_value())
    }

    /// Creates a filter with the coefficients `h`, a cleared history and unit gain.
    pub fn new(h: &[Coeff]) -> (r: Result<Self>)
        ensures
            h@.len() == 0 <==> r is Err,
            r is Err ==> r->Err_0 is Config,
            r matches Ok(q) ==> {
                &&& q.wf()
                &&& q.coefficients() == h@
                &&& q.history() == zeros(h@.len(), q.zero())
                &&& is_default(q.zero())
                &&& q.scale_value() is None
            },
    {
        let h_len = h.len();
        if h_len == 0 {
            return Err(config_error("filter length must be greater than zero"));
        }
        let h_rev = reversed(h);
        let w = Window::new(h_len)?;
        Ok(FirFilter { h: copied(h), h_rev, h_len, w, scale: None })
    }

    /// Replaces the coefficients and clears the history. When the length
    /// changes the history is resized first; an empty set of coefficients
    /// cannot size a history, so the coefficients are then left empty, the
    /// history is kept and `Config` is returned (a filter that already has no
    /// coefficients accepts an empty set and clears its history).
    pub fn set_coefficients(&mut self, h: &[Coeff]) -> (r: Result<()>)
        requires
            old(self).wf() || old(self).shaped(),
        ensures
            (h@.len() == 0 && old(self).coefficients().len() != 0) <==> r is Err,
            final(self).shaped(),
            final(self).coefficients() == h@,
            final(self).zero() == old(self).zero(),
            final(self).scale_value() == old(self).scale_value(),
            r is Err ==> r->Err_0 is Config && final(self).history() == old(self).history(),
            r is Ok ==> final(self).history() == zeros(
                if h@.len() == 0 { old(self).history().len() } else { h@.len() }, old(self).zero()),
            h@.len() > 0 ==> final(self).wf(),
    {
        let n = h.len();
        if n != self.h_len {
            self.h_len = n;
            self.h = Vec::new();
            self.h_rev = Vec::new();
            proof { assert(self.h_rev@ =~= rev(self.h@)); }
            match self.w.resize(n) {
                Ok(()) => {}
                Err(e) => {
                    proof { assert(h@ =~= self.h@); }
                    return Err(e);
                }
            }
        }
        self.h = copied(h);
        self.h_rev = reversed(h);
        self.w.reset();
        Ok(())
    }

    /// Clears the history.
    pub fn reset(&mut self)
        requires
            old(self).wf(),
        ensures
            final(self).wf(),
            final(self).history() == zeros(old(self).history().len(), old(self).zero()),
            final(self).zero() == old(self).zero(),
            is_default(final(self).zero()),
            final(self).coefficients() == old(self).coefficients(),
            final(self).scale_value() == old(self).scale_value(),
    {
        self.w.reset();
    }

    /// Pushes one input sample into the history.
    pub fn push(&mut self, x: T)
        requires
            old(self).wf(),
        ensures
            final(self).wf(),
            final(self).history() == old(self).history().drop_first().push(x),
            final(self).coefficients() == old(self).coefficients(),
            final(self).zero() == old(self).zero(),
            final(self).scale_value() == old(self).scale_value(),
    {
        self.w.push(x);
    }

    /// Pushes a block of input samples into the history.
    pub fn write(&mut self, x: &[T])
        requires
            old(self).wf(),
        ensures
            final(self).wf(),
            final(self).history() == window_after(old(self).history(), x@, x@.len() as int),
            final(self).coefficients() == old(self).coefficients(),
            final(self).zero() == old(self).zero(),
            final(self).scale_value() == old(self).scale_value(),
    {
        self.w.write(x);
    }

    /// Filter output for the current history.
    pub fn execute(&self) -> (y: T)
        requires
            self.wf(),
            exact_ops::<T, Coeff>(),
            self.output_ok(),
        ensures
            y == self.output(),
    {
        let x = self.w.read();
        proof { assert(self.h_rev@.skip(0) =~= self.h_rev@); }
        let d = dotprod(x, self.h_rev.as_slice(), 0, self.w.zero_value());
        apply_scale(d, self.scale)
    }

    /// Pushes `x` and returns the output: `push` then `execute`.
    pub fn execute_one(&mut self, x: T) -> (y: T)
        requires
            old(self).wf(),
            exact_ops::<T, Coeff>(),
            fir_ok(old(self).history().drop_first().push(x), old(self).coefficients(),
                old(self).zero(), old(self).scale_value()),
        ensures
            final(self).wf(),
            final(self).history() == old(self).history().drop_first().push(x),
            final(self).coefficients() == old(self).coefficients(),
            final(self).zero() == old(self).zero(),
            final(self).scale_value() == old(self).scale_value(),
            y == final(self).output(),
    {
        self.push(x);
        self.execute()
    }

    /// Filters a block: `y[i]` is the output after `x[0..=i]` were pushed.
    /// The lengths must agree; otherwise nothing changes.
    pub fn execute_block(&mut self, x: &[T], y: &mut [T]) -> (r: Result<()>)
        requires
            old(self).wf(),
            exact_ops::<T, Coeff>(),
            x@.len() == old(y)@.len() ==> forall|i: int| 0 <= i < x@.len() ==>
                fir_ok(#[trigger] window_after(old(self).history(), x@, i + 1), old(self).coefficients(),
                    old(self).zero(), old(self).scale_value()),
        ensures
            x@.len() != old(y)@.len() <==> r is Err,
            r is Err ==> r->Err_0 is Config && *final(self) == *old(self) && final(y)@ == old(y)@,
            r is Ok ==> {
                &&& final(self).wf()
                &&& final(self).history() == window_after(old(self).history(), x@, x@.len() as int)
                &&& final(self).coefficients() == old(self).coefficients()
                &&& final(self).zero() == old(self).zero()
                &&& final(self).scale_value() == old(self).scale_value()
                &&& final(y)@.len() == x@.len()
                &&& forall|i: int| 0 <= i < x@.len() ==> #[trigger] final(y)@[i] == fir_output(
                    window_after(old(self).history(), x@, i + 1), old(self).coefficients(),
                    old(self).zero(), old(self).scale_value())
            },
    {
        if x.len() != y.len() {
            return Err(config_error("input and output block lengths must be equal"));
        }
        let ghost h0 = self.history();
        proof { lemma_window_after_zero(h0, x@); }
        let mut i: usize = 0;
        while i < x.len()
            invariant
                i <= x.len(),
                x@.len() == y@.len(),
                self.wf(),
                exact_ops::<T, Coeff>(),
                h0 == old(self).history(),
                h0.len() > 0,
                self.history() == window_after(h0, x@, i as int),
                self.coefficients() == old(self).coefficients(),
                self.zero() == old(self).zero(),
                self.scale_value() == old(self).scale_value(),
                forall|k: int| 0 <= k < x@.len() ==>
                    fir_ok(#[trigger] window_after(h0, x@, k + 1), old(self).coefficients(),
                        old(self).zero(), old(self).scale_value()),
                forall|k: int| 0 <= k < i ==> #[trigger] y@[k] == fir_output(
                    window_after(h0, x@, k + 1), old(self).coefficients(),
                    old(self).zero(), old(self).scale_value()),
            decreases x.len() - i,
        {
            proof {
                lemma_window_after_step(h0, x@, i as int);
                assert(fir_ok(window_after(h0, x@, i + 1), old(self).coefficients(),
                    old(self).zero(), old(self).scale_value()));
            }
            self.push(x[i]);
            let v = self.execute();
            y[i] = v;
            i = i + 1;
        }
        Ok(())
    }

    /// Sets the output scaling.
    pub fn set_scale(&mut self, scale: Coeff)
        requires
            old(self).wf(),
        ensures
            final(self).wf(),
            final(self).scale_value() == Some(scale),
            final(self).coefficients() == old(self).coefficients(),
            final(self).history() == old(self).history(),
            final(self).zero() == old(self).zero(),
    {
        self.scale = Some(scale);
    }

    /// The output scaling: the factor last set, or one (`Coeff::from(1u8)`)
    /// until `set_scale` was called.
    pub fn get_scale(&self) -> (r: Coeff)
        where Coeff: From<u8>,
        ensures
            crate::dotprod::scale_factor_is(self.scale_value(), r),
    {
        crate::dotprod::scale_or_one(self.scale)
    }

    /// Number of coefficients.
    pub fn get_length(&self) -> (r: usize)
        requires
            self.wf(),
        ensures
            r == self.coefficients().len(),
    {
        self.h_len
    }

    /// The coefficients.
    pub fn get_coefficients(&self) -> (r: &[Coeff])
        ensures
            r@ == self.coefficients(),
    {
        self.h.as_slice()
    }

    /// Two filters in the same state (coefficients, history, zero and scale)
    /// produce the same output after any block of input, and are in the same
    /// state after it.
    pub proof fn lemma_same_state_same_outputs(&self, other: &Self, xs: Seq<T>, k: int)
        requires
            self.coefficients() == other.coefficients(),
            self.history() == other.history(),
            self.zero() == other.zero(),
            self.scale_value() == other.scale_value(),
        ensures
            window_after(self.history(), xs, k) == window_after(other.history(), xs, k),
            fir_output(window_after(self.history(), xs, k), self.coefficients(), self.zero(), self.scale_value())
                == fir_output(window_after(other.history(), xs, k), other.coefficients(), other.zero(), other.scale_value()),
    {
    }
}

/// Rectangular prototype of length `n`: `n` coefficients equal to one.
pub fn fir_filter_design_rect<Coeff: Copy + From<u8>>(n: usize) -> (r: Result<Vec<Coeff>>)
    ensures
        (n == 0 || n > 1024) <==> r is Err,
        r is Err ==> r->Err_0 is Config,
        r matches Ok(h) ==> {
            &&& h@.len() == n
            &&& forall|i: int| 0 <= i < n ==> #[trigger] h@[i] == h@[0]
            &&& Coeff::obeys_from_spec() ==> h@[0] == Coeff::from_spec(1u8)
        },
{
    if n == 0 || n > 1024 {
        return Err(config_error("filter length must be in [1,1024]"));
    }
    let one = Coeff::from(1u8);
    let mut h: Vec<Coeff> = Vec::new();
    let mut i: usize = 0;
    while i < n
        invariant
            i <= n,
            h@ == zeros(i as nat, one),
        decreases n - i,
    {
        h.push(one);
        i = i + 1;
        assert(h@ =~= zeros(i as nat, one));
    }
    Ok(h)
}

impl<T, Coeff> FirFilter<T, Coeff>
where
    T: Copy + Default + Add<Output = T> + Mul<Coeff, Output = T>,
    Coeff: Copy + From<u8>,
{
    /// Creates a rectangular (moving sum) filter of length `n` in [1, 1024].
    pub fn new_rect(n: usize) -> (r: Result<Self>)
        ensures
            (n == 0 || n > 1024) <==> r is Err,
            r is Err ==> r->Err_0 is Config,
            r matches Ok(q) ==> {
                &&& q.wf()
                &&& q.coefficients().len() == n
                &&& forall|i: int| 0 <= i < n ==> #[trigger] q.coefficients()[i] == q.coefficients()[0]
                &&& Coeff::obeys_from_spec() ==> q.coefficients()[0] == Coeff::from_spec(1u8)
                &&& q.history() == zeros(n as nat, q.zero())
                &&& is_default(q.zero())
                &&& q.scale_value() is None
            },
    {
        let h = fir_filter_design_rect(n)?;
        Self::new(h.as_slice())
    }
}

} // verus!
