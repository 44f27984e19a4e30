use vstd::prelude::*;
use vstd::std_specs::ops::{AddSpec, SubSpec, MulSpec};
use core::ops::{Add, Sub, Mul};
use crate::error::{Result, config_error, range_error};
use crate::dotprod::{exact_ops, dot_spec, dot_ok, scaled, scale_ok, dotprod, apply_scale};
use crate::window::{Window, zeros, is_default, window_after, lemma_window_after_step, lemma_window_after_zero};

verus! {

/// Histories of the two half-band branches and the branch the next
/// `filter_execute` sample goes to.
pub struct Resamp2State<T> {
    pub w0: Seq<T>,
    pub w1: Seq<T>,
    pub toggle: bool,
}

/// `a * b` on samples.
pub open spec fn smul<T: Mul<T, Output = T>>(a: T, b: T) -> T {
    <T as MulSpec<T>>::mul_spec(a, b)
}

pub open spec fn smul_ok<T: Mul<T, Output = T>>(a: T, b: T) -> bool {
    <T as MulSpec<T>>::mul_req(a, b)
}

/// Half-band resampler: a half-band filter split into an even branch (a pure
/// delay of `m` samples) and an odd branch (a dot product with `2m`
/// coefficients), used to filter, decimate or interpolate by two, or as a
/// two-channel analyzer / synthesizer.
#[derive(Clone, Debug)]
pub struct Resamp2<T, Coeff = T> {
    m: usize,
    h1: Vec<Coeff>,
    w0: Window<T>,
    w1: Window<T>,
    decim_phase: Vec<T>,
    scale: Option<Coeff>,
    half: T,
    toggle: bool,
}

impl<T, Coeff> Resamp2<T, Coeff>
where
    T: Copy + Default + Add<Output = T> + Sub<Output = T> + Mul<T, Output = T> + Mul<Coeff, Output = T>,
    Coeff: Copy,
{
    pub open spec fn wf(&self) -> bool {
        &&& self.zeros_agree()
        &&& self.m_spec() >= 2
        &&& self.h1().len() == 2 * self.m_spec()
        &&& self.state().w0.len() == 2 * self.m_spec()
        &&& self.state().w1.len() == 2 * self.m_spec()
    }

    /// Both branch histories clear to the same value, one that `T::default()`
    /// returns.
    pub closed spec fn zeros_agree(&self) -> bool {
        &&& self.w0.zero() == self.w1.zero()
        &&& is_default(self.w1.zero())
    }

    /// The zero of any resampler in a valid state is a value `T::default()`
    /// returns.
    pub proof fn lemma_zero_is_default(&self)
        requires
            self.wf(),
        ensures
            is_default(self.zero()),
    {
    }

    /// Arithmetic on samples and coefficients is exact (see `exact_ops`).
    pub open spec fn exact() -> bool {
        &&& exact_ops::<T, Coeff>()
        &&& <T as SubSpec<T>>::obeys_sub_spec()
        &&& <T as MulSpec<T>>::obeys_mul_spec()
    }

    /// Filter semi-length.
    pub closed spec fn m_spec(&self) -> nat {
        self.m as nat
    }

    /// Odd-branch coefficients.
    pub closed spec fn h1(&self) -> Seq<Coeff> {
        self.h1@
    }

    /// The current branch histories and toggle.
    pub closed spec fn state(&self) -> Resamp2State<T> {
        Resamp2State { w0: self.w0@, w1: self.w1@, toggle: self.toggle }
    }

    /// The value the histories are cleared to and the dot product starts from.
    pub closed spec fn zero(&self) -> T {
        self.w1.zero()
    }

    /// The value of one half used by `filter_execute` and `analyzer_execute`.
    pub closed spec fn half(&self) -> T {
        self.half
    }

    /// The output scaling; `None` is unit gain.
    pub closed spec fn scale_value(&self) -> Option<Coeff> {
        self.scale
    }

    /// Length reserved for the decimation scratch.
    pub closed spec fn scratch_len(&self) -> nat {
        self.decim_phase@.len()
    }

    /// Everything but the histories and toggle is as in `other`.
    pub open spec fn same_config(&self, other: &Self) -> bool {
        &&& self.m_spec() == other.m_spec()
        &&& self.h1() == other.h1()
        &&& self.zero() == other.zero()
        &&& self.half() == other.half()
        &&& self.scale_value() == other.scale_value()
        &&& self.scratch_len() == other.scratch_len()
    }

    /// Odd-branch (dot product) output for history `w`.
    pub open spec fn branch(&self, w: Seq<T>) -> T {
        dot_spec(w, self.h1(), self.zero())
    }

    /// Even-branch (delay) output for history `w`.
    pub open spec fn delayed(&self, w: Seq<T>) -> T {
        w[self.m_spec() - 1]
    }

    /// One `filter_execute` step: new state, low-band and high-band output.
    pub open spec fn filter_step(&self, st: Resamp2State<T>, x: T) -> (Resamp2State<T>, T, T) {
        let (n0, n1) = if !st.toggle { (st.w0.drop_first().push(x), st.w1) } else { (st.w0, st.w1.drop_first().push(x)) };
        let (yi, yq) = if !st.toggle { (self.delayed(n0), self.branch(n1)) } else { (self.delayed(n1), self.branch(n0)) };
        (Resamp2State { w0: n0, w1: n1, toggle: !st.toggle },
            scaled(smul(self.half(), yi.add_spec(yq)), self.scale_value()),
            scaled(smul(self.half(), yi.sub_spec(yq)), self.scale_value()))
    }

    pub open spec fn filter_step_ok(&self, st: Resamp2State<T>, x: T) -> bool {
        let (n0, n1) = if !st.toggle { (st.w0.drop_first().push(x), st.w1) } else { (st.w0, st.w1.drop_first().push(x)) };
        let (yi, yq) = if !st.toggle { (self.delayed(n0), self.branch(n1)) } else { (self.delayed(n1), self.branch(n0)) };
        &&& if !st.toggle { dot_ok(n1, self.h1(), self.zero()) } else { dot_ok(n0, self.h1(), self.zero()) }
        &&& yi.add_req(yq)
        &&& yi.sub_req(yq)
        &&& smul_ok(self.half(), yi.add_spec(yq))
        &&& smul_ok(self.half(), yi.sub_spec(yq))
        &&& scale_ok(smul(self.half(), yi.add_spec(yq)), self.scale_value())
        &&& scale_ok(smul(self.half(), yi.sub_spec(yq)), self.scale_value())
    }

    /// State after `k` filter steps on `xs` from `st`.
    pub open spec fn filter_run(&self, st: Resamp2State<T>, xs: Seq<T>, k: nat) -> Resamp2State<T>
        decreases k,
    {
        if k == 0 { st } else { self.filter_step(self.filter_run(st, xs, (k - 1) as nat), xs[k - 1]).0 }
    }

    /// Creates a half-band resampler of semi-length `m` from the prototype `h`
    /// (`4m + 1` coefficients); the odd branch takes `h1[i] = h[4m - 1 - 2i]`.
    /// `half` is the sample value one half.
    pub fn from_prototype(m: usize, h: &[Coeff], half: T) -> (r: Result<Self>)
        ensures
            (m < 2 || m > (usize::MAX - 1) / 4 || h@.len() != 4 * m + 1) <==> r is Err,
            r is Err ==> r->Err_0 is Config,
            r matches Ok(q) ==> {
                &&& q.wf()
                &&& q.m_spec() == m
                &&& forall|i: int| 0 <= i < 2 * m ==> #[trigger] q.h1()[i] == h@[4 * m - 1 - 2 * i]
                &&& q.state() == (Resamp2State { w0: zeros(2 * m as nat, q.zero()), w1: zeros(2 * m as nat, q.zero()), toggle: false })
                &&& q.half() == half
                &&& q.scale_value() is None
                &&& q.scratch_len() == 0
                &&& is_default(q.zero())
            },
    {
        if m < 2 {
            return Err(config_error("filter semi-length must be at least 2"));
        }
        if m > (usize::MAX - 1) / 4 || h.len() != 4 * m + 1 {
            return Err(config_error("prototype length must be 4 m + 1"));
        }
        let h_len = 4 * m + 1;
        let mut h1: Vec<Coeff> = Vec::new();
        let mut i: usize = 0;
        while i < 2 * m
            invariant
                h_len == 4 * m + 1,
                h@.len() == h_len,
                m >= 2,
                i <= 2 * m,
                h1@.len() == i,
                forall|k: int| 0 <= k < i ==> #[trigger] h1@[k] == h@[4 * m - 1 - 2 * k],
            decreases 2 * m - i,
        {
            h1.push(h[h_len - 2 * i - 2]);
            i = i + 1;
        }
        let z = T::default();
        let w0 = Window::new_with(2 * m, z)?;
        let w1 = Window::new_with(2 * m, z)?;
        Ok(Resamp2 { m, h1, w0, w1, decim_phase: Vec::new(), scale: None, half, toggle: false })
    }

    /// One `decim_execute` step on the input pair `(x0, x1)`.
    pub open spec fn decim_step(&self, st: Resamp2State<T>, x0: T, x1: T) -> (Resamp2State<T>, T) {
        let n1 = st.w1.drop_first().push(x0);
        let n0 = st.w0.drop_first().push(x1);
        (Resamp2State { w0: n0, w1: n1, toggle: st.toggle },
            scaled(self.delayed(n0).add_spec(self.branch(n1)), self.scale_value()))
    }

    pub open spec fn decim_step_ok(&self, st: Resamp2State<T>, x0: T, x1: T) -> bool {
        let n1 = st.w1.drop_first().push(x0);
        let n0 = st.w0.drop_first().push(x1);
        &&& dot_ok(n1, self.h1(), self.zero())
        &&& self.delayed(n0).add_req(self.branch(n1))
        &&& scale_ok(self.delayed(n0).add_spec(self.branch(n1)), self.scale_value())
    }

    /// One `interp_execute` step on input `x`: new state and the two outputs.
    pub open spec fn interp_step(&self, st: Resamp2State<T>, x: T) -> (Resamp2State<T>, T, T) {
        let n0 = st.w0.drop_first().push(x);
        let n1 = st.w1.drop_first().push(x);
        (Resamp2State { w0: n0, w1: n1, toggle: st.toggle },
            scaled(self.delayed(n0), self.scale_value()), scaled(self.branch(n1), self.scale_value()))
    }

    pub open spec fn interp_step_ok(&self, st: Resamp2State<T>, x: T) -> bool {
        let n0 = st.w0.drop_first().push(x);
        let n1 = st.w1.drop_first().push(x);
        &&& scale_ok(self.delayed(n0), self.scale_value())
        &&& dot_ok(n1, self.h1(), self.zero())
        &&& scale_ok(self.branch(n1), self.scale_value())
    }

    /// One `analyzer_execute` step on the input pair `(x0, x1)`.
    pub open spec fn analyzer_step(&self, st: Resamp2State<T>, x0: T, x1: T) -> (Resamp2State<T>, T, T) {
        let n1 = st.w1.drop_first().push(smul(self.half(), x0));
        let n0 = st.w0.drop_first().push(smul(self.half(), x1));
        let y1 = self.branch(n1);
        let y0 = self.delayed(n0);
        (Resamp2State { w0: n0, w1: n1, toggle: st.toggle },
            scaled(y1.add_spec(y0), self.scale_value()), scaled(y1.sub_spec(y0), self.scale_value()))
    }

    pub open spec fn analyzer_step_ok(&self, st: Resamp2State<T>, x0: T, x1: T) -> bool {
        let n1 = st.w1.drop_first().push(smul(self.half(), x0));
        let n0 = st.w0.drop_first().push(smul(self.half(), x1));
        let y1 = self.branch(n1);
        let y0 = self.delayed(n0);
        &&& smul_ok(self.half(), x0)
        &&& smul_ok(self.half(), x1)
        &&& dot_ok(n1, self.h1(), self.zero())
        &&& y1.add_req(y0)
        &&& y1.sub_req(y0)
        &&& scale_ok(y1.add_spec(y0), self.scale_value())
        &&& scale_ok(y1.sub_spec(y0), self.scale_value())
    }

    /// One `synthesizer_execute` step on the input pair `(x0, x1)`.
    pub open spec fn synth_step(&self, st: Resamp2State<T>, x0: T, x1: T) -> (Resamp2State<T>, T, T) {
        let n0 = st.w0.drop_first().push(x0.add_spec(x1));
        let n1 = st.w1.drop_first().push(x0.sub_spec(x1));
        (Resamp2State { w0: n0, w1: n1, toggle: st.toggle },
            scaled(self.delayed(n0), self.scale_value()), scaled(self.branch(n1), self.scale_value()))
    }

    pub open spec fn synth_step_ok(&self, st: Resamp2State<T>, x0: T, x1: T) -> bool {
        let n0 = st.w0.drop_first().push(x0.add_spec(x1));
        let n1 = st.w1.drop_first().push(x0.sub_spec(x1));
        &&& x0.add_req(x1)
        &&& x0.sub_req(x1)
        &&& scale_ok(self.delayed(n0), self.scale_value())
        &&& dot_ok(n1, self.h1(), self.zero())
        &&& scale_ok(self.branch(n1), self.scale_value())
    }

    /// Clears both histories and the toggle.
    pub fn reset(&mut self)
        requires
            old(self).wf(),
        ensures
            final(self).wf(),
            final(self).same_config(&*old(self)),
            final(self).state() == (Resamp2State { w0: zeros(2 * old(self).m_spec(), old(self).zero()),
                w1: zeros(2 * old(self).m_spec(), old(self).zero()), toggle: false }),
            is_default(final(self).zero()),
    {
        self.w0.reset();
        self.w1.reset();
        self.toggle = false;
    }

    /// Sets the output scaling.
    pub fn set_scale(&mut self, scale: Coeff)
        requires
            old(self).wf(),
        ensures
            final(self).wf(),
            final(self).scale_value() == Some(scale),
            final(self).state() == old(self).state(),
            final(self).m_spec() == old(self).m_spec(),
            final(self).h1() == old(self).h1(),
            final(self).zero() == old(self).zero(),
            final(self).half() == old(self).half(),
            final(self).scratch_len() == old(self).scratch_len(),
    {
        self.scale = Some(scale);
    }

    /// The output scaling: the factor last set, or one (`Coeff::from(1u8)`)
    /// until `set_scale` was called.
    pub fn get_scale(&self) -> (r: Coeff)
        where Coeff: From<u8>,
        ensures
            crate::dotprod::scale_factor_is(self.scale_value(), r),
    {
        crate::dotprod::scale_or_one(self.scale)
    }

    /// Delay of the half-band filter in samples: `2m - 1`.
    pub fn get_delay(&self) -> (r: usize)
        requires
            self.wf(),
        ensures
            r == 2 * self.m_spec() - 1,
    {
        self.h1.len() - 1
    }

    /// The decimation scratch plays no part in what the resampler computes: two
    /// resamplers that agree on everything but the scratch length take the same
    /// steps from the same state (so `reserve_decim_block` changes no output).
    pub proof fn lemma_scratch_irrelevant(&self, other: &Self, st: Resamp2State<T>, x0: T, x1: T)
        requires
            self.m_spec() == other.m_spec(),
            self.h1() == other.h1(),
            self.zero() == other.zero(),
            self.half() == other.half(),
            self.scale_value() == other.scale_value(),
        ensures
            self.filter_step(st, x0) == other.filter_step(st, x0),
            self.filter_step_ok(st, x0) == other.filter_step_ok(st, x0),
            self.decim_step(st, x0, x1) == other.decim_step(st, x0, x1),
            self.decim_step_ok(st, x0, x1) == other.decim_step_ok(st, x0, x1),
            self.interp_step(st, x0) == other.interp_step(st, x0),
            self.interp_step_ok(st, x0) == other.interp_step_ok(st, x0),
            self.analyzer_step(st, x0, x1) == other.analyzer_step(st, x0, x1),
            self.analyzer_step_ok(st, x0, x1) == other.analyzer_step_ok(st, x0, x1),
            self.synth_step(st, x0, x1) == other.synth_step(st, x0, x1),
            self.synth_step_ok(st, x0, x1) == other.synth_step_ok(st, x0, x1),
    {
    }

    /// Filter steps feed the two branches in turn. A step flips the toggle and
    /// pushes its input into exactly one branch history (the even branch `w0`
    /// when the toggle was off, the odd branch `w1` when it was on), so two
    /// consecutive steps push one sample into each branch and restore the
    /// toggle. When the toggle was off, the low-band and high-band outputs are
    /// `half * (d + y)` and `half * (d - y)` (scaled), where `d` is sample `m`
    /// of the even history before the step (the one that reaches the centre
    /// tap) and `y` is the odd history's dot product with the odd taps.
    pub proof fn lemma_filter_alternates(&self, st: Resamp2State<T>, x0: T, x1: T)
        requires
            self.wf(),
            st.w0.len() == 2 * self.m_spec(),
            st.w1.len() == 2 * self.m_spec(),
        ensures
            self.filter_step(st, x0).0.toggle == !st.toggle,
            !st.toggle ==> self.filter_step(st, x0).0.w0 == st.w0.drop_first().push(x0)
                && self.filter_step(st, x0).0.w1 == st.w1,
            st.toggle ==> self.filter_step(st, x0).0.w1 == st.w1.drop_first().push(x0)
                && self.filter_step(st, x0).0.w0 == st.w0,
            ({
                let s2 = self.filter_step(self.filter_step(st, x0).0, x1).0;
                &&& s2.toggle == st.toggle
                &&& !st.toggle ==> s2.w0 == st.w0.drop_first().push(x0) && s2.w1 == st.w1.drop_first().push(x1)
                &&& st.toggle ==> s2.w1 == st.w1.drop_first().push(x0) && s2.w0 == st.w0.drop_first().push(x1)
            }),
            !st.toggle ==> {
                let d = st.w0[self.m_spec() as int];
                let y = dot_spec(st.w1, self.h1(), self.zero());
                &&& self.filter_step(st, x0).1 == scaled(smul(self.half(), d.add_spec(y)), self.scale_value())
                &&& self.filter_step(st, x0).2 == scaled(smul(self.half(), d.sub_spec(y)), self.scale_value())
            },
    {
        let m = self.m_spec() as int;
        assert(st.w0.drop_first().push(x0)[m - 1] == st.w0[m]);
        assert(st.w1.drop_first().push(x0)[m - 1] == st.w1[m]);
    }

    /// A synthesizer step pushes `x0 + x1` into the even history and `x0 - x1`
    /// into the odd one. Its first output is the delayed even sample (sample
    /// `m` of the even history before the step, untouched by this step's
    /// inputs) and its second is the odd history's dot product with the odd
    /// taps after `x0 - x1` entered, both scaled.
    pub proof fn lemma_synth_outputs(&self, st: Resamp2State<T>, x0: T, x1: T)
        requires
            self.wf(),
            st.w0.len() == 2 * self.m_spec(),
            st.w1.len() == 2 * self.m_spec(),
        ensures
            ({
                let (s2, a, b) = self.synth_step(st, x0, x1);
                let n1 = st.w1.drop_first().push(x0.sub_spec(x1));
                &&& s2.w0 == st.w0.drop_first().push(x0.add_spec(x1))
                &&& s2.w1 == n1
                &&& s2.toggle == st.toggle
                &&& a == scaled(st.w0[self.m_spec() as int], self.scale_value())
                &&& b == scaled(dot_spec(n1, self.h1(), self.zero()), self.scale_value())
            }),
    {
        let m = self.m_spec() as int;
        assert(st.w0.drop_first().push(x0.add_spec(x1))[m - 1] == st.w0[m]);
    }

    /// An interpolator step pushes `x` into both histories; its first output is
    /// the delayed even sample (sample `m` of the even history before the step)
    /// and its second the odd history's dot product after `x` entered, both
    /// scaled.
    pub proof fn lemma_interp_outputs(&self, st: Resamp2State<T>, x: T)
        requires
            self.wf(),
            st.w0.len() == 2 * self.m_spec(),
            st.w1.len() == 2 * self.m_spec(),
        ensures
            ({
                let (s2, a, b) = self.interp_step(st, x);
                let n1 = st.w1.drop_first().push(x);
                &&& s2.w0 == st.w0.drop_first().push(x)
                &&& s2.w1 == n1
                &&& a == scaled(st.w0[self.m_spec() as int], self.scale_value())
                &&& b == scaled(dot_spec(n1, self.h1(), self.zero()), self.scale_value())
            }),
    {
        let m = self.m_spec() as int;
        assert(st.w0.drop_first().push(x)[m - 1] == st.w0[m]);
    }

    /// A decimator step pushes `x0` into the odd history and `x1` into the even
    /// one; its output is the delayed even sample (sample `m` of the even
    /// history before the step) plus the odd history's dot product after `x0`
    /// entered, scaled.
    pub proof fn lemma_decim_output(&self, st: Resamp2State<T>, x0: T, x1: T)
        requires
            self.wf(),
            st.w0.len() == 2 * self.m_spec(),
            st.w1.len() == 2 * self.m_spec(),
        ensures
            ({
                let (s2, y) = self.decim_step(st, x0, x1);
                let n1 = st.w1.drop_first().push(x0);
                &&& s2.w0 == st.w0.drop_first().push(x1)
                &&& s2.w1 == n1
                &&& y == scaled(st.w0[self.m_spec() as int].add_spec(dot_spec(n1, self.h1(), self.zero())),
                    self.scale_value())
            }),
    {
        let m = self.m_spec() as int;
        assert(st.w0.drop_first().push(x1)[m - 1] == st.w0[m]);
    }

    /// Makes the decimation scratch hold at least `n / 2` samples.
    pub fn reserve_decim_block(&mut self, n: usize)
        requires
            old(self).wf(),
        ensures
            final(self).wf(),
            final(self).state() == old(self).state(),
            final(self).scratch_len() == if old(self).scratch_len() < n / 2 { (n / 2) as nat } else { old(self).scratch_len() },
            final(self).m_spec() == old(self).m_spec(),
            final(self).h1() == old(self).h1(),
            final(self).zero() == old(self).zero(),
            final(self).half() == old(self).half(),
            final(self).scale_value() == old(self).scale_value(),
    {
        let phase_len = n / 2;
        if self.decim_phase.len() < phase_len {
            let d = T::default();
            self.decim_phase.resize(phase_len, d);
        }
    }

    fn branch_exec(&self, w: &Window<T>) -> (y: T)
        requires
            self.wf(),
            Self::exact(),
            w@.len() == self.h1().len(),
            dot_ok(w@, self.h1(), self.zero()),
        ensures
            y == self.branch(w@),
    {
        let r = w.read();
        proof { assert(self.h1@.skip(0) =~= self.h1@); }
        dotprod(r, self.h1.as_slice(), 0, self.w1.zero_value())
    }

    fn delayed_exec(&self, w: &Window<T>) -> (y: T)
        requires
            self.wf(),
            w@.len() == 2 * self.m_spec(),
        ensures
            y == self.delayed(w@),
    {
        let r = w.read();
        r[self.m - 1]
    }

    /// Filters one sample: returns the low-band and high-band outputs
    /// `half * (yi + yq) * scale` and `half * (yi - yq) * scale`, where `yi` is the
    /// delayed branch and `yq` the dot-product branch; the input goes to the two
    /// branches in turn.
    pub fn filter_execute(&mut self, x: T) -> (r: Result<(T, T)>)
        requires
            old(self).wf(),
            Self::exact(),
            old(self).filter_step_ok(old(self).state(), x),
        ensures
            r matches Ok((y0, y1)) && y0 == old(self).filter_step(old(self).state(), x).1
                && y1 == old(self).filter_step(old(self).state(), x).2,
            final(self).wf(),
            final(self).same_config(&*old(self)),
            final(self).state() == old(self).filter_step(old(self).state(), x).0,
    {
        let (yi, yq) = if !self.toggle {
            self.w0.push(x);
            let yi = self.delayed_exec(&self.w0);
            let yq = self.branch_exec(&self.w1);
            (yi, yq)
        } else {
            self.w1.push(x);
            let yi = self.delayed_exec(&self.w1);
            let yq = self.branch_exec(&self.w0);
            (yi, yq)
        };
        self.toggle = !self.toggle;
        let s = yi + yq;
        let d = yi - yq;
        let a: T = self.half * s;
        let b: T = self.half * d;
        let y0 = apply_scale(a, self.scale);
        let y1 = apply_scale(b, self.scale);
        Ok((y0, y1))
    }

    fn analyzer_at(&mut self, x: &[T], y: &mut [T], i: usize)
        requires
            old(self).wf(),
            Self::exact(),
            2 * i + 2 <= x@.len(),
            2 * i + 2 <= old(y)@.len(),
            old(self).analyzer_step_ok(old(self).state(), x@[2 * i], x@[2 * i + 1]),
        ensures
            final(self).wf(),
            final(self).same_config(&*old(self)),
            final(self).state() == old(self).analyzer_step(old(self).state(), x@[2 * i], x@[2 * i + 1]).0,
            final(y)@ == old(y)@.update(2 * i, old(self).analyzer_step(old(self).state(), x@[2 * i], x@[2 * i + 1]).1)
                .update(2 * i + 1, old(self).analyzer_step(old(self).state(), x@[2 * i], x@[2 * i + 1]).2),
    {
        let a: T = self.half * x[2 * i];
        self.w1.push(a);
        let y1 = self.branch_exec(&self.w1);
        let b: T = self.half * x[2 * i + 1];
        self.w0.push(b);
        let y0 = self.delayed_exec(&self.w0);
        let s = y1 + y0;
        let d = y1 - y0;
        y[2 * i] = apply_scale(s, self.scale);
        y[2 * i + 1] = apply_scale(d, self.scale);
    }

    /// Analyzer: splits the input pair `x[0], x[1]` into the two half-band channels
    /// `y[0] = (y1 + y0) * scale` and `y[1] = (y1 - y0) * scale`, where the
    /// dot-product branch takes `half * x[0]` and the delayed branch `half * x[1]`.
    pub fn analyzer_execute(&mut self, x: &[T], y: &mut [T]) -> (r: Result<()>)
        requires
            old(self).wf(),
            Self::exact(),
            x@.len() >= 2,
            old(y)@.len() >= 2,
            old(self).analyzer_step_ok(old(self).state(), x@[0], x@[1]),
        ensures
            r is Ok,
            final(self).wf(),
            final(self).same_config(&*old(self)),
            final(self).state() == old(self).analyzer_step(old(self).state(), x@[0], x@[1]).0,
            final(y)@ == old(y)@.update(0, old(self).analyzer_step(old(self).state(), x@[0], x@[1]).1)
                .update(1, old(self).analyzer_step(old(self).state(), x@[0], x@[1]).2),
    {
        self.analyzer_at(x, y, 0);
        Ok(())
    }

    fn synth_at(&mut self, x: &[T], y: &mut [T], i: usize)
        requires
            old(self).wf(),
            Self::exact(),
            2 * i + 2 <= x@.len(),
            2 * i + 2 <= old(y)@.len(),
            old(self).synth_step_ok(old(self).state(), x@[2 * i], x@[2 * i + 1]),
        ensures
            final(self).wf(),
            final(self).same_config(&*old(self)),
            final(self).state() == old(self).synth_step(old(self).state(), x@[2 * i], x@[2 * i + 1]).0,
            final(y)@ == old(y)@.update(2 * i, old(self).synth_step(old(self).state(), x@[2 * i], x@[2 * i + 1]).1)
                .update(2 * i + 1, old(self).synth_step(old(self).state(), x@[2 * i], x@[2 * i + 1]).2),
    {
        let x0 = x[2 * i] + x[2 * i + 1];
        let x1 = x[2 * i] - x[2 * i + 1];
        self.w0.push(x0);
        let a = self.delayed_exec(&self.w0);
        y[2 * i] = apply_scale(a, self.scale);
        self.w1.push(x1);
        let b = self.branch_exec(&self.w1);
        y[2 * i + 1] = apply_scale(b, self.scale);
    }

    /// Synthesizer: merges the two half-band channels `x[0], x[1]` into the output
    /// pair; the delayed branch takes `x[0] + x[1]`, the dot-product branch
    /// `x[0] - x[1]`.
    pub fn synthesizer_execute(&mut self, x: &[T], y: &mut [T]) -> (r: Result<()>)
        requires
            old(self).wf(),
            Self::exact(),
            x@.len() >= 2,
            old(y)@.len() >= 2,
            old(self).synth_step_ok(old(self).state(), x@[0], x@[1]),
        ensures
            r is Ok,
            final(self).wf(),
            final(self).same_config(&*old(self)),
            final(self).state() == old(self).synth_step(old(self).state(), x@[0], x@[1]).0,
            final(y)@ == old(y)@.update(0, old(self).synth_step(old(self).state(), x@[0], x@[1]).1)
                .update(1, old(self).synth_step(old(self).state(), x@[0], x@[1]).2),
    {
        self.synth_at(x, y, 0);
        Ok(())
    }

    fn decim_at(&mut self, x: &[T], i: usize) -> (y: T)
        requires
            old(self).wf(),
            Self::exact(),
            2 * i + 2 <= x@.len(),
            old(self).decim_step_ok(old(self).state(), x@[2 * i], x@[2 * i + 1]),
        ensures
            final(self).wf(),
            final(self).same_config(&*old(self)),
            final(self).state() == old(self).decim_step(old(self).state(), x@[2 * i], x@[2 * i + 1]).0,
            y == old(self).decim_step(old(self).state(), x@[2 * i], x@[2 * i + 1]).1,
    {
        self.w1.push(x[2 * i]);
        let y1 = self.branch_exec(&self.w1);
        self.w0.push(x[2 * i + 1]);
        let y0 = self.delayed_exec(&self.w0);
        let s = y0 + y1;
        apply_scale(s, self.scale)
    }

    /// Decimates the input pair `x[0], x[1]` by two: `(y0 + y1) * scale`, where the
    /// dot-product branch takes `x[0]` and the delayed branch `x[1]`.
    pub fn decim_execute(&mut self, x: &[T]) -> (r: Result<T>)
        requires
            old(self).wf(),
            Self::exact(),
            x@.len() >= 2,
            old(self).decim_step_ok(old(self).state(), x@[0], x@[1]),
        ensures
            r matches Ok(y) && y == old(self).decim_step(old(self).state(), x@[0], x@[1]).1,
            final(self).wf(),
            final(self).same_config(&*old(self)),
            final(self).state() == old(self).decim_step(old(self).state(), x@[0], x@[1]).0,
    {
        Ok(self.decim_at(x, 0))
    }

    fn interp_at(&mut self, x: T, y: &mut [T], i: usize)
        requires
            old(self).wf(),
            Self::exact(),
            2 * i + 2 <= old(y)@.len(),
            old(self).interp_step_ok(old(self).state(), x),
        ensures
            final(self).wf(),
            final(self).same_config(&*old(self)),
            final(self).state() == old(self).interp_step(old(self).state(), x).0,
            final(y)@ == old(y)@.update(2 * i, old(self).interp_step(old(self).state(), x).1)
                .update(2 * i + 1, old(self).interp_step(old(self).state(), x).2),
    {
        let _ylen = y.len();
        self.w0.push(x);
        let a = self.delayed_exec(&self.w0);
        y[2 * i] = apply_scale(a, self.scale);
        self.w1.push(x);
        let b = self.branch_exec(&self.w1);
        y[2 * i + 1] = apply_scale(b, self.scale);
    }

    /// Interpolates `x` by two: `y[0]` from the delayed branch, `y[1]` from the
    /// dot-product branch, both scaled.
    pub fn interp_execute(&mut self, x: T, y: &mut [T]) -> (r: Result<()>)
        requires
            old(self).wf(),
            Self::exact(),
            old(y)@.len() >= 2,
            old(self).interp_step_ok(old(self).state(), x),
        ensures
            r is Ok,
            final(self).wf(),
            final(self).same_config(&*old(self)),
            final(self).state() == old(self).interp_step(old(self).state(), x).0,
            final(y)@ == old(y)@.update(0, old(self).interp_step(old(self).state(), x).1)
                .update(1, old(self).interp_step(old(self).state(), x).2),
    {
        self.interp_at(x, y, 0);
        Ok(())
    }

    /// State after `k` analyzer steps on the pairs of `x` from `st`.
    pub open spec fn analyzer_run(&self, st: Resamp2State<T>, x: Seq<T>, k: nat) -> Resamp2State<T>
        decreases k,
    {
        if k == 0 { st } else {
            self.analyzer_step(self.analyzer_run(st, x, (k - 1) as nat), x[2 * k - 2], x[2 * k - 1]).0
        }
    }

    /// State after `k` synthesizer steps on the pairs of `x` from `st`.
    pub open spec fn synth_run(&self, st: Resamp2State<T>, x: Seq<T>, k: nat) -> Resamp2State<T>
        decreases k,
    {
        if k == 0 { st } else {
            self.synth_step(self.synth_run(st, x, (k - 1) as nat), x[2 * k - 2], x[2 * k - 1]).0
        }
    }

    /// State after `k` decimation steps on the pairs of `x` from `st`.
    pub open spec fn decim_run(&self, st: Resamp2State<T>, x: Seq<T>, k: nat) -> Resamp2State<T>
        decreases k,
    {
        if k == 0 { st } else {
            self.decim_step(self.decim_run(st, x, (k - 1) as nat), x[2 * k - 2], x[2 * k - 1]).0
        }
    }

    /// State after `k` interpolation steps on the samples of `x` from `st`.
    pub open spec fn interp_run(&self, st: Resamp2State<T>, x: Seq<T>, k: nat) -> Resamp2State<T>
        decreases k,
    {
        if k == 0 { st } else { self.interp_step(self.interp_run(st, x, (k - 1) as nat), x[k - 1]).0 }
    }

    /// Filters a block: input `x[k]` yields `y[2k]` (low band) and `y[2k+1]` (high
    /// band); returns `2 * x.len()`. Fails, changing nothing, when that overflows
    /// (`Range`) or `y` is too short (`Config`).
    pub fn filter_execute_block(&mut self, x: &[T], y: &mut [T]) -> (r: Result<usize>)
        requires
            old(self).wf(),
            Self::exact(),
            forall|k: int| 0 <= k && k < x@.len() ==>
                old(self).filter_step_ok(#[trigger] old(self).filter_run(old(self).state(), x@, k as nat), x@[k as int]),
        ensures
            2 * x@.len() > usize::MAX ==> (r is Err && r->Err_0 is Range),
            2 * x@.len() <= usize::MAX ==> (r is Err <==> old(y)@.len() < 2 * x@.len()),
            r is Err && 2 * x@.len() <= usize::MAX ==> r->Err_0 is Config,
            r is Err ==> *final(self) == *old(self) && final(y)@ == old(y)@,
            r matches Ok(n) ==> {
                &&& n == 2 * x@.len()
                &&& final(self).wf()
                &&& final(self).same_config(&*old(self))
                &&& final(self).state() == old(self).filter_run(old(self).state(), x@, x@.len())
                &&& final(y)@.len() == old(y)@.len()
                &&& forall|k: int| 0 <= k && k < x@.len() ==> #[trigger] final(y)@[2 * k]
                    == old(self).filter_step(old(self).filter_run(old(self).state(), x@, k as nat), x@[k as int]).1
                &&& forall|k: int| 0 <= k && k < x@.len() ==> #[trigger] final(y)@[2 * k + 1]
                    == old(self).filter_step(old(self).filter_run(old(self).state(), x@, k as nat), x@[k as int]).2
                &&& forall|j: int| 2 * x@.len() <= j < old(y)@.len() ==> #[trigger] final(y)@[j] == old(y)@[j]
            },
    {
        let n_out = match x.len().checked_mul(2) {
            Some(v) => v,
            None => { return Err(range_error("filter output length overflow")); }
        };
        if y.len() < n_out {
            return Err(config_error("output length is shorter than twice the input length"));
        }
        let ghost s0 = self.state();
        let ghost q0 = *old(self);
        let mut i: usize = 0;
        while i < x.len()
            invariant
                n_out == 2 * x@.len(),
                n_out <= y@.len(),
                y@.len() == old(y)@.len(),
                i <= x@.len(),
                s0 == old(self).state(),
                q0 == *old(self),
                self.wf(),
                Self::exact(),
                self.same_config(&q0),
                self.state() == q0.filter_run(s0, x@, i as nat),
                forall|k: int| 0 <= k && k < x@.len() ==>
                    q0.filter_step_ok(#[trigger] q0.filter_run(s0, x@, k as nat), x@[k as int]),
                forall|k: int| 0 <= k && k < i ==> #[trigger] y@[2 * k]
                    == q0.filter_step(q0.filter_run(s0, x@, k as nat), x@[k as int]).1,
                forall|k: int| 0 <= k && k < i ==> #[trigger] y@[2 * k + 1]
                    == q0.filter_step(q0.filter_run(s0, x@, k as nat), x@[k as int]).2,
                forall|j: int| 2 * i <= j < y@.len() ==> #[trigger] y@[j] == old(y)@[j],
            decreases x@.len() - i,
        {
            proof {
                let ki = i as int;
                assert(q0.filter_step_ok(q0.filter_run(s0, x@, ki as nat), x@[ki]));
                assert(self.filter_step_ok(self.state(), x@[i as int]));
            }
            let r = self.filter_execute(x[i]);
            if let Ok((y0, y1)) = r {
                y[2 * i] = y0;
                y[2 * i + 1] = y1;
            }
            proof {
                assert(q0.filter_run(s0, x@, (i + 1) as nat) == q0.filter_step(q0.filter_run(s0, x@, i as nat), x@[i as int]).0);
                assert forall|k: int| 0 <= k && k < i + 1 implies #[trigger] y@[2 * k]
                    == q0.filter_step(q0.filter_run(s0, x@, k as nat), x@[k as int]).1 by {
                    if k < i { assert(y@[2 * k] == y@[2 * k]); }
                }
            }
            i = i + 1;
        }
        Ok(n_out)
    }

    /// Analyzes a block of input pairs: `x[2k], x[2k+1]` yield `y[2k], y[2k+1]`;
    /// returns `2 * (x.len() / 2)`. Fails, changing nothing, if `y` is shorter.
    pub fn analyzer_execute_block(&mut self, x: &[T], y: &mut [T]) -> (r: Result<usize>)
        requires
            old(self).wf(),
            Self::exact(),
            forall|k: int| 0 <= k && k < x@.len() / 2 ==>
                old(self).analyzer_step_ok(#[trigger] old(self).analyzer_run(old(self).state(), x@, k as nat),
                    x@[2 * k], x@[2 * k + 1]),
        ensures
            r is Err <==> old(y)@.len() < 2 * ((x@.len() / 2) as nat),
            r is Err ==> r->Err_0 is Config && *final(self) == *old(self) && final(y)@ == old(y)@,
            r matches Ok(n) ==> {
                &&& n == 2 * ((x@.len() / 2) as nat)
                &&& final(self).wf()
                &&& final(self).same_config(&*old(self))
                &&& final(self).state() == old(self).analyzer_run(old(self).state(), x@, (x@.len() / 2) as nat)
                &&& final(y)@.len() == old(y)@.len()
                &&& forall|k: int| 0 <= k && k < x@.len() / 2 ==> #[trigger] final(y)@[2 * k]
                    == old(self).analyzer_step(old(self).analyzer_run(old(self).state(), x@, k as nat), x@[2 * k], x@[2 * k + 1]).1
                &&& forall|k: int| 0 <= k && k < x@.len() / 2 ==> #[trigger] final(y)@[2 * k + 1]
                    == old(self).analyzer_step(old(self).analyzer_run(old(self).state(), x@, k as nat), x@[2 * k], x@[2 * k + 1]).2
                &&& forall|j: int| 2 * ((x@.len() / 2) as nat) <= j < old(y)@.len() ==> #[trigger] final(y)@[j] == old(y)@[j]
            },
    {
        let n = x.len() / 2;
        let n_out = 2 * n;
        if y.len() < n_out {
            return Err(config_error("output length is shorter than the input pairs"));
        }
        let ghost s0 = self.state();
        let ghost q0 = *old(self);
        let mut i: usize = 0;
        while i < n
            invariant
                n == x@.len() / 2,
                n_out == 2 * n,
                n_out <= y@.len(),
                y@.len() == old(y)@.len(),
                i <= n,
                s0 == old(self).state(),
                q0 == *old(self),
                self.wf(),
                Self::exact(),
                self.same_config(&q0),
                self.state() == q0.analyzer_run(s0, x@, i as nat),
                forall|k: int| 0 <= k && k < n ==>
                    q0.analyzer_step_ok(#[trigger] q0.analyzer_run(s0, x@, k as nat), x@[2 * k], x@[2 * k + 1]),
                forall|k: int| 0 <= k && k < i ==> #[trigger] y@[2 * k]
                    == q0.analyzer_step(q0.analyzer_run(s0, x@, k as nat), x@[2 * k], x@[2 * k + 1]).1,
                forall|k: int| 0 <= k && k < i ==> #[trigger] y@[2 * k + 1]
                    == q0.analyzer_step(q0.analyzer_run(s0, x@, k as nat), x@[2 * k], x@[2 * k + 1]).2,
                forall|j: int| 2 * i <= j < y@.len() ==> #[trigger] y@[j] == old(y)@[j],
            decreases n - i,
        {
            proof {
                let ki = i as int;
                assert(q0.analyzer_step_ok(q0.analyzer_run(s0, x@, ki as nat), x@[2 * ki], x@[2 * ki + 1]));
            }
            self.analyzer_at(x, y, i);
            proof {
                assert(q0.analyzer_run(s0, x@, (i + 1) as nat)
                    == q0.analyzer_step(q0.analyzer_run(s0, x@, i as nat), x@[2 * i], x@[2 * i + 1]).0);
            }
            i = i + 1;
        }
        Ok(n_out)
    }

    /// Synthesizes a block of channel pairs: `x[2k], x[2k+1]` yield `y[2k], y[2k+1]`;
    /// returns `2 * (x.len() / 2)`. Fails, changing nothing, if `y` is shorter.
    pub fn synthesizer_execute_block(&mut self, x: &[T], y: &mut [T]) -> (r: Result<usize>)
        requires
            old(self).wf(),
            Self::exact(),
            forall|k: int| 0 <= k && k < x@.len() / 2 ==>
                old(self).synth_step_ok(#[trigger] old(self).synth_run(old(self).state(), x@, k as nat),
                    x@[2 * k], x@[2 * k + 1]),
        ensures
            r is Err <==> old(y)@.len() < 2 * ((x@.len() / 2) as nat),
            r is Err ==> r->Err_0 is Config && *final(self) == *old(self) && final(y)@ == old(y)@,
            r matches Ok(n) ==> {
                &&& n == 2 * ((x@.len() / 2) as nat)
                &&& final(self).wf()
                &&& final(self).same_config(&*old(self))
                &&& final(self).state() == old(self).synth_run(old(self).state(), x@, (x@.len() / 2) as nat)
                &&& final(y)@.len() == old(y)@.len()
                &&& forall|k: int| 0 <= k && k < x@.len() / 2 ==> #[trigger] final(y)@[2 * k]
                    == old(self).synth_step(old(self).synth_run(old(self).state(), x@, k as nat), x@[2 * k], x@[2 * k + 1]).1
                &&& forall|k: int| 0 <= k && k < x@.len() / 2 ==> #[trigger] final(y)@[2 * k + 1]
                    == old(self).synth_step(old(self).synth_run(old(self).state(), x@, k as nat), x@[2 * k], x@[2 * k + 1]).2
                &&& forall|j: int| 2 * ((x@.len() / 2) as nat) <= j < old(y)@.len() ==> #[trigger] final(y)@[j] == old(y)@[j]
            },
    {
        let n = x.len() / 2;
        let n_out = 2 * n;
        if y.len() < n_out {
            return Err(config_error("output length is shorter than the input pairs"));
        }
        let ghost s0 = self.state();
        let ghost q0 = *old(self);
        let mut i: usize = 0;
        while i < n
            invariant
                n == x@.len() / 2,
                n_out == 2 * n,
                n_out <= y@.len(),
                y@.len() == old(y)@.len(),
                i <= n,
                s0 == old(self).state(),
                q0 == *old(self),
                self.wf(),
                Self::exact(),
                self.same_config(&q0),
                self.state() == q0.synth_run(s0, x@, i as nat),
                forall|k: int| 0 <= k && k < n ==>
                    q0.synth_step_ok(#[trigger] q0.synth_run(s0, x@, k as nat), x@[2 * k], x@[2 * k + 1]),
                forall|k: int| 0 <= k && k < i ==> #[trigger] y@[2 * k]
                    == q0.synth_step(q0.synth_run(s0, x@, k as nat), x@[2 * k], x@[2 * k + 1]).1,
                forall|k: int| 0 <= k && k < i ==> #[trigger] y@[2 * k + 1]
                    == q0.synth_step(q0.synth_run(s0, x@, k as nat), x@[2 * k], x@[2 * k + 1]).2,
                forall|j: int| 2 * i <= j < y@.len() ==> #[trigger] y@[j] == old(y)@[j],
            decreases n - i,
        {
            proof {
                let ki = i as int;
                assert(q0.synth_step_ok(q0.synth_run(s0, x@, ki as nat), x@[2 * ki], x@[2 * ki + 1]));
            }
            self.synth_at(x, y, i);
            proof {
                assert(q0.synth_run(s0, x@, (i + 1) as nat)
                    == q0.synth_step(q0.synth_run(s0, x@, i as nat), x@[2 * i], x@[2 * i + 1]).0);
            }
            i = i + 1;
        }
        Ok(n_out)
    }

    /// Decimates a block by two: the pair `x[2k], x[2k+1]` yields `y[k]`; returns
    /// `x.len() / 2`. Fails, changing nothing, if `y` is shorter than that.
    pub fn decim_execute_block(&mut self, x: &[T], y: &mut [T]) -> (r: Result<usize>)
        requires
            old(self).wf(),
            Self::exact(),
            forall|k: int| 0 <= k && k < x@.len() / 2 ==>
                old(self).decim_step_ok(#[trigger] old(self).decim_run(old(self).state(), x@, k as nat),
                    x@[2 * k], x@[2 * k + 1]),
        ensures
            r is Err <==> old(y)@.len() < x@.len() / 2,
            r is Err ==> r->Err_0 is Config && *final(self) == *old(self) && final(y)@ == old(y)@,
            r matches Ok(n) ==> {
                &&& n == x@.len() / 2
                &&& final(self).wf()
                &&& final(self).m_spec() == old(self).m_spec()
                &&& final(self).h1() == old(self).h1()
                &&& final(self).zero() == old(self).zero()
                &&& final(self).half() == old(self).half()
                &&& final(self).scale_value() == old(self).scale_value()
                &&& final(self).scratch_len() >= x@.len() / 2
                &&& final(self).state() == old(self).decim_run(old(self).state(), x@, (x@.len() / 2) as nat)
                &&& final(y)@.len() == old(y)@.len()
                &&& forall|k: int| 0 <= k && k < x@.len() / 2 ==> #[trigger] final(y)@[k as int]
                    == old(self).decim_step(old(self).decim_run(old(self).state(), x@, k as nat), x@[2 * k], x@[2 * k + 1]).1
                &&& forall|j: int| x@.len() / 2 <= j < old(y)@.len() ==> #[trigger] final(y)@[j] == old(y)@[j]
            },
    {
        let n = x.len() / 2;
        if y.len() < n {
            return Err(config_error("output length is shorter than half the input length"));
        }
        self.reserve_decim_block(x.len());
        let ghost s0 = old(self).state();
        let ghost q0 = *old(self);
        let mut i: usize = 0;
        while i < n
            invariant
                n == x@.len() / 2,
                n <= y@.len(),
                y@.len() == old(y)@.len(),
                i <= n,
                s0 == old(self).state(),
                q0 == *old(self),
                self.wf(),
                Self::exact(),
                self.m_spec() == q0.m_spec(),
                self.h1() == q0.h1(),
                self.zero() == q0.zero(),
                self.half() == q0.half(),
                self.scale_value() == q0.scale_value(),
                self.scratch_len() >= n,
                self.state() == q0.decim_run(s0, x@, i as nat),
                forall|k: int| 0 <= k && k < n ==>
                    q0.decim_step_ok(#[trigger] q0.decim_run(s0, x@, k as nat), x@[2 * k], x@[2 * k + 1]),
                forall|k: int| 0 <= k && k < i ==> #[trigger] y@[k as int]
                    == q0.decim_step(q0.decim_run(s0, x@, k as nat), x@[2 * k], x@[2 * k + 1]).1,
                forall|j: int| i <= j < y@.len() ==> #[trigger] y@[j] == old(y)@[j],
            decreases n - i,
        {
            proof {
                let ki = i as int;
                assert(q0.decim_step_ok(q0.decim_run(s0, x@, ki as nat), x@[2 * ki], x@[2 * ki + 1]));
                assert(self.decim_step(self.state(), x@[2 * i], x@[2 * i + 1])
                    == q0.decim_step(self.state(), x@[2 * i], x@[2 * i + 1]));
            }
            let v = self.decim_at(x, i);
            y[i] = v;
            proof {
                assert(q0.decim_run(s0, x@, (i + 1) as nat)
                    == q0.decim_step(q0.decim_run(s0, x@, i as nat), x@[2 * i], x@[2 * i + 1]).0);
            }
            i = i + 1;
        }
        Ok(n)
    }

    /// Interpolates a block by two: `x[k]` yields `y[2k]` and `y[2k+1]`; returns
    /// `2 * x.len()`. Fails, changing nothing, when that overflows (`Range`) or `y`
    /// is too short (`Config`).
    pub fn interp_execute_block(&mut self, x: &[T], y: &mut [T]) -> (r: Result<usize>)
        requires
            old(self).wf(),
            Self::exact(),
            forall|k: int| 0 <= k && k < x@.len() ==>
                old(self).interp_step_ok(#[trigger] old(self).interp_run(old(self).state(), x@, k as nat), x@[k as int]),
        ensures
            2 * x@.len() > usize::MAX ==> (r is Err && r->Err_0 is Range),
            2 * x@.len() <= usize::MAX ==> (r is Err <==> old(y)@.len() < 2 * x@.len()),
            r is Err && 2 * x@.len() <= usize::MAX ==> r->Err_0 is Config,
            r is Err ==> *final(self) == *old(self) && final(y)@ == old(y)@,
            r matches Ok(n) ==> {
                &&& n == 2 * x@.len()
                &&& final(self).wf()
                &&& final(self).same_config(&*old(self))
                &&& final(self).state() == old(self).interp_run(old(self).state(), x@, x@.len())
                &&& final(y)@.len() == old(y)@.len()
                &&& forall|k: int| 0 <= k && k < x@.len() ==> #[trigger] final(y)@[2 * k]
                    == old(self).interp_step(old(self).interp_run(old(self).state(), x@, k as nat), x@[k as int]).1
                &&& forall|k: int| 0 <= k && k < x@.len() ==> #[trigger] final(y)@[2 * k + 1]
                    == old(self).interp_step(old(self).interp_run(old(self).state(), x@, k as nat), x@[k as int]).2
                &&& forall|j: int| 2 * x@.len() <= j < old(y)@.len() ==> #[trigger] final(y)@[j] == old(y)@[j]
            },
    {
        let n_out = match x.len().checked_mul(2) {
            Some(v) => v,
            None => { return Err(range_error("interpolation output length overflow")); }
        };
        if y.len() < n_out {
            return Err(config_error("output length is shorter than twice the input length"));
        }
        let ghost s0 = self.state();
        let ghost q0 = *old(self);
        let mut i: usize = 0;
        while i < x.len()
            invariant
                n_out == 2 * x@.len(),
                n_out <= y@.len(),
                y@.len() == old(y)@.len(),
                i <= x@.len(),
                s0 == old(self).state(),
                q0 == *old(self),
                self.wf(),
                Self::exact(),
                self.same_config(&q0),
                self.state() == q0.interp_run(s0, x@, i as nat),
                forall|k: int| 0 <= k && k < x@.len() ==>
                    q0.interp_step_ok(#[trigger] q0.interp_run(s0, x@, k as nat), x@[k as int]),
                forall|k: int| 0 <= k && k < i ==> #[trigger] y@[2 * k]
                    == q0.interp_step(q0.interp_run(s0, x@, k as nat), x@[k as int]).1,
                forall|k: int| 0 <= k && k < i ==> #[trigger] y@[2 * k + 1]
                    == q0.interp_step(q0.interp_run(s0, x@, k as nat), x@[k as int]).2,
                forall|j: int| 2 * i <= j < y@.len() ==> #[trigger] y@[j] == old(y)@[j],
            decreases x@.len() - i,
        {
            proof {
                let ki = i as int;
                assert(q0.interp_step_ok(q0.interp_run(s0, x@, ki as nat), x@[ki]));
            }
            self.interp_at(x[i], y, i);
            proof {
                assert(q0.interp_run(s0, x@, (i + 1) as nat)
                    == q0.interp_step(q0.interp_run(s0, x@, i as nat), x@[i as int]).0);
            }
            i = i + 1;
        }
        Ok(n_out)
    }
}

/// The analyzer's two channels, with unit gain on integer samples: their sum
/// is twice the odd branch's dot product (over the odd history after
/// `half * x0` entered) and their difference is twice the delayed even
/// sample, which is sample `m` of the even history before the step. The
/// histories take `half * x0` (odd) and `half * x1` (even).
pub proof fn lemma_analyzer_channels(q: &Resamp2<i64, i64>, st: Resamp2State<i64>, x0: i64, x1: i64)
    requires
        q.wf(),
        st.w0.len() == 2 * q.m_spec(),
        st.w1.len() == 2 * q.m_spec(),
        q.scale_value() is None,
        q.analyzer_step_ok(st, x0, x1),
    ensures
        ({
            let (s2, lo, hi) = q.analyzer_step(st, x0, x1);
            let n1 = st.w1.drop_first().push(smul(q.half(), x0));
            &&& s2.w1 == n1
            &&& s2.w0 == st.w0.drop_first().push(smul(q.half(), x1))
            &&& s2.toggle == st.toggle
            &&& lo + hi == 2 * dot_spec(n1, q.h1(), q.zero())
            &&& lo - hi == 2 * st.w0[q.m_spec() as int]
        }),
{
    let m = q.m_spec() as int;
    assert(st.w0.drop_first().push(smul(q.half(), x1))[m - 1] == st.w0[m]);
}

} // verus!
