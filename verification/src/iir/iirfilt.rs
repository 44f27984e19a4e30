use vstd::prelude::*;
use vstd::std_specs::ops::{AddSpec, SubSpec, MulSpec, DivSpec};
use core::ops::{Add, Sub, Mul, Div};
use crate::error::{Result, config_error};
use crate::dotprod::{dot_spec, dot_ok, scaled, scale_ok, dotprod, apply_scale};
use crate::window::{zeros, is_default};
use crate::fir::firfilt::lemma_dot_single;
use crate::iir::iirfiltsos::{IirFilterSos, SosState, df2_step, df2_ok, iir_exact, normalize_ok, unit_at};

verus! {

#[derive(Debug, Clone, Copy, PartialEq, Eq, Structural)]
enum IirFilterType {
    Norm,
    Sos,
}

/// `b[i] / a0` for every `i`.
pub open spec fn normalized<C: Div<Output = C>>(b: Seq<C>, a0: C) -> Seq<C> {
    Seq::new(b.len(), |i: int| b[i].div_spec(a0))
}

pub open spec fn normalized_ok<C: Div<Output = C>>(b: Seq<C>, a0: C) -> bool {
    forall|i: int| 0 <= i < b.len() ==> #[trigger] b[i].div_req(a0)
}

/// Buffer after the shift of a transfer-function step: `zero` enters at the front.
pub open spec fn norm_shifted<T>(v: Seq<T>, zero: T) -> Seq<T> {
    seq![zero] + v.take(v.len() - 1)
}

/// One transfer-function (direct form II) step: new buffer and unscaled output.
pub open spec fn norm_step<T, C>(v: Seq<T>, b: Seq<C>, a: Seq<C>, zero: T, x: T) -> (Seq<T>, T)
    where T: Add<Output = T> + Sub<Output = T> + Mul<C, Output = T>,
{
    let v1 = norm_shifted(v, zero);
    let v0 = x.sub_spec(dot_spec(v1.take(a.len() as int), a, zero));
    let v2 = v1.update(0, v0);
    (v2, dot_spec(v2.take(b.len() as int), b, zero))
}

pub open spec fn norm_step_ok<T, C>(v: Seq<T>, b: Seq<C>, a: Seq<C>, zero: T, x: T) -> bool
    where T: Add<Output = T> + Sub<Output = T> + Mul<C, Output = T>,
{
    let v1 = norm_shifted(v, zero);
    let v0 = x.sub_spec(dot_spec(v1.take(a.len() as int), a, zero));
    let v2 = v1.update(0, v0);
    &&& dot_ok(v1.take(a.len() as int), a, zero)
    &&& x.sub_req(dot_spec(v1.take(a.len() as int), a, zero))
    &&& dot_ok(v2.take(b.len() as int), b, zero)
}

/// The first `i` sections run in cascade on `x`: their new states and the output
/// of section `i - 1` (`x` when `i == 0`).
pub open spec fn sos_chain<T, C>(secs: Seq<SosState<T, C>>, x: T, i: nat) -> (Seq<SosState<T, C>>, T)
    where T: Add<Output = T> + Sub<Output = T> + Mul<C, Output = T>, C: Mul<T, Output = T>,
    decreases i,
{
    if i == 0 {
        (Seq::empty(), x)
    } else {
        let (p, y) = sos_chain(secs, x, (i - 1) as nat);
        let (s, y2) = df2_step(secs[i - 1], y);
        (p.push(s), y2)
    }
}

pub open spec fn sos_chain_ok<T, C>(secs: Seq<SosState<T, C>>, x: T, i: nat) -> bool
    where T: Add<Output = T> + Sub<Output = T> + Mul<C, Output = T>, C: Mul<T, Output = T>,
    decreases i,
{
    if i == 0 {
        true
    } else {
        sos_chain_ok(secs, x, (i - 1) as nat) && df2_ok(secs[i - 1], sos_chain(secs, x, (i - 1) as nat).1)
    }
}

/// Buffers of an IIR filter.
pub struct IirModel<T, C> {
    /// Transfer-function buffer.
    pub v: Seq<T>,
    /// Second-order section states.
    pub secs: Seq<SosState<T, C>>,
}

/// Infinite impulse response (IIR) filter, either in transfer-function form
/// (numerator `b`, denominator `a`, both normalized to `a[0]`) or as a cascade of
/// second-order sections.
#[derive(Debug, Clone)]
pub struct IirFilter<T, Coeff = T> {
    b: Vec<Coeff>,
    a: Vec<Coeff>,
    v: Vec<T>,
    n: usize,
    nb: usize,
    na: usize,
    filter_type: IirFilterType,
    qsos: Vec<IirFilterSos<T, Coeff>>,
    scale: Option<Coeff>,
    zero: T,
}

impl<T, Coeff> IirFilter<T, Coeff>
where
    T: Copy + Default + Add<Output = T> + Sub<Output = T> + Mul<Coeff, Output = T>,
    Coeff: Copy + Default + Mul<T, Output = T> + Div<Output = Coeff>,
{
    pub closed spec fn wf(&self) -> bool {
        &&& if self.filter_type == IirFilterType::Norm {
            &&& self.nb == self.b@.len()
            &&& self.na == self.a@.len()
            &&& self.nb > 0
            &&& self.na > 0
            &&& self.n == (if self.na > self.nb { self.na } else { self.nb })
            &&& self.v@.len() == self.n
        } else {
            &&& self.qsos@.len() > 0
            &&& self.n == 2 * self.qsos@.len()
            &&& self.nb == 0
            &&& self.na == 0
            &&& forall|i: int| 0 <= i < self.qsos@.len() ==> (#[trigger] self.qsos@[i]).zero() == self.zero
        }
        &&& is_default(self.zero)
    }

    /// The zero of any filter in a valid state is a value `T::default()`
    /// returns.
    pub proof fn lemma_zero_is_default(&self)
        requires
            self.wf(),
        ensures
            is_default(self.zero()),
    {
    }

    /// The filter is a cascade of second-order sections.
    pub closed spec fn is_sos(&self) -> bool {
        self.filter_type == IirFilterType::Sos
    }

    /// Numerator coefficients (normalized, in transfer-function form; as given,
    /// in section form).
    pub closed spec fn b_coeffs(&self) -> Seq<Coeff> {
        self.b@
    }

    /// Denominator coefficients (normalized, in transfer-function form; as given,
    /// in section form).
    pub closed spec fn a_coeffs(&self) -> Seq<Coeff> {
        self.a@
    }

    /// Transfer-function buffer.
    pub closed spec fn buffer(&self) -> Seq<T> {
        self.v@
    }

    /// The second-order sections.
    pub closed spec fn sections(&self) -> Seq<SosState<T, Coeff>> {
        Seq::new(self.qsos@.len(), |i: int| self.qsos@[i].state())
    }

    /// Every section's buffers hold `zero()`.
    pub open spec fn sections_cleared(&self) -> bool {
        forall|i: int| 0 <= i < self.sections().len() ==> {
            &&& (#[trigger] self.sections()[i]).x == seq![self.zero(), self.zero(), self.zero()]
            &&& self.sections()[i].y == seq![self.zero(), self.zero(), self.zero()]
            &&& self.sections()[i].v == seq![self.zero(), self.zero(), self.zero()]
        }
    }

    /// Filter length (order + 1; twice the number of sections in section form).
    pub closed spec fn length(&self) -> nat {
        self.n as nat
    }

    /// The value the transfer-function buffer is cleared to.
    pub closed spec fn zero(&self) -> T {
        self.zero
    }

    /// The output scaling; `None` is unit gain.
    pub closed spec fn scale_value(&self) -> Option<Coeff> {
        self.scale
    }

    /// Transfer-function buffer and section states.
    pub open spec fn model(&self) -> IirModel<T, Coeff> {
        IirModel { v: self.buffer(), secs: self.sections() }
    }

    /// Everything but the buffers is as in `other`.
    pub open spec fn same_config(&self, other: &Self) -> bool {
        &&& self.is_sos() == other.is_sos()
        &&& self.b_coeffs() == other.b_coeffs()
        &&& self.a_coeffs() == other.a_coeffs()
        &&& self.length() == other.length()
        &&& self.zero() == other.zero()
        &&& self.scale_value() == other.scale_value()
    }

    /// One `execute(x)` from buffers `m`: new buffers and the output.
    pub open spec fn step(&self, m: IirModel<T, Coeff>, x: T) -> (IirModel<T, Coeff>, T) {
        if self.is_sos() {
            let (secs, y) = sos_chain(m.secs, x, m.secs.len());
            (IirModel { v: m.v, secs: secs }, scaled(y, self.scale_value()))
        } else {
            let (v, y) = norm_step(m.v, self.b_coeffs(), self.a_coeffs(), self.zero(), x);
            (IirModel { v: v, secs: m.secs }, scaled(y, self.scale_value()))
        }
    }

    pub open spec fn step_ok(&self, m: IirModel<T, Coeff>, x: T) -> bool {
        if self.is_sos() {
            &&& sos_chain_ok(m.secs, x, m.secs.len())
            &&& scale_ok(sos_chain(m.secs, x, m.secs.len()).1, self.scale_value())
        } else {
            &&& norm_step_ok(m.v, self.b_coeffs(), self.a_coeffs(), self.zero(), x)
            &&& scale_ok(norm_step(m.v, self.b_coeffs(), self.a_coeffs(), self.zero(), x).1, self.scale_value())
        }
    }

    /// Buffers after `k` steps on `xs` from `m`.
    pub open spec fn run(&self, m: IirModel<T, Coeff>, xs: Seq<T>, k: nat) -> IirModel<T, Coeff>
        decreases k,
    {
        if k == 0 { m } else { self.step(self.run(m, xs, (k - 1) as nat), xs[k - 1]).0 }
    }

    /// A transfer-function step moves the whole buffer one place along: entry
    /// `k` of the new buffer is entry `k - 1` of the old one for every
    /// `1 <= k < length()`. The new front entry is the input minus the
    /// feedback (the denominator over the new buffer with its front cleared to
    /// the zero), and the output is the numerator over the new buffer, scaled.
    pub proof fn lemma_norm_step_shifts(&self, m: IirModel<T, Coeff>, x: T)
        requires
            self.wf(),
            !self.is_sos(),
            m.v.len() == self.length(),
        ensures
            ({
                let (m2, y) = self.step(m, x);
                &&& m2.v.len() == m.v.len()
                &&& forall|k: int| 1 <= k < m.v.len() ==> #[trigger] m2.v[k] == m.v[k - 1]
                &&& m2.secs == m.secs
                &&& m2.v[0] == x.sub_spec(dot_spec(m2.v.update(0, self.zero()).take(self.a_coeffs().len() as int),
                    self.a_coeffs(), self.zero()))
                &&& y == scaled(dot_spec(m2.v.take(self.b_coeffs().len() as int), self.b_coeffs(), self.zero()),
                    self.scale_value())
            }),
    {
        let v1 = norm_shifted(m.v, self.zero());
        let (m2, y) = self.step(m, x);
        assert(m2.v.update(0, self.zero()) =~= v1);
    }

    /// `self` is what `new(b, a)` returns.
    pub open spec fn created_from(&self, b: Seq<Coeff>, a: Seq<Coeff>) -> bool {
        &&& self.wf()
        &&& !self.is_sos()
        &&& self.length() == if a.len() > b.len() { a.len() } else { b.len() }
        &&& self.b_coeffs().len() == b.len()
        &&& self.a_coeffs().len() == a.len()
        &&& Coeff::obeys_div_spec() ==> self.b_coeffs() == normalized(b, a[0]) && self.a_coeffs() == normalized(a, a[0])
        &&& self.buffer() == zeros(self.length(), self.zero())
        &&& is_default(self.zero())
        &&& self.scale_value() is None
    }

    /// Creates a transfer-function filter `b / a`; both are divided by `a[0]`.
    /// Fails if either is empty.
    pub fn new(b: &[Coeff], a: &[Coeff]) -> (r: Result<Self>)
        requires
            a@.len() > 0 ==> normalized_ok(b@, a@[0]) && normalized_ok(a@, a@[0]),
        ensures
            (b@.len() == 0 || a@.len() == 0) <==> r is Err,
            r is Err ==> r->Err_0 is Config,
            r matches Ok(q) ==> q.created_from(b@, a@),
    {
        if b.len() == 0 {
            return Err(config_error("numerator length cannot be zero"));
        }
        if a.len() == 0 {
            return Err(config_error("denominator length cannot be zero"));
        }
        let nb = b.len();
        let na = a.len();
        let n = if na > nb { na } else { nb };
        let z = T::default();
        let a0 = a[0];
        let bn = normalize(b, a0);
        let an = normalize(a, a0);
        let mut v: Vec<T> = Vec::new();
        let mut i: usize = 0;
        while i < n
            invariant
                i <= n,
                v@ == zeros(i as nat, z),
            decreases n - i,
        {
            v.push(z);
            i = i + 1;
            assert(v@ =~= zeros(i as nat, z));
        }
        Ok(IirFilter {
            b: bn, a: an, v, n, nb, na,
            filter_type: IirFilterType::Norm,
            qsos: Vec::new(),
            scale: None,
            zero: z,
        })
    }

    /// Creates a cascade of `nsos` second-order sections; section `i` has
    /// numerator `b[3i..3i+3]` and denominator `a[3i..3i+3]`. Fails if `nsos == 0`.
    pub fn new_sos(b: &[Coeff], a: &[Coeff], nsos: usize) -> (r: Result<Self>)
        requires
            b@.len() >= 3 * nsos,
            a@.len() >= 3 * nsos,
            forall|i: int| 0 <= i < nsos ==>
                #[trigger] normalize_ok(b@.subrange(3 * i, 3 * i + 3), a@.subrange(3 * i, 3 * i + 3)),
        ensures
            nsos == 0 <==> r is Err,
            r is Err ==> r->Err_0 is Config,
            r matches Ok(q) ==> {
                &&& q.wf()
                &&& q.is_sos()
                &&& q.length() == 2 * nsos
                &&& q.sections().len() == nsos
                &&& q.sections_cleared()
                &&& is_default(q.zero())
                &&& q.b_coeffs() == b@
                &&& q.a_coeffs() == a@
                &&& Coeff::obeys_div_spec() ==> forall|i: int| 0 <= i < nsos ==> {
                    &&& (#[trigger] q.sections()[i]).b == normalized(b@.subrange(3 * i, 3 * i + 3), a@[3 * i])
                    &&& q.sections()[i].a == normalized(a@.subrange(3 * i, 3 * i + 3), a@[3 * i])
                }
                &&& q.scale_value() is None
            },
    {
        if nsos == 0 {
            return Err(config_error("filter must have at least one 2nd-order section"));
        }
        let blen = b.len();
        let z = T::default();
        let mut qsos: Vec<IirFilterSos<T, Coeff>> = Vec::new();
        let mut i: usize = 0;
        while i < nsos
            invariant
                i <= nsos,
                blen == b@.len(),
                b@.len() >= 3 * nsos,
                a@.len() >= 3 * nsos,
                forall|k: int| 0 <= k < nsos ==>
                    #[trigger] normalize_ok(b@.subrange(3 * k, 3 * k + 3), a@.subrange(3 * k, 3 * k + 3)),
                qsos@.len() == i,
                forall|k: int| 0 <= k < i ==> (#[trigger] qsos@[k]).cleared(),
                forall|k: int| 0 <= k < i ==> (#[trigger] qsos@[k]).zero() == z,
                Coeff::obeys_div_spec() ==> forall|k: int| 0 <= k < i ==> {
                    &&& (#[trigger] qsos@[k]).state().b == normalized(b@.subrange(3 * k, 3 * k + 3), a@[3 * k])
                    &&& qsos@[k].state().a == normalized(a@.subrange(3 * k, 3 * k + 3), a@[3 * k])
                },
            decreases nsos - i,
        {
            let bt = [b[3 * i], b[3 * i + 1], b[3 * i + 2]];
            let at = [a[3 * i], a[3 * i + 1], a[3 * i + 2]];
            proof {
                assert(bt@ =~= b@.subrange(3 * i, 3 * i + 3));
                assert(at@ =~= a@.subrange(3 * i, 3 * i + 3));
                assert(normalize_ok(b@.subrange(3 * i, 3 * i + 3), a@.subrange(3 * i, 3 * i + 3)));
            }
            let s = IirFilterSos::with_zero(&bt, &at, z);
            proof {
                if Coeff::obeys_div_spec() {
                    assert(s.state().b =~= normalized(b@.subrange(3 * i, 3 * i + 3), a@[3 * i]));
                    assert(s.state().a =~= normalized(a@.subrange(3 * i, 3 * i + 3), a@[3 * i]));
                }
            }
            qsos.push(s);
            i = i + 1;
        }
        Ok(IirFilter {
            b: crate::fir::firfilt::copied(b),
            a: crate::fir::firfilt::copied(a),
            v: Vec::new(),
            n: nsos * 2,
            nb: 0,
            na: 0,
            filter_type: IirFilterType::Sos,
            qsos,
            scale: None,
            zero: z,
        })
    }

    /// Clears the buffers (all sections in section form).
    pub fn reset(&mut self)
        requires
            old(self).wf(),
        ensures
            final(self).wf(),
            final(self).same_config(&*old(self)),
            is_default(final(self).zero()),
            !old(self).is_sos() ==> final(self).buffer() == zeros(old(self).length(), old(self).zero())
                && final(self).sections() == old(self).sections(),
            old(self).is_sos() ==> final(self).sections_cleared() && final(self).buffer() == old(self).buffer()
                && final(self).sections().len() == old(self).sections().len()
                && forall|i: int| 0 <= i < old(self).sections().len() ==>
                    (#[trigger] final(self).sections()[i]).b == old(self).sections()[i].b
                    && final(self).sections()[i].a == old(self).sections()[i].a,
    {
        if self.filter_type == IirFilterType::Sos {
            let mut i: usize = 0;
            while i < self.qsos.len()
                invariant
                    i <= self.qsos@.len(),
                    self.qsos@.len() == old(self).qsos@.len(),
                    self.filter_type == old(self).filter_type,
                    self.b == old(self).b,
                    self.a == old(self).a,
                    self.v == old(self).v,
                    self.n == old(self).n,
                    self.nb == old(self).nb,
                    self.na == old(self).na,
                    self.zero == old(self).zero,
                    self.scale == old(self).scale,
                    forall|k: int| 0 <= k < i ==> (#[trigger] self.qsos@[k]).cleared(),
                    forall|k: int| 0 <= k < self.qsos@.len() ==> (#[trigger] self.qsos@[k]).zero() == self.zero,
                    forall|k: int| 0 <= k < self.qsos@.len() ==>
                        (#[trigger] self.qsos@[k]).state().b == old(self).qsos@[k].state().b
                        && self.qsos@[k].state().a == old(self).qsos@[k].state().a,
                    forall|k: int| i <= k < self.qsos@.len() ==> #[trigger] self.qsos@[k] == old(self).qsos@[k],
                decreases self.qsos@.len() - i,
            {
                let mut sec = self.qsos[i];
                sec.reset();
                self.qsos.set(i, sec);
                i = i + 1;
            }
        } else {
            let mut i: usize = 0;
            while i < self.v.len()
                invariant
                    i <= self.v@.len(),
                    self.v@.len() == old(self).v@.len(),
                    self.filter_type == old(self).filter_type,
                    self.b == old(self).b,
                    self.a == old(self).a,
                    self.qsos == old(self).qsos,
                    self.n == old(self).n,
                    self.nb == old(self).nb,
                    self.na == old(self).na,
                    self.zero == old(self).zero,
                    self.scale == old(self).scale,
                    forall|k: int| 0 <= k < i ==> #[trigger] self.v@[k] == self.zero,
                decreases self.v@.len() - i,
            {
                let z = self.zero;
                self.v.set(i, z);
                i = i + 1;
            }
            proof { assert(self.v@ =~= zeros(self.n as nat, self.zero)); }
        }
    }

    /// Sets the output scaling.
    pub fn set_scale(&mut self, scale: Coeff)
        requires
            old(self).wf(),
        ensures
            final(self).wf(),
            final(self).scale_value() == Some(scale),
            final(self).is_sos() == old(self).is_sos(),
            final(self).b_coeffs() == old(self).b_coeffs(),
            final(self).a_coeffs() == old(self).a_coeffs(),
            final(self).length() == old(self).length(),
            final(self).zero() == old(self).zero(),
            final(self).model() == old(self).model(),
    {
        self.scale = Some(scale);
    }

    /// The output scaling: the factor last set, or one (`Coeff::from(1u8)`)
    /// until `set_scale` was called.
    pub fn get_scale(&self) -> (r: Coeff)
        where Coeff: From<u8>,
        ensures
            crate::dotprod::scale_factor_is(self.scale_value(), r),
    {
        crate::dotprod::scale_or_one(self.scale)
    }

    /// Replaces the coefficients. A single-section filter takes the first three of
    /// `b` and `a` for its section; a transfer-function filter needs `b` and `a` of
    /// the lengths it was created with (otherwise `Config`, nothing changed) and
    /// divides them by `a[0]`. Buffers are kept.
    pub fn set_coefficients(&mut self, b: &[Coeff], a: &[Coeff]) -> (r: Result<()>)
        requires
            old(self).wf(),
            old(self).is_sos() && old(self).sections().len() == 1 ==> b@.len() >= 3 && a@.len() >= 3
                && normalize_ok(b@.take(3), a@.take(3)),
            old(self).is_sos() && old(self).sections().len() != 1 ==> b@.len() > 0 || a@.len() > 0,
            !old(self).is_sos() && a@.len() > 0 ==> normalized_ok(b@, a@[0]) && normalized_ok(a@, a@[0]),
        ensures
            final(self).wf(),
            old(self).is_sos() && old(self).sections().len() == 1 ==> {
                &&& r is Ok
                &&& final(self).same_config(&*old(self))
                &&& final(self).buffer() == old(self).buffer()
                &&& final(self).sections().len() == 1
                &&& final(self).sections()[0].v == old(self).sections()[0].v
                &&& final(self).sections()[0].x == old(self).sections()[0].x
                &&& final(self).sections()[0].y == old(self).sections()[0].y
                &&& Coeff::obeys_div_spec() ==> final(self).sections()[0].b == normalized(b@.take(3), a@[0])
                    && final(self).sections()[0].a == normalized(a@.take(3), a@[0])
            },
            !(old(self).is_sos() && old(self).sections().len() == 1) ==> {
                &&& (r is Err <==> (old(self).is_sos() || b@.len() != old(self).b_coeffs().len()
                        || a@.len() != old(self).a_coeffs().len()))
                &&& r is Err ==> r->Err_0 is Config && *final(self) == *old(self)
                &&& r is Ok ==> {
                    &&& final(self).is_sos() == old(self).is_sos()
                    &&& final(self).length() == old(self).length()
                    &&& final(self).zero() == old(self).zero()
                    &&& final(self).scale_value() == old(self).scale_value()
                    &&& final(self).model() == old(self).model()
                    &&& final(self).b_coeffs().len() == b@.len()
                    &&& final(self).a_coeffs().len() == a@.len()
                    &&& Coeff::obeys_div_spec() ==> final(self).b_coeffs() == normalized(b@, a@[0])
                        && final(self).a_coeffs() == normalized(a@, a@[0])
                }
            },
    {
        if self.filter_type == IirFilterType::Sos && self.qsos.len() == 1 {
            let bt = [b[0], b[1], b[2]];
            let at = [a[0], a[1], a[2]];
            proof {
                assert(bt@ =~= b@.take(3));
                assert(at@ =~= a@.take(3));
            }
            let mut sec = self.qsos[0];
            let r = sec.set_coefficients(&bt, &at);
            self.qsos.set(0, sec);
            proof {
                if Coeff::obeys_div_spec() {
                    assert(self.sections()[0].b =~= normalized(b@.take(3), a@[0]));
                    assert(self.sections()[0].a =~= normalized(a@.take(3), a@[0]));
                }
            }
            return r;
        }
        if self.filter_type == IirFilterType::Sos || b.len() != self.nb || a.len() != self.na {
            return Err(config_error("coefficient vector lengths must match filter order"));
        }
        let a0 = a[0];
        self.b = normalize(b, a0);
        self.a = normalize(a, a0);
        Ok(())
    }

    /// Copies of the numerator and denominator coefficients.
    pub fn get_coeffs(&self) -> (r: (Vec<Coeff>, Vec<Coeff>))
        ensures
            r.0@ == self.b_coeffs(),
            r.1@ == self.a_coeffs(),
    {
        (crate::fir::firfilt::copied(self.b.as_slice()), crate::fir::firfilt::copied(self.a.as_slice()))
    }

    /// Filter length (order + 1; twice the number of sections in section form).
    pub fn get_length(&self) -> (r: usize)
        ensures
            r == self.length(),
    {
        self.n
    }

    /// The value the transfer-function buffer is cleared to (`T::default()`).
    pub(crate) fn zero_value(&self) -> (r: T)
        ensures
            r == self.zero(),
    {
        self.zero
    }

    fn execute_norm(&mut self, x: T) -> (y: T)
        requires
            old(self).wf(),
            !old(self).is_sos(),
            iir_exact::<T, Coeff>(),
            old(self).step_ok(old(self).model(), x),
        ensures
            final(self).wf(),
            final(self).same_config(&*old(self)),
            final(self).model() == old(self).step(old(self).model(), x).0,
            y == old(self).step(old(self).model(), x).1,
    {
        let ghost v0s = self.v@;
        self.v.pop();
        let z = self.zero;
        self.v.insert(0, z);
        proof {
            assert(self.v@ =~= norm_shifted(v0s, self.zero));
        }
        let na = self.na;
        let nb = self.nb;
        let ghost v1s = self.v@;
        let d = {
            let vs = self.v.as_slice();
            let pre = &vs[0..na];
            proof {
                assert(pre@ =~= v1s.take(na as int));
                assert(self.a@.skip(0) =~= self.a@);
            }
            dotprod(pre, self.a.as_slice(), 0, z)
        };
        let v0 = x - d;
        self.v.set(0, v0);
        let yv = {
            let vs = self.v.as_slice();
            let pre = &vs[0..nb];
            proof {
                assert(pre@ =~= v1s.update(0, v0).take(nb as int));
                assert(self.b@.skip(0) =~= self.b@);
            }
            dotprod(pre, self.b.as_slice(), 0, z)
        };
        proof {
            assert(self.v@ =~= v1s.update(0, v0));
        }
        apply_scale(yv, self.scale)
    }

    fn execute_sos(&mut self, x: T) -> (y: T)
        requires
            old(self).wf(),
            old(self).is_sos(),
            iir_exact::<T, Coeff>(),
            old(self).step_ok(old(self).model(), x),
        ensures
            final(self).wf(),
            final(self).same_config(&*old(self)),
            final(self).model() == old(self).step(old(self).model(), x).0,
            y == old(self).step(old(self).model(), x).1,
    {
        let ghost secs0 = old(self).sections();
        let ghost len = secs0.len();
        proof { lemma_sos_chain_ok_prefix(secs0, x, len); }
        let mut y = x;
        let mut i: usize = 0;
        while i < self.qsos.len()
            invariant
                secs0 == old(self).sections(),
                len == secs0.len(),
                i <= len,
                self.qsos@.len() == len,
                self.filter_type == old(self).filter_type,
                self.b == old(self).b,
                self.a == old(self).a,
                self.v == old(self).v,
                self.n == old(self).n,
                self.nb == old(self).nb,
                self.na == old(self).na,
                self.zero == old(self).zero,
                self.scale == old(self).scale,
                iir_exact::<T, Coeff>(),
                forall|k: nat| k <= len ==> #[trigger] sos_chain_ok(secs0, x, k),
                y == sos_chain(secs0, x, i as nat).1,
                sos_chain(secs0, x, i as nat).0.len() == i,
                forall|k: int| 0 <= k < i ==> #[trigger] self.qsos@[k].state() == sos_chain(secs0, x, i as nat).0[k],
                forall|k: int| i <= k < len ==> #[trigger] self.qsos@[k] == old(self).qsos@[k],
                forall|k: int| 0 <= k < len ==> (#[trigger] self.qsos@[k]).zero() == self.zero,
            decreases len - i,
        {
            let ghost ii = i as nat;
            proof {
                assert(sos_chain_ok(secs0, x, ii + 1));
                assert(self.qsos@[i as int].state() == secs0[i as int]);
            }
            let mut sec = self.qsos[i];
            y = sec.execute(y);
            self.qsos.set(i, sec);
            proof {
                assert forall|k: int| 0 <= k < i + 1 implies #[trigger] self.qsos@[k].state()
                    == sos_chain(secs0, x, ii + 1).0[k] by {
                    if k < i {
                        assert(sos_chain(secs0, x, ii + 1).0[k] == sos_chain(secs0, x, ii).0[k]);
                    }
                }
            }
            i = i + 1;
        }
        proof {
            assert(self.sections() =~= sos_chain(secs0, x, len).0);
        }
        apply_scale(y, self.scale)
    }

    /// Filters one sample.
    pub fn execute(&mut self, x: T) -> (y: T)
        requires
            old(self).wf(),
            iir_exact::<T, Coeff>(),
            old(self).step_ok(old(self).model(), x),
        ensures
            final(self).wf(),
            final(self).same_config(&*old(self)),
            final(self).model() == old(self).step(old(self).model(), x).0,
            y == old(self).step(old(self).model(), x).1,
    {
        if self.filter_type == IirFilterType::Norm {
            self.execute_norm(x)
        } else {
            self.execute_sos(x)
        }
    }

    /// Filters a block: `y[k]` is the output for `x[k]` after `x[0..k]` were
    /// filtered. Fails, changing nothing, if the lengths differ.
    pub fn execute_block(&mut self, x: &[T], y: &mut [T]) -> (r: Result<()>)
        requires
            old(self).wf(),
            iir_exact::<T, Coeff>(),
            forall|k: int| 0 <= k < x@.len() ==>
                old(self).step_ok(#[trigger] old(self).run(old(self).model(), x@, k as nat), x@[k]),
        ensures
            x@.len() != old(y)@.len() <==> r is Err,
            r is Err ==> r->Err_0 is Config && *final(self) == *old(self) && final(y)@ == old(y)@,
            r is Ok ==> {
                &&& final(self).wf()
                &&& final(self).same_config(&*old(self))
                &&& final(self).model() == old(self).run(old(self).model(), x@, x@.len())
                &&& final(y)@.len() == old(y)@.len()
                &&& forall|k: int| 0 <= k < x@.len() ==> #[trigger] final(y)@[k]
                    == old(self).step(old(self).run(old(self).model(), x@, k as nat), x@[k]).1
            },
    {
        if x.len() != y.len() {
            return Err(config_error("input and output block lengths must be equal"));
        }
        let ghost m0 = self.model();
        let ghost q0 = *old(self);
        let mut i: usize = 0;
        while i < x.len()
            invariant
                i <= x@.len(),
                x@.len() == y@.len(),
                m0 == old(self).model(),
                q0 == *old(self),
                self.wf(),
                iir_exact::<T, Coeff>(),
                self.same_config(&q0),
                self.model() == q0.run(m0, x@, i as nat),
                forall|k: int| 0 <= k < x@.len() ==> q0.step_ok(#[trigger] q0.run(m0, x@, k as nat), x@[k]),
                forall|k: int| 0 <= k < i ==> #[trigger] y@[k] == q0.step(q0.run(m0, x@, k as nat), x@[k]).1,
            decreases x@.len() - i,
        {
            proof {
                let ki = i as int;
                assert(q0.step_ok(q0.run(m0, x@, ki as nat), x@[ki]));
                assert(self.step_ok(self.model(), x@[ki]) == q0.step_ok(self.model(), x@[ki]));
                assert(self.step(self.model(), x@[ki]) == q0.step(self.model(), x@[ki]));
            }
            let v = self.execute(x[i]);
            y[i] = v;
            i = i + 1;
        }
        Ok(())
    }
}

pub proof fn lemma_sos_chain_ok_prefix<T, C>(secs: Seq<SosState<T, C>>, x: T, i: nat)
    where T: Add<Output = T> + Sub<Output = T> + Mul<C, Output = T>, C: Mul<T, Output = T>,
    requires
        sos_chain_ok(secs, x, i),
    ensures
        forall|k: nat| k <= i ==> #[trigger] sos_chain_ok(secs, x, k),
        forall|k: nat| k <= i ==> #[trigger] sos_chain(secs, x, k).0.len() == k,
    decreases i,
{
    if i > 0 {
        lemma_sos_chain_ok_prefix(secs, x, (i - 1) as nat);
    }
}

/// `b[i] / a0` for every `i`.
fn normalize<C: Copy + Div<Output = C>>(b: &[C], a0: C) -> (r: Vec<C>)
    requires
        normalized_ok(b@, a0),
    ensures
        r@.len() == b@.len(),
        C::obeys_div_spec() ==> r@ == normalized(b@, a0),
{
    let mut r: Vec<C> = Vec::new();
    let mut i: usize = 0;
    while i < b.len()
        invariant
            i <= b@.len(),
            normalized_ok(b@, a0),
            r@.len() == i,
            C::obeys_div_spec() ==> forall|k: int| 0 <= k < i ==> #[trigger] r@[k] == b@[k].div_spec(a0),
        decreases b@.len() - i,
    {
        assert(b@[i as int].div_req(a0));
        r.push(b[i] / a0);
        i = i + 1;
    }
    proof {
        if C::obeys_div_spec() {
            assert(r@ =~= normalized(b@, a0));
        }
    }
    r
}


proof fn lemma_dot_zeros_i64(m: nat, c: Seq<i64>)
    ensures
        dot_ok(zeros(m, 0i64), c, 0i64),
        dot_spec(zeros(m, 0i64), c, 0i64) == 0i64,
    decreases m,
{
    if m > 0 {
        assert(zeros(m, 0i64).take(m - 1) =~= zeros((m - 1) as nat, 0i64));
        lemma_dot_zeros_i64((m - 1) as nat, c);
        assert(zeros(m, 0i64)[m - 1] == 0i64);
        assert(0i64.mul_req(c[m - 1]));
        assert(0i64.mul_spec(c[m - 1]) == 0i64);
        assert(0i64.add_req(0i64));
    }
}

/// Buffer of a transfer-function filter with denominator `[1]` and a cleared
/// buffer after `k` steps of a unit impulse: the impulse sits at position
/// `k - 1` until it leaves the buffer.
proof fn lemma_fir_like_run(f: IirFilter<i64, i64>, xs: Seq<i64>, k: nat)
    requires
        f.wf(),
        !f.is_sos(),
        f.a_coeffs() == seq![1i64],
        f.scale_value() is None,
        f.model().v == zeros(f.length(), f.zero()),
        k <= xs.len(),
        forall|j: int| 0 <= j < xs.len() ==> #[trigger] xs[j] == if j == 0 { 1i64 } else { 0i64 },
    ensures
        f.run(f.model(), xs, k).v == if 1 <= k <= f.length() { unit_at(f.length(), k - 1) } else { zeros(f.length(), 0i64) },
        f.run(f.model(), xs, k).secs == f.model().secs,
        forall|j: int| 0 <= j < k ==> #[trigger] f.step_ok(f.run(f.model(), xs, j as nat), xs[j]),
    decreases k,
{
    f.lemma_zero_is_default();
    let n = f.length();
    let b = f.b_coeffs();
    assert(b.len() == n);
    if k > 0 {
        let j = (k - 1) as nat;
        lemma_fir_like_run(f, xs, j);
        let m = f.run(f.model(), xs, j);
        let x = xs[j as int];
        let v1 = norm_shifted(m.v, 0i64);
        let expect = if 1 <= k <= n { unit_at(n, k - 1) } else { zeros(n, 0i64) };
        assert(v1[0] == 0i64);
        let s1 = v1.take(1);
        assert(s1 =~= seq![0i64]);
        assert(s1.take(0) =~= Seq::<i64>::empty());
        assert(dot_spec(s1.take(0), f.a_coeffs(), 0i64) == 0i64);
        assert(f.a_coeffs()[0] == 1i64);
        assert(s1[0].mul_spec(f.a_coeffs()[0]) == 0i64);
        assert(s1[0].mul_req(f.a_coeffs()[0]));
        assert(dot_ok(s1.take(0), f.a_coeffs(), 0i64));
        assert(0i64.add_req(s1[0].mul_spec(f.a_coeffs()[0])));
        assert(dot_ok(s1, f.a_coeffs(), 0i64));
        assert(dot_spec(s1, f.a_coeffs(), 0i64) == 0i64);
        let v2 = v1.update(0, x.sub_spec(dot_spec(v1.take(1), f.a_coeffs(), 0i64)));
        assert(v2 =~= expect);
        assert(v2.take(b.len() as int) =~= v2);
        if 1 <= k <= n {
            lemma_dot_single(v2, b, k - 1, n as int);
            assert(v2.take(n as int) =~= v2);
        } else {
            lemma_dot_zeros_i64(n, b);
        }
        assert(x.sub_req(0i64));
        assert(f.a_coeffs().len() == 1);
        assert(v1.take(f.a_coeffs().len() as int) == s1);
        assert(dot_ok(v2.take(b.len() as int), b, 0i64));
        assert(norm_step_ok(m.v, b, f.a_coeffs(), f.zero(), x));
        assert(f.step_ok(m, x));
        assert(f.run(f.model(), xs, k) == f.step(m, x).0);
    }
}

/// Impulse response of a transfer-function filter with denominator `[1]`
/// from a cleared buffer, at unit gain: the output for sample `k` of a unit
/// impulse is the numerator coefficient `b[k]`, and zero once `k` is past the
/// numerator; no step overflows.
pub proof fn lemma_fir_like_impulse_response(f: IirFilter<i64, i64>, xs: Seq<i64>, k: nat)
    requires
        f.wf(),
        !f.is_sos(),
        f.a_coeffs() == seq![1i64],
        f.scale_value() is None,
        f.model().v == zeros(f.length(), f.zero()),
        k < xs.len(),
        forall|j: int| 0 <= j < xs.len() ==> #[trigger] xs[j] == if j == 0 { 1i64 } else { 0i64 },
    ensures
        forall|j: int| 0 <= j <= k ==> #[trigger] f.step_ok(f.run(f.model(), xs, j as nat), xs[j]),
        f.step(f.run(f.model(), xs, k), xs[k as int]).1
            == if k < f.b_coeffs().len() { f.b_coeffs()[k as int] } else { 0i64 },
{
    lemma_fir_like_run(f, xs, k + 1);
    f.lemma_zero_is_default();
    let n = f.length();
    let b = f.b_coeffs();
    assert(b.len() == n);
    let m = f.run(f.model(), xs, k);
    let m2 = f.step(m, xs[k as int]).0;
    assert(f.run(f.model(), xs, k + 1) == m2);
    assert(m2.v.take(b.len() as int) =~= m2.v);
    if k < n {
        lemma_dot_single(m2.v, b, k as int, n as int);
    } else {
        lemma_dot_zeros_i64(n, b);
    }
}
} // verus!
