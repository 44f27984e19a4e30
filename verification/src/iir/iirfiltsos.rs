use vstd::prelude::*;
use vstd::std_specs::ops::{AddSpec, SubSpec, MulSpec, DivSpec};
use core::ops::{Add, Sub, Mul, Div};
use crate::error::Result;
use crate::window::is_default;
use vstd::arithmetic::mul::{lemma_mul_is_distributive_add, lemma_mul_is_associative};

verus! {

/// Coefficients and buffers of a second-order section.
pub struct SosState<T, C> {
    /// Normalized feed-forward coefficients.
    pub b: Seq<C>,
    /// Normalized feed-back coefficients.
    pub a: Seq<C>,
    /// Direct form I input buffer.
    pub x: Seq<T>,
    /// Direct form I output buffer.
    pub y: Seq<T>,
    /// Direct form II buffer.
    pub v: Seq<T>,
}

/// `c * t` with a coefficient on the left.
pub open spec fn cmul<T, C: Mul<T, Output = T>>(c: C, t: T) -> T {
    <C as MulSpec<T>>::mul_spec(c, t)
}

pub open spec fn cmul_ok<T, C: Mul<T, Output = T>>(c: C, t: T) -> bool {
    <C as MulSpec<T>>::mul_req(c, t)
}

/// `t * c` with a coefficient on the right.
pub open spec fn tmul<T: Mul<C, Output = T>, C>(t: T, c: C) -> T {
    <T as MulSpec<C>>::mul_spec(t, c)
}

pub open spec fn tmul_ok<T: Mul<C, Output = T>, C>(t: T, c: C) -> bool {
    <T as MulSpec<C>>::mul_req(t, c)
}

/// Arithmetic on samples and coefficients behaves as vstd specifies it (true of
/// the primitive integer types; no floating-point or complex type meets it, so
/// for those no contract states the outputs).
pub open spec fn iir_exact<T, C>() -> bool
    where T: Add<Output = T> + Sub<Output = T> + Mul<C, Output = T>, C: Mul<T, Output = T>,
{
    &&& <T as AddSpec<T>>::obeys_add_spec()
    &&& <T as SubSpec<T>>::obeys_sub_spec()
    &&& <T as MulSpec<C>>::obeys_mul_spec()
    &&& <C as MulSpec<T>>::obeys_mul_spec()
}

/// Direct form II step: new buffer and output.
pub open spec fn df2_step<T, C>(s: SosState<T, C>, x: T) -> (SosState<T, C>, T)
    where T: Add<Output = T> + Sub<Output = T> + Mul<C, Output = T>, C: Mul<T, Output = T>,
{
    let v1 = s.v[0];
    let v2 = s.v[1];
    let v0 = x.sub_spec(cmul(s.a[1], v1)).sub_spec(cmul(s.a[2], v2));
    let y = cmul(s.b[0], v0).add_spec(cmul(s.b[1], v1)).add_spec(cmul(s.b[2], v2));
    (SosState { v: seq![v0, v1, v2], ..s }, y)
}

pub open spec fn df2_ok<T, C>(s: SosState<T, C>, x: T) -> bool
    where T: Add<Output = T> + Sub<Output = T> + Mul<C, Output = T>, C: Mul<T, Output = T>,
{
    let v1 = s.v[0];
    let v2 = s.v[1];
    let t0 = x.sub_spec(cmul(s.a[1], v1));
    let v0 = t0.sub_spec(cmul(s.a[2], v2));
    let u0 = cmul(s.b[0], v0).add_spec(cmul(s.b[1], v1));
    &&& cmul_ok(s.a[1], v1)
    &&& x.sub_req(cmul(s.a[1], v1))
    &&& cmul_ok(s.a[2], v2)
    &&& t0.sub_req(cmul(s.a[2], v2))
    &&& cmul_ok(s.b[0], v0)
    &&& cmul_ok(s.b[1], v1)
    &&& cmul_ok(s.b[2], v2)
    &&& cmul(s.b[0], v0).add_req(cmul(s.b[1], v1))
    &&& u0.add_req(cmul(s.b[2], v2))
}

/// Direct form I step: new buffers and output.
pub open spec fn df1_step<T, C>(s: SosState<T, C>, x: T) -> (SosState<T, C>, T)
    where T: Add<Output = T> + Sub<Output = T> + Mul<C, Output = T>, C: Mul<T, Output = T>,
{
    let x1 = s.x[0];
    let x2 = s.x[1];
    let y1 = s.y[0];
    let y2 = s.y[1];
    let v = tmul(x, s.b[0]).add_spec(tmul(x1, s.b[1])).add_spec(tmul(x2, s.b[2]));
    let y0 = v.sub_spec(tmul(y1, s.a[1])).sub_spec(tmul(y2, s.a[2]));
    (SosState { x: seq![x, x1, x2], y: seq![y0, y1, y2], ..s }, y0)
}

pub open spec fn df1_ok<T, C>(s: SosState<T, C>, x: T) -> bool
    where T: Add<Output = T> + Sub<Output = T> + Mul<C, Output = T>, C: Mul<T, Output = T>,
{
    let x1 = s.x[0];
    let x2 = s.x[1];
    let y1 = s.y[0];
    let y2 = s.y[1];
    let u = tmul(x, s.b[0]).add_spec(tmul(x1, s.b[1]));
    let v = u.add_spec(tmul(x2, s.b[2]));
    let w = v.sub_spec(tmul(y1, s.a[1]));
    &&& tmul_ok(x, s.b[0])
    &&& tmul_ok(x1, s.b[1])
    &&& tmul_ok(x2, s.b[2])
    &&& tmul(x, s.b[0]).add_req(tmul(x1, s.b[1]))
    &&& u.add_req(tmul(x2, s.b[2]))
    &&& tmul_ok(y1, s.a[1])
    &&& v.sub_req(tmul(y1, s.a[1]))
    &&& tmul_ok(y2, s.a[2])
    &&& w.sub_req(tmul(y2, s.a[2]))
}

/// Every coefficient divided by `a[0]` is defined.
pub open spec fn normalize_ok<C: Div<Output = C>>(b: Seq<C>, a: Seq<C>) -> bool {
    forall|i: int| 0 <= i < 3 ==> #[trigger] b[i].div_req(a[0]) && a[i].div_req(a[0])
}

/// Second-order section of an IIR filter (biquad).
#[derive(Debug, Clone, Copy)]
pub struct IirFilterSos<T, Coeff = T> {
    b: [Coeff; 3],
    a: [Coeff; 3],
    x: [T; 3],
    y: [T; 3],
    v: [T; 3],
    zero: T,
}

impl<T, Coeff> IirFilterSos<T, Coeff>
where
    T: Copy + Default + Add<Output = T> + Sub<Output = T> + Mul<Coeff, Output = T>,
    Coeff: Copy + Default + Mul<T, Output = T> + Div<Output = Coeff>,
{
    /// Coefficients and buffers.
    pub closed spec fn state(&self) -> SosState<T, Coeff> {
        SosState { b: self.b@, a: self.a@, x: self.x@, y: self.y@, v: self.v@ }
    }

    /// The value the buffers are cleared to (`T::default()`).
    pub closed spec fn zero(&self) -> T {
        self.zero
    }

    /// The buffers are all cleared.
    pub open spec fn cleared(&self) -> bool {
        &&& self.state().x == seq![self.zero(), self.zero(), self.zero()]
        &&& self.state().y == seq![self.zero(), self.zero(), self.zero()]
        &&& self.state().v == seq![self.zero(), self.zero(), self.zero()]
    }

    /// Creates a section with coefficients `b / a[0]` and `a / a[0]` and cleared buffers.
    pub fn new(b: &[Coeff; 3], a: &[Coeff; 3]) -> (r: Result<Self>)
        requires
            normalize_ok(b@, a@),
        ensures
            r matches Ok(q) && q.cleared() && is_default(q.zero()) && (Coeff::obeys_div_spec() ==> {
                &&& q.state().b == seq![b@[0].div_spec(a@[0]), b@[1].div_spec(a@[0]), b@[2].div_spec(a@[0])]
                &&& q.state().a == seq![a@[0].div_spec(a@[0]), a@[1].div_spec(a@[0]), a@[2].div_spec(a@[0])]
            }),
    {
        let z = T::default();
        Ok(Self::with_zero(b, a, z))
    }

    /// Like `new`, with the buffers cleared to `z`.
    pub(crate) fn with_zero(b: &[Coeff; 3], a: &[Coeff; 3], z: T) -> (q: Self)
        requires
            normalize_ok(b@, a@),
        ensures
            q.cleared(),
            q.zero() == z,
            Coeff::obeys_div_spec() ==> {
                &&& q.state().b == seq![b@[0].div_spec(a@[0]), b@[1].div_spec(a@[0]), b@[2].div_spec(a@[0])]
                &&& q.state().a == seq![a@[0].div_spec(a@[0]), a@[1].div_spec(a@[0]), a@[2].div_spec(a@[0])]
            },
    {
        let c = Coeff::default();
        let mut filter = IirFilterSos { b: [c, c, c], a: [c, c, c], x: [z, z, z], y: [z, z, z], v: [z, z, z], zero: z };
        let _ = filter.set_coefficients(b, a);
        filter.reset();
        filter
    }

    /// Sets the coefficients to `b / a[0]` and `a / a[0]`; buffers are kept.
    pub fn set_coefficients(&mut self, b: &[Coeff; 3], a: &[Coeff; 3]) -> (r: Result<()>)
        requires
            normalize_ok(b@, a@),
        ensures
            r is Ok,
            final(self).state().x == old(self).state().x,
            final(self).state().y == old(self).state().y,
            final(self).state().v == old(self).state().v,
            final(self).zero() == old(self).zero(),
            final(self).state().b.len() == 3,
            final(self).state().a.len() == 3,
            Coeff::obeys_div_spec() ==> {
                &&& final(self).state().b == seq![b@[0].div_spec(a@[0]), b@[1].div_spec(a@[0]), b@[2].div_spec(a@[0])]
                &&& final(self).state().a == seq![a@[0].div_spec(a@[0]), a@[1].div_spec(a@[0]), a@[2].div_spec(a@[0])]
            },
    {
        let a0 = a[0];
        assert(b@[0].div_req(a@[0]) && b@[1].div_req(a@[0]) && b@[2].div_req(a@[0]));
        assert(a@[0].div_req(a@[0]) && a@[1].div_req(a@[0]) && a@[2].div_req(a@[0]));
        let b0 = b[0] / a0;
        let b1 = b[1] / a0;
        let b2 = b[2] / a0;
        let n0 = a[0] / a0;
        let n1 = a[1] / a0;
        let n2 = a[2] / a0;
        self.b = [b0, b1, b2];
        self.a = [n0, n1, n2];
        proof {
            assert(self.b@ =~= seq![b0, b1, b2]);
            assert(self.a@ =~= seq![n0, n1, n2]);
        }
        Ok(())
    }

    /// Clears all buffers.
    pub fn reset(&mut self)
        ensures
            final(self).cleared(),
            final(self).zero() == old(self).zero(),
            final(self).state().b == old(self).state().b,
            final(self).state().a == old(self).state().a,
    {
        let z = self.zero;
        self.v = [z, z, z];
        self.x = [z, z, z];
        self.y = [z, z, z];
        proof {
            assert(self.v@ =~= seq![z, z, z]);
            assert(self.x@ =~= seq![z, z, z]);
            assert(self.y@ =~= seq![z, z, z]);
        }
    }

    /// Filters one sample (direct form II).
    pub fn execute(&mut self, x: T) -> (y: T)
        requires
            iir_exact::<T, Coeff>(),
            df2_ok(old(self).state(), x),
        ensures
            (final(self).state(), y) == df2_step(old(self).state(), x),
            final(self).zero() == old(self).zero(),
    {
        self.execute_df2(x)
    }

    /// Filters one sample, direct form I.
    pub fn execute_df1(&mut self, x: T) -> (y: T)
        requires
            iir_exact::<T, Coeff>(),
            df1_ok(old(self).state(), x),
        ensures
            (final(self).state(), y) == df1_step(old(self).state(), x),
            final(self).zero() == old(self).zero(),
    {
        let x1 = self.x[0];
        let x2 = self.x[1];
        let y1 = self.y[0];
        let y2 = self.y[1];
        let u = x * self.b[0] + x1 * self.b[1];
        let v = u + x2 * self.b[2];
        let w = v - y1 * self.a[1];
        let y0 = w - y2 * self.a[2];
        self.x = [x, x1, x2];
        self.y = [y0, y1, y2];
        proof {
            assert(self.x@ =~= seq![x, x1, x2]);
            assert(self.y@ =~= seq![y0, y1, y2]);
            assert(self.state() =~= df1_step(old(self).state(), x).0);
        }
        y0
    }

    /// Filters one sample, direct form II.
    pub fn execute_df2(&mut self, x: T) -> (y: T)
        requires
            iir_exact::<T, Coeff>(),
            df2_ok(old(self).state(), x),
        ensures
            (final(self).state(), y) == df2_step(old(self).state(), x),
            final(self).zero() == old(self).zero(),
    {
        let v1 = self.v[0];
        let v2 = self.v[1];
        let t0 = x - self.a[1] * v1;
        let v0 = t0 - self.a[2] * v2;
        let u0 = self.b[0] * v0 + self.b[1] * v1;
        let y = u0 + self.b[2] * v2;
        self.v = [v0, v1, v2];
        proof {
            assert(self.v@ =~= seq![v0, v1, v2]);
            assert(self.state() =~= df2_step(old(self).state(), x).0);
        }
        y
    }
}

/// State after `k` direct form I steps on `xs` from `s`.
pub open spec fn df1_run<T, C>(s: SosState<T, C>, xs: Seq<T>, k: nat) -> SosState<T, C>
    where T: Add<Output = T> + Sub<Output = T> + Mul<C, Output = T>, C: Mul<T, Output = T>,
    decreases k,
{
    if k == 0 { s } else { df1_step(df1_run(s, xs, (k - 1) as nat), xs[k - 1]).0 }
}

/// State after `k` direct form II steps on `xs` from `s`.
pub open spec fn df2_run<T, C>(s: SosState<T, C>, xs: Seq<T>, k: nat) -> SosState<T, C>
    where T: Add<Output = T> + Sub<Output = T> + Mul<C, Output = T>, C: Mul<T, Output = T>,
    decreases k,
{
    if k == 0 { s } else { df2_step(df2_run(s, xs, (k - 1) as nat), xs[k - 1]).0 }
}

/// The direct form I buffers `s1` hold what the direct form II buffers `s2`
/// (with `w1`, `w2` the two values before them) imply for the past inputs and
/// outputs.
spec fn forms_agree(s1: SosState<i64, i64>, s2: SosState<i64, i64>, w1: int, w2: int) -> bool {
    let (b0, b1, b2) = (s1.b[0] as int, s1.b[1] as int, s1.b[2] as int);
    let (a1, a2) = (s1.a[1] as int, s1.a[2] as int);
    let (v0, v1) = (s2.v[0] as int, s2.v[1] as int);
    &&& s1.b == s2.b
    &&& s1.a == s2.a
    &&& s1.b.len() == 3
    &&& s1.a.len() == 3
    &&& s1.x.len() == 3
    &&& s1.y.len() == 3
    &&& s2.v.len() == 3
    &&& s1.x[0] == v0 + a1 * v1 + a2 * w1
    &&& s1.x[1] == v1 + a1 * w1 + a2 * w2
    &&& s1.y[0] == b0 * v0 + b1 * v1 + b2 * w1
    &&& s1.y[1] == b0 * v1 + b1 * w1 + b2 * w2
}

/// One step keeps the forms in agreement, and they output the same sample.
proof fn lemma_forms_step(s1: SosState<i64, i64>, s2: SosState<i64, i64>, w1: int, w2: int, x: i64)
    requires
        forms_agree(s1, s2, w1, w2),
        df1_ok(s1, x),
        df2_ok(s2, x),
    ensures
        df1_step(s1, x).1 == df2_step(s2, x).1,
        forms_agree(df1_step(s1, x).0, df2_step(s2, x).0, s2.v[1] as int, w1),
{
    let (b0, b1, b2) = (s1.b[0] as int, s1.b[1] as int, s1.b[2] as int);
    let (a1, a2) = (s1.a[1] as int, s1.a[2] as int);
    let (v0, v1) = (s2.v[0] as int, s2.v[1] as int);
    let (x1, x2, y1, y2) = (s1.x[0] as int, s1.x[1] as int, s1.y[0] as int, s1.y[1] as int);
    let xi = x as int;
    let n0 = xi - a1 * v0 - a2 * v1;
    assert(df2_step(s2, x).0.v[0] == n0);
    let out2 = b0 * n0 + b1 * v0 + b2 * v1;
    assert(df2_step(s2, x).1 == out2);
    let out1 = b0 * xi + b1 * x1 + b2 * x2 - a1 * y1 - a2 * y2;
    assert(df1_step(s1, x).1 == out1);
    assert(xi == n0 + a1 * v0 + a2 * v1);
    assert(b0 * xi == b0 * n0 + (a1 * b0) * v0 + (a2 * b0) * v1) by (nonlinear_arith)
        requires xi == n0 + a1 * v0 + a2 * v1;
    assert(b1 * x1 == b1 * v0 + (a1 * b1) * v1 + (a2 * b1) * w1) by (nonlinear_arith)
        requires x1 == v0 + a1 * v1 + a2 * w1;
    assert(b2 * x2 == b2 * v1 + (a1 * b2) * w1 + (a2 * b2) * w2) by (nonlinear_arith)
        requires x2 == v1 + a1 * w1 + a2 * w2;
    lemma_mul_is_distributive_add(a1, b0 * v0 + b1 * v1, b2 * w1);
    lemma_mul_is_distributive_add(a1, b0 * v0, b1 * v1);
    lemma_mul_is_associative(a1, b0, v0);
    lemma_mul_is_associative(a1, b1, v1);
    lemma_mul_is_associative(a1, b2, w1);
    assert(a1 * y1 == (a1 * b0) * v0 + (a1 * b1) * v1 + (a1 * b2) * w1);
    lemma_mul_is_distributive_add(a2, b0 * v1 + b1 * w1, b2 * w2);
    lemma_mul_is_distributive_add(a2, b0 * v1, b1 * w1);
    lemma_mul_is_associative(a2, b0, v1);
    lemma_mul_is_associative(a2, b1, w1);
    lemma_mul_is_associative(a2, b2, w2);
    assert(a2 * y2 == (a2 * b0) * v1 + (a2 * b1) * w1 + (a2 * b2) * w2);
    assert(out1 == out2);
    assert(xi == n0 + a1 * v0 + a2 * v1);
}

/// Direct forms I and II compute the same outputs: from buffers cleared to
/// zero, on any input for which every step of both forms stays within range,
/// output `k` of the one equals output `k` of the other.
pub proof fn lemma_direct_forms_agree(s: SosState<i64, i64>, xs: Seq<i64>, k: nat)
    requires
        s.b.len() == 3,
        s.a.len() == 3,
        s.x == seq![0i64, 0i64, 0i64],
        s.y == seq![0i64, 0i64, 0i64],
        s.v == seq![0i64, 0i64, 0i64],
        k < xs.len(),
        forall|j: int| 0 <= j <= k ==> #[trigger] df1_ok(df1_run(s, xs, j as nat), xs[j]),
        forall|j: int| 0 <= j <= k ==> #[trigger] df2_ok(df2_run(s, xs, j as nat), xs[j]),
    ensures
        df1_step(df1_run(s, xs, k), xs[k as int]).1 == df2_step(df2_run(s, xs, k), xs[k as int]).1,
{
    let w = lemma_forms_run(s, xs, k);
    let ki = k as int;
    assert(df1_ok(df1_run(s, xs, ki as nat), xs[ki]));
    assert(df2_ok(df2_run(s, xs, ki as nat), xs[ki]));
    lemma_forms_step(df1_run(s, xs, k), df2_run(s, xs, k), w.0, w.1, xs[k as int]);
}

proof fn lemma_forms_run(s: SosState<i64, i64>, xs: Seq<i64>, k: nat) -> (w: (int, int))
    requires
        s.b.len() == 3,
        s.a.len() == 3,
        s.x == seq![0i64, 0i64, 0i64],
        s.y == seq![0i64, 0i64, 0i64],
        s.v == seq![0i64, 0i64, 0i64],
        k <= xs.len(),
        forall|j: int| 0 <= j < k ==> #[trigger] df1_ok(df1_run(s, xs, j as nat), xs[j]),
        forall|j: int| 0 <= j < k ==> #[trigger] df2_ok(df2_run(s, xs, j as nat), xs[j]),
    ensures
        forms_agree(df1_run(s, xs, k), df2_run(s, xs, k), w.0, w.1),
    decreases k,
{
    if k == 0 {
        (0, 0)
    } else {
        let j = (k - 1) as nat;
        let w = lemma_forms_run(s, xs, j);
        assert(df1_ok(df1_run(s, xs, j), xs[j as int]));
        assert(df2_ok(df2_run(s, xs, j), xs[j as int]));
        lemma_forms_step(df1_run(s, xs, j), df2_run(s, xs, j), w.0, w.1, xs[j as int]);
        (df2_run(s, xs, j).v[1] as int, w.0)
    }
}


/// `n` samples that are one at `p` and zero elsewhere.
pub open spec fn unit_at(n: nat, p: int) -> Seq<i64> {
    Seq::new(n, |j: int| if j == p { 1i64 } else { 0i64 })
}

/// A coefficient times a sample that is zero or one.
proof fn lemma_cmul_unit(c: i64, t: i64)
    requires
        t == 0i64 || t == 1i64,
    ensures
        cmul_ok(c, t),
        cmul(c, t) == if t == 1i64 { c } else { 0i64 },
{
    if t == 1i64 {
        assert(c * t == c) by (nonlinear_arith) requires t == 1i64;
    } else {
        assert(c * t == 0) by (nonlinear_arith) requires t == 0i64;
    }
}

proof fn lemma_df2_fir_run(s: SosState<i64, i64>, xs: Seq<i64>, k: nat)
    requires
        s.b.len() == 3,
        s.a.len() == 3,
        s.a[1] == 0i64,
        s.a[2] == 0i64,
        s.v == seq![0i64, 0i64, 0i64],
        k <= xs.len(),
        forall|j: int| 0 <= j < xs.len() ==> #[trigger] xs[j] == if j == 0 { 1i64 } else { 0i64 },
    ensures
        df2_run(s, xs, k).v == unit_at(3, k - 1),
        df2_run(s, xs, k).b == s.b,
        df2_run(s, xs, k).a == s.a,
        forall|j: int| 0 <= j < k ==> #[trigger] df2_ok(df2_run(s, xs, j as nat), xs[j]),
    decreases k,
{
    if k == 0 {
        assert(s.v =~= unit_at(3, -1));
    } else {
        let j = (k - 1) as nat;
        lemma_df2_fir_run(s, xs, j);
        let r = df2_run(s, xs, j);
        let x = xs[j as int];
        let v1 = r.v[0];
        let v2 = r.v[1];
        assert(v1 == 0i64 || v1 == 1i64);
        assert(v2 == 0i64 || v2 == 1i64);
        assert(x == 1i64 ==> v1 == 0i64 && v2 == 0i64);
        assert(!(v1 == 1i64 && v2 == 1i64));
        lemma_cmul_unit(r.a[1], v1);
        lemma_cmul_unit(r.a[2], v2);
        assert(x.sub_req(0i64) && x.sub_spec(0i64) == x);
        let v0 = x.sub_spec(cmul(r.a[1], v1)).sub_spec(cmul(r.a[2], v2));
        assert(v0 == x);
        lemma_cmul_unit(r.b[0], v0);
        lemma_cmul_unit(r.b[1], v1);
        lemma_cmul_unit(r.b[2], v2);
        assert(df2_ok(r, x));
        assert(df2_run(s, xs, k) == df2_step(r, x).0);
        assert(df2_step(r, x).0.v =~= unit_at(3, k - 1));
    }
}

/// Impulse response of a second-order section without feedback (`a[1]` and
/// `a[2]` zero) from cleared buffers, in direct form II (what `execute` runs):
/// the output for sample `k` of a unit impulse is `b[k]`, and zero from the
/// fourth sample on; no step overflows.
pub proof fn lemma_sos_fir_impulse_response(s: SosState<i64, i64>, xs: Seq<i64>, k: nat)
    requires
        s.b.len() == 3,
        s.a.len() == 3,
        s.a[1] == 0i64,
        s.a[2] == 0i64,
        s.v == seq![0i64, 0i64, 0i64],
        k < xs.len(),
        forall|j: int| 0 <= j < xs.len() ==> #[trigger] xs[j] == if j == 0 { 1i64 } else { 0i64 },
    ensures
        forall|j: int| 0 <= j <= k ==> #[trigger] df2_ok(df2_run(s, xs, j as nat), xs[j]),
        df2_step(df2_run(s, xs, k), xs[k as int]).1 == if k < 3 { s.b[k as int] } else { 0i64 },
{
    lemma_df2_fir_run(s, xs, k + 1);
    lemma_df2_fir_run(s, xs, k);
    let r = df2_run(s, xs, k);
    let x = xs[k as int];
    assert(x == if k == 0 { 1i64 } else { 0i64 });
    assert(df2_run(s, xs, k + 1) == df2_step(r, x).0);
    let v1 = r.v[0];
    let v2 = r.v[1];
    assert(v1 == 0i64 || v1 == 1i64);
    assert(v2 == 0i64 || v2 == 1i64);
    lemma_cmul_unit(r.a[1], v1);
    lemma_cmul_unit(r.a[2], v2);
    let v0 = x.sub_spec(cmul(r.a[1], v1)).sub_spec(cmul(r.a[2], v2));
    assert(v0 == x);
    assert(r.b == s.b);
    lemma_cmul_unit(r.b[0], v0);
    lemma_cmul_unit(r.b[1], v1);
    lemma_cmul_unit(r.b[2], v2);
}

} // verus!
