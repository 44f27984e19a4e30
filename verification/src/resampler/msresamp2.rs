use vstd::prelude::*;
use vstd::std_specs::ops::MulSpec;
use vstd::arithmetic::div_mod::lemma_div_denominator;
use core::ops::{Add, Sub, Mul};
use crate::error::{Result, config_error, range_error};
use crate::window::zeros;
use crate::resampler::resamp2::{Resamp2, Resamp2State};

verus! {

/// Direction of a multi-stage half-band resampler.
#[derive(Clone, Copy, Debug, PartialEq, Eq, Structural)]
pub enum ResampType {
    Decim,
    Interp,
}

/// `2` to the power `n`.
pub open spec fn two_pow(n: nat) -> nat
    decreases n,
{
    if n == 0 { 1 } else { 2 * two_pow((n - 1) as nat) }
}

pub proof fn lemma_two_pow_mono(n: nat, m: nat)
    requires
        n <= m,
    ensures
        1 <= two_pow(n) <= two_pow(m),
    decreases m,
{
    if m > 0 {
        if n < m {
            lemma_two_pow_mono(n, (m - 1) as nat);
        }
        lemma_two_pow_mono((m - 1) as nat, (m - 1) as nat);
    }
}

pub proof fn lemma_two_pow_bounds(n: nat, m: nat)
    requires
        n <= m,
    ensures
        1 <= two_pow(n) <= two_pow(m),
        m <= 16 ==> two_pow(m) <= 65536,
{
    lemma_two_pow_mono(n, m);
    if m <= 16 {
        assert(two_pow(16) == 65536) by {
            reveal_with_fuel(two_pow, 17);
        }
        lemma_two_pow_mono(m, 16);
    }
}

/// Two half-band stages agree on everything but their state.
pub open spec fn same_stage<T, C>(a: Resamp2<T, C>, b: Resamp2<T, C>) -> bool
    where
        T: Copy + Default + Add<Output = T> + Sub<Output = T> + Mul<T, Output = T> + Mul<C, Output = T>,
        C: Copy,
{
    &&& a.m_spec() == b.m_spec()
    &&& a.h1() == b.h1()
    &&& a.zero() == b.zero()
    &&& a.half() == b.half()
    &&& a.scale_value() == b.scale_value()
}

/// Output of stage `q` interpolating `xs` by two from state `st`: sample `k`
/// gives outputs `2k` and `2k + 1`.
pub open spec fn interp_out<T, C>(q: Resamp2<T, C>, st: Resamp2State<T>, xs: Seq<T>) -> Seq<T>
    where
        T: Copy + Default + Add<Output = T> + Sub<Output = T> + Mul<T, Output = T> + Mul<C, Output = T>,
        C: Copy,
{
    Seq::new(2 * xs.len(), |j: int|
        if j % 2 == 0 {
            q.interp_step(q.interp_run(st, xs, (j / 2) as nat), xs[j / 2]).1
        } else {
            q.interp_step(q.interp_run(st, xs, (j / 2) as nat), xs[j / 2]).2
        })
}

pub open spec fn interp_out_ok<T, C>(q: Resamp2<T, C>, st: Resamp2State<T>, xs: Seq<T>) -> bool
    where
        T: Copy + Default + Add<Output = T> + Sub<Output = T> + Mul<T, Output = T> + Mul<C, Output = T>,
        C: Copy,
{
    forall|k: int| 0 <= k < xs.len() ==> q.interp_step_ok(#[trigger] q.interp_run(st, xs, k as nat), xs[k])
}

/// Output of stage `q` decimating the pairs of `xs` by two from state `st`.
pub open spec fn decim_out<T, C>(q: Resamp2<T, C>, st: Resamp2State<T>, xs: Seq<T>) -> Seq<T>
    where
        T: Copy + Default + Add<Output = T> + Sub<Output = T> + Mul<T, Output = T> + Mul<C, Output = T>,
        C: Copy,
{
    Seq::new(xs.len() / 2, |k: int| q.decim_step(q.decim_run(st, xs, k as nat), xs[2 * k], xs[2 * k + 1]).1)
}

pub open spec fn decim_out_ok<T, C>(q: Resamp2<T, C>, st: Resamp2State<T>, xs: Seq<T>) -> bool
    where
        T: Copy + Default + Add<Output = T> + Sub<Output = T> + Mul<T, Output = T> + Mul<C, Output = T>,
        C: Copy,
{
    forall|k: int| 0 <= k < xs.len() / 2 ==>
        q.decim_step_ok(#[trigger] q.decim_run(st, xs, k as nat), xs[2 * k], xs[2 * k + 1])
}

/// Stages `s, s + 1, ...` of `qs` interpolating `xs` in turn, from the states
/// `sts`: the states afterwards and the output of the last stage.
pub open spec fn interp_cascade<T, C>(qs: Seq<Resamp2<T, C>>, sts: Seq<Resamp2State<T>>, xs: Seq<T>, s: nat)
    -> (Seq<Resamp2State<T>>, Seq<T>)
    where
        T: Copy + Default + Add<Output = T> + Sub<Output = T> + Mul<T, Output = T> + Mul<C, Output = T>,
        C: Copy,
    decreases qs.len() - s,
{
    if s >= qs.len() {
        (sts, xs)
    } else {
        let q = qs[s as int];
        let st = sts[s as int];
        interp_cascade(qs, sts.update(s as int, q.interp_run(st, xs, xs.len())), interp_out(q, st, xs), s + 1)
    }
}

pub open spec fn interp_cascade_ok<T, C>(qs: Seq<Resamp2<T, C>>, sts: Seq<Resamp2State<T>>, xs: Seq<T>, s: nat) -> bool
    where
        T: Copy + Default + Add<Output = T> + Sub<Output = T> + Mul<T, Output = T> + Mul<C, Output = T>,
        C: Copy,
    decreases qs.len() - s,
{
    if s >= qs.len() {
        true
    } else {
        let q = qs[s as int];
        let st = sts[s as int];
        &&& interp_out_ok(q, st, xs)
        &&& interp_cascade_ok(qs, sts.update(s as int, q.interp_run(st, xs, xs.len())), interp_out(q, st, xs), s + 1)
    }
}

/// Stages `g - 1, g - 2, ..., 0` of `qs` decimating `xs` in turn, from the
/// states `sts`: the states afterwards and the output of stage `0`.
pub open spec fn decim_cascade<T, C>(qs: Seq<Resamp2<T, C>>, sts: Seq<Resamp2State<T>>, xs: Seq<T>, g: nat)
    -> (Seq<Resamp2State<T>>, Seq<T>)
    where
        T: Copy + Default + Add<Output = T> + Sub<Output = T> + Mul<T, Output = T> + Mul<C, Output = T>,
        C: Copy,
    decreases g,
{
    if g == 0 {
        (sts, xs)
    } else {
        let i = g - 1;
        let q = qs[i];
        let st = sts[i];
        decim_cascade(qs, sts.update(i, q.decim_run(st, xs, xs.len() / 2)), decim_out(q, st, xs), (g - 1) as nat)
    }
}

pub open spec fn decim_cascade_ok<T, C>(qs: Seq<Resamp2<T, C>>, sts: Seq<Resamp2State<T>>, xs: Seq<T>, g: nat) -> bool
    where
        T: Copy + Default + Add<Output = T> + Sub<Output = T> + Mul<T, Output = T> + Mul<C, Output = T>,
        C: Copy,
    decreases g,
{
    if g == 0 {
        true
    } else {
        let i = g - 1;
        let q = qs[i];
        let st = sts[i];
        &&& decim_out_ok(q, st, xs)
        &&& decim_cascade_ok(qs, sts.update(i, q.decim_run(st, xs, xs.len() / 2)), decim_out(q, st, xs), (g - 1) as nat)
    }
}

/// A stage's runs depend only on its configuration.
pub proof fn lemma_runs_same_stage<T, C>(a: Resamp2<T, C>, b: Resamp2<T, C>, st: Resamp2State<T>, xs: Seq<T>, k: nat)
    where
        T: Copy + Default + Add<Output = T> + Sub<Output = T> + Mul<T, Output = T> + Mul<C, Output = T>,
        C: Copy,
    requires
        same_stage(a, b),
    ensures
        a.interp_run(st, xs, k) == b.interp_run(st, xs, k),
        a.decim_run(st, xs, k) == b.decim_run(st, xs, k),
    decreases k,
{
    if k > 0 {
        lemma_runs_same_stage(a, b, st, xs, (k - 1) as nat);
    }
}

/// The decimation cascade over `g` stages keeps `xs.len() / 2^g` samples.
pub proof fn lemma_decim_cascade_len<T, C>(qs: Seq<Resamp2<T, C>>, sts: Seq<Resamp2State<T>>, xs: Seq<T>, g: nat)
    where
        T: Copy + Default + Add<Output = T> + Sub<Output = T> + Mul<T, Output = T> + Mul<C, Output = T>,
        C: Copy,
    ensures
        decim_cascade(qs, sts, xs, g).1.len() == xs.len() / two_pow(g),
    decreases g,
{
    if g > 0 {
        let i = g - 1;
        let ys = decim_out(qs[i], sts[i], xs);
        let sts2 = sts.update(i, qs[i].decim_run(sts[i], xs, xs.len() / 2));
        lemma_decim_cascade_len(qs, sts2, ys, (g - 1) as nat);
        let rest = decim_cascade(qs, sts2, ys, (g - 1) as nat);
        assert(decim_cascade(qs, sts, xs, g) == rest);
        let d = two_pow((g - 1) as nat) as int;
        let x = xs.len() as int;
        lemma_two_pow_mono(0, (g - 1) as nat);
        lemma_div_denominator(x, 2, d);
        assert(ys.len() == x / 2);
        assert(rest.1.len() == (x / 2) / d);
        assert(two_pow(g) == 2 * d);
        assert(xs.len() / two_pow(g) == x / (2 * d));
        assert(decim_cascade(qs, sts, xs, g).1.len() == xs.len() / two_pow(g));
    } else {
        assert(two_pow(0) == 1);
        assert(decim_cascade(qs, sts, xs, 0).1 == xs);
        assert(xs.len() / 1 == xs.len());
    }
}

/// Interpolating `a + b` runs through `a` first: the first `k <= a.len()` steps
/// see only `a`, and later steps continue from the state after `a` on `b`.
proof fn lemma_interp_run_concat<T, C>(q: Resamp2<T, C>, st: Resamp2State<T>, a: Seq<T>, b: Seq<T>, k: nat)
    where
        T: Copy + Default + Add<Output = T> + Sub<Output = T> + Mul<T, Output = T> + Mul<C, Output = T>,
        C: Copy,
    requires
        k <= a.len() + b.len(),
    ensures
        k <= a.len() ==> q.interp_run(st, a + b, k) == q.interp_run(st, a, k),
        k >= a.len() ==> q.interp_run(st, a + b, k) == q.interp_run(q.interp_run(st, a, a.len()), b, (k - a.len()) as nat),
    decreases k,
{
    if k > 0 {
        lemma_interp_run_concat(q, st, a, b, (k - 1) as nat);
        if k > a.len() {
            assert((a + b)[k - 1] == b[k - 1 - a.len()]);
        } else {
            assert((a + b)[k - 1] == a[k - 1]);
        }
    }
}

/// Decimating `a + b`, with `a` of even length, runs through the pairs of `a`
/// first.
proof fn lemma_decim_run_concat<T, C>(q: Resamp2<T, C>, st: Resamp2State<T>, a: Seq<T>, b: Seq<T>, k: nat)
    where
        T: Copy + Default + Add<Output = T> + Sub<Output = T> + Mul<T, Output = T> + Mul<C, Output = T>,
        C: Copy,
    requires
        a.len() % 2 == 0,
        2 * k <= a.len() + b.len(),
    ensures
        2 * k <= a.len() ==> q.decim_run(st, a + b, k) == q.decim_run(st, a, k),
        2 * k >= a.len() ==> q.decim_run(st, a + b, k)
            == q.decim_run(q.decim_run(st, a, a.len() / 2), b, (k - a.len() / 2) as nat),
    decreases k,
{
    if k > 0 {
        lemma_decim_run_concat(q, st, a, b, (k - 1) as nat);
        if 2 * k > a.len() {
            assert((a + b)[2 * k - 2] == b[2 * k - 2 - a.len()]);
            assert((a + b)[2 * k - 1] == b[2 * k - 1 - a.len()]);
            assert(2 * ((k - a.len() / 2) as nat) - 2 == 2 * k - 2 - a.len());
        } else {
            assert((a + b)[2 * k - 2] == a[2 * k - 2]);
            assert((a + b)[2 * k - 1] == a[2 * k - 1]);
        }
    }
}

/// The interpolated output of `a + b` is that of `a` followed by that of `b`
/// from the state after `a`.
proof fn lemma_interp_out_concat<T, C>(q: Resamp2<T, C>, st: Resamp2State<T>, a: Seq<T>, b: Seq<T>)
    where
        T: Copy + Default + Add<Output = T> + Sub<Output = T> + Mul<T, Output = T> + Mul<C, Output = T>,
        C: Copy,
    ensures
        interp_out(q, st, a + b) == interp_out(q, st, a) + interp_out(q, q.interp_run(st, a, a.len()), b),
        q.interp_run(st, a + b, a.len() + b.len()) == q.interp_run(q.interp_run(st, a, a.len()), b, b.len()),
{
    let sa = q.interp_run(st, a, a.len());
    let lhs = interp_out(q, st, a + b);
    let rhs = interp_out(q, st, a) + interp_out(q, sa, b);
    assert forall|j: int| 0 <= j < lhs.len() implies #[trigger] lhs[j] == rhs[j] by {
        let k = j / 2;
        lemma_interp_run_concat(q, st, a, b, k as nat);
        if j < 2 * a.len() {
            assert((a + b)[k] == a[k]);
        } else {
            let jb = j - 2 * a.len();
            assert(jb / 2 == k - a.len());
            assert(jb % 2 == j % 2);
            assert((a + b)[k] == b[k - a.len()]);
        }
    }
    assert(lhs =~= rhs);
    lemma_interp_run_concat(q, st, a, b, a.len() + b.len());
}

/// The decimated output of `a + b`, with `a` of even length, is that of `a`
/// followed by that of `b` from the state after `a`.
proof fn lemma_decim_out_concat<T, C>(q: Resamp2<T, C>, st: Resamp2State<T>, a: Seq<T>, b: Seq<T>)
    where
        T: Copy + Default + Add<Output = T> + Sub<Output = T> + Mul<T, Output = T> + Mul<C, Output = T>,
        C: Copy,
    requires
        a.len() % 2 == 0,
    ensures
        decim_out(q, st, a + b) == decim_out(q, st, a) + decim_out(q, q.decim_run(st, a, a.len() / 2), b),
        q.decim_run(st, a + b, (a.len() + b.len()) / 2) == q.decim_run(q.decim_run(st, a, a.len() / 2), b, b.len() / 2),
{
    let sa = q.decim_run(st, a, a.len() / 2);
    let lhs = decim_out(q, st, a + b);
    let rhs = decim_out(q, st, a) + decim_out(q, sa, b);
    assert((a.len() + b.len()) / 2 == a.len() / 2 + b.len() / 2);
    assert forall|k: int| 0 <= k < lhs.len() implies #[trigger] lhs[k] == rhs[k] by {
        lemma_decim_run_concat(q, st, a, b, k as nat);
        if k < a.len() / 2 {
            assert((a + b)[2 * k] == a[2 * k]);
            assert((a + b)[2 * k + 1] == a[2 * k + 1]);
        } else {
            let kb = k - a.len() / 2;
            assert((a + b)[2 * k] == b[2 * kb]);
            assert((a + b)[2 * k + 1] == b[2 * kb + 1]);
        }
    }
    assert(lhs =~= rhs);
    lemma_decim_run_concat(q, st, a, b, (a.len() + b.len()) / 2);
}

/// The interpolation cascade from stage `s` leaves the states of the stages
/// before `s` alone.
proof fn lemma_interp_cascade_frame<T, C>(qs: Seq<Resamp2<T, C>>, sts: Seq<Resamp2State<T>>, xs: Seq<T>, s: nat,
    i: int, v: Resamp2State<T>)
    where
        T: Copy + Default + Add<Output = T> + Sub<Output = T> + Mul<T, Output = T> + Mul<C, Output = T>,
        C: Copy,
    requires
        sts.len() == qs.len(),
        0 <= i < s,
        i < sts.len(),
    ensures
        interp_cascade(qs, sts, xs, s).0.len() == sts.len(),
        interp_cascade(qs, sts, xs, s).0[i] == sts[i],
        interp_cascade(qs, sts.update(i, v), xs, s)
            == (interp_cascade(qs, sts, xs, s).0.update(i, v), interp_cascade(qs, sts, xs, s).1),
    decreases qs.len() - s,
{
    if s < qs.len() {
        let q = qs[s as int];
        let w = q.interp_run(sts[s as int], xs, xs.len());
        assert(sts.update(i, v)[s as int] == sts[s as int]);
        assert(sts.update(i, v).update(s as int, w) =~= sts.update(s as int, w).update(i, v));
        lemma_interp_cascade_frame(qs, sts.update(s as int, w), interp_out(q, sts[s as int], xs), s + 1, i, v);
    }
}

/// The decimation cascade over stages `g - 1` down to `0` leaves the states of
/// the stages from `g` on alone.
proof fn lemma_decim_cascade_frame<T, C>(qs: Seq<Resamp2<T, C>>, sts: Seq<Resamp2State<T>>, xs: Seq<T>, g: nat,
    i: int, v: Resamp2State<T>)
    where
        T: Copy + Default + Add<Output = T> + Sub<Output = T> + Mul<T, Output = T> + Mul<C, Output = T>,
        C: Copy,
    requires
        sts.len() == qs.len(),
        g <= qs.len(),
        g <= i < sts.len(),
    ensures
        decim_cascade(qs, sts, xs, g).0.len() == sts.len(),
        decim_cascade(qs, sts, xs, g).0[i] == sts[i],
        decim_cascade(qs, sts.update(i, v), xs, g)
            == (decim_cascade(qs, sts, xs, g).0.update(i, v), decim_cascade(qs, sts, xs, g).1),
    decreases g,
{
    if g > 0 {
        let k = g - 1;
        let q = qs[k];
        let w = q.decim_run(sts[k], xs, xs.len() / 2);
        assert(sts.update(i, v)[k] == sts[k]);
        assert(sts.update(i, v).update(k, w) =~= sts.update(k, w).update(i, v));
        lemma_decim_cascade_frame(qs, sts.update(k, w), decim_out(q, sts[k], xs), (g - 1) as nat, i, v);
    }
}

/// Interpolating `a + b` through stages `s..` is interpolating `a`, then `b`
/// from the states that leaves: the states agree and the outputs concatenate.
pub proof fn lemma_interp_cascade_concat<T, C>(qs: Seq<Resamp2<T, C>>, sts: Seq<Resamp2State<T>>, a: Seq<T>, b: Seq<T>, s: nat)
    where
        T: Copy + Default + Add<Output = T> + Sub<Output = T> + Mul<T, Output = T> + Mul<C, Output = T>,
        C: Copy,
    requires
        sts.len() == qs.len(),
    ensures
        interp_cascade(qs, sts, a + b, s).0 == interp_cascade(qs, interp_cascade(qs, sts, a, s).0, b, s).0,
        interp_cascade(qs, sts, a + b, s).1
            == interp_cascade(qs, sts, a, s).1 + interp_cascade(qs, interp_cascade(qs, sts, a, s).0, b, s).1,
    decreases qs.len() - s,
{
    if s < qs.len() {
        let q = qs[s as int];
        let st = sts[s as int];
        let sa = q.interp_run(st, a, a.len());
        let sab = q.interp_run(sa, b, b.len());
        let oa = interp_out(q, st, a);
        let ob = interp_out(q, sa, b);
        lemma_interp_out_concat(q, st, a, b);
        assert((a + b).len() == a.len() + b.len());
        // left side: one pass over a + b
        lemma_interp_cascade_concat(qs, sts.update(s as int, sab), oa, ob, s + 1);
        // right side: the pass over a, then the pass over b
        let p = interp_cascade(qs, sts.update(s as int, sa), oa, s + 1);
        lemma_interp_cascade_frame(qs, sts.update(s as int, sa), oa, s + 1, s as int, sab);
        assert(sts.update(s as int, sa).update(s as int, sab) =~= sts.update(s as int, sab));
        assert(p.0[s as int] == sa);
        assert(interp_cascade(qs, sts, a, s) == p);
        assert(interp_cascade(qs, p.0, b, s)
            == interp_cascade(qs, p.0.update(s as int, sab), ob, s + 1));
    }
}

/// Decimating `a + b` through stages `g - 1` down to `0`, where `a` holds whole
/// groups of `2^g` samples, is decimating `a`, then `b` from the states that
/// leaves: the states agree and the outputs concatenate.
pub proof fn lemma_decim_cascade_concat<T, C>(qs: Seq<Resamp2<T, C>>, sts: Seq<Resamp2State<T>>, a: Seq<T>, b: Seq<T>, g: nat)
    where
        T: Copy + Default + Add<Output = T> + Sub<Output = T> + Mul<T, Output = T> + Mul<C, Output = T>,
        C: Copy,
    requires
        sts.len() == qs.len(),
        g <= qs.len(),
        a.len() % two_pow(g) == 0,
    ensures
        decim_cascade(qs, sts, a + b, g).0 == decim_cascade(qs, decim_cascade(qs, sts, a, g).0, b, g).0,
        decim_cascade(qs, sts, a + b, g).1
            == decim_cascade(qs, sts, a, g).1 + decim_cascade(qs, decim_cascade(qs, sts, a, g).0, b, g).1,
    decreases g,
{
    if g > 0 {
        let k = g - 1;
        let q = qs[k];
        let st = sts[k];
        lemma_two_pow_mono(0, (g - 1) as nat);
        let d = two_pow((g - 1) as nat) as int;
        assert(two_pow(g) == 2 * d);
        let m = a.len() as int / (2 * d);
        vstd::arithmetic::div_mod::lemma_fundamental_div_mod(a.len() as int, 2 * d);
        assert(a.len() == (2 * d) * m);
        assert(a.len() == 2 * (d * m)) by (nonlinear_arith) requires a.len() == (2 * d) * m;
        assert(a.len() % 2 == 0);
        assert(a.len() / 2 == d * m);
        vstd::arithmetic::div_mod::lemma_mod_multiples_basic(m, d);
        assert((d * m) % d == 0) by (nonlinear_arith) requires (m * d) % d == 0;
        let sa = q.decim_run(st, a, a.len() / 2);
        let sab = q.decim_run(sa, b, b.len() / 2);
        let oa = decim_out(q, st, a);
        let ob = decim_out(q, sa, b);
        lemma_decim_out_concat(q, st, a, b);
        assert((a + b).len() == a.len() + b.len());
        assert(oa.len() % two_pow((g - 1) as nat) == 0);
        lemma_decim_cascade_concat(qs, sts.update(k, sab), oa, ob, (g - 1) as nat);
        let p = decim_cascade(qs, sts.update(k, sa), oa, (g - 1) as nat);
        lemma_decim_cascade_frame(qs, sts.update(k, sa), oa, (g - 1) as nat, k, sab);
        assert(sts.update(k, sa).update(k, sab) =~= sts.update(k, sab));
        assert(p.0[k] == sa);
        assert(decim_cascade(qs, sts, a, g) == p);
        assert(decim_cascade(qs, p.0, b, g)
            == decim_cascade(qs, p.0.update(k, sab), ob, (g - 1) as nat));
    }
}

/// The interpolation cascade depends only on the configuration of the stages.
proof fn lemma_interp_cascade_same_stages<T, C>(qs1: Seq<Resamp2<T, C>>, qs2: Seq<Resamp2<T, C>>,
    sts: Seq<Resamp2State<T>>, xs: Seq<T>, s: nat)
    where
        T: Copy + Default + Add<Output = T> + Sub<Output = T> + Mul<T, Output = T> + Mul<C, Output = T>,
        C: Copy,
    requires
        qs1.len() == qs2.len(),
        forall|i: int| 0 <= i < qs1.len() ==> same_stage(#[trigger] qs1[i], qs2[i]),
    ensures
        interp_cascade(qs1, sts, xs, s) == interp_cascade(qs2, sts, xs, s),
    decreases qs1.len() - s,
{
    if s < qs1.len() {
        let (q1, q2) = (qs1[s as int], qs2[s as int]);
        let st = sts[s as int];
        lemma_runs_same_stage(q1, q2, st, xs, xs.len());
        assert forall|j: int| 0 <= j < 2 * xs.len() implies #[trigger] interp_out(q1, st, xs)[j] == interp_out(q2, st, xs)[j] by {
            lemma_runs_same_stage(q1, q2, st, xs, (j / 2) as nat);
        }
        assert(interp_out(q1, st, xs) =~= interp_out(q2, st, xs));
        lemma_interp_cascade_same_stages(qs1, qs2, sts.update(s as int, q1.interp_run(st, xs, xs.len())),
            interp_out(q1, st, xs), s + 1);
    }
}

/// The decimation cascade depends only on the configuration of the stages.
proof fn lemma_decim_cascade_same_stages<T, C>(qs1: Seq<Resamp2<T, C>>, qs2: Seq<Resamp2<T, C>>,
    sts: Seq<Resamp2State<T>>, xs: Seq<T>, g: nat)
    where
        T: Copy + Default + Add<Output = T> + Sub<Output = T> + Mul<T, Output = T> + Mul<C, Output = T>,
        C: Copy,
    requires
        qs1.len() == qs2.len(),
        forall|i: int| 0 <= i < qs1.len() ==> same_stage(#[trigger] qs1[i], qs2[i]),
        g <= qs1.len(),
    ensures
        decim_cascade(qs1, sts, xs, g) == decim_cascade(qs2, sts, xs, g),
    decreases g,
{
    if g > 0 {
        let k = g - 1;
        let (q1, q2) = (qs1[k], qs2[k]);
        let st = sts[k];
        lemma_runs_same_stage(q1, q2, st, xs, xs.len() / 2);
        assert forall|j: int| 0 <= j < xs.len() / 2 implies #[trigger] decim_out(q1, st, xs)[j] == decim_out(q2, st, xs)[j] by {
            lemma_runs_same_stage(q1, q2, st, xs, j as nat);
        }
        assert(decim_out(q1, st, xs) =~= decim_out(q2, st, xs));
        lemma_decim_cascade_same_stages(qs1, qs2, sts.update(k, q1.decim_run(st, xs, xs.len() / 2)),
            decim_out(q1, st, xs), (g - 1) as nat);
    }
}

/// Multi-stage half-band resampler: a cascade of `num_stages` half-band
/// resamplers interpolating or decimating by `2^num_stages`.
#[derive(Clone, Debug)]
pub struct MsResamp2<T, Coeff = T> {
    type_: ResampType,
    num_stages: usize,
    rate: usize,
    zeta: Coeff,
    resamp2: Vec<Resamp2<T, Coeff>>,
}

impl<T, Coeff> MsResamp2<T, Coeff>
where
    T: Copy + Default + Add<Output = T> + Sub<Output = T> + Mul<T, Output = T> + Mul<Coeff, Output = T>,
    Coeff: Copy,
{
    pub open spec fn wf(&self) -> bool {
        &&& self.stages().len() == self.num_stages_spec()
        &&& self.num_stages_spec() <= 16
        &&& self.rate_spec() == two_pow(self.num_stages_spec())
        &&& forall|i: int| 0 <= i < self.stages().len() ==> #[trigger] self.stages()[i].wf()
    }

    /// The half-band stages; stage `0` runs at the low rate.
    pub closed spec fn stages(&self) -> Seq<Resamp2<T, Coeff>> {
        self.resamp2@
    }

    /// The state of every stage.
    pub open spec fn states(&self) -> Seq<Resamp2State<T>> {
        Seq::new(self.stages().len(), |i: int| self.stages()[i].state())
    }

    /// Interpolator or decimator.
    pub closed spec fn kind(&self) -> ResampType {
        self.type_
    }

    /// Number of stages.
    pub closed spec fn num_stages_spec(&self) -> nat {
        self.num_stages as nat
    }

    /// Resampling factor `2^num_stages`.
    pub closed spec fn rate_spec(&self) -> nat {
        self.rate as nat
    }

    /// Gain applied to each decimated output.
    pub closed spec fn zeta(&self) -> Coeff {
        self.zeta
    }

    /// What interpolating the samples `x` outputs from the current state.
    pub open spec fn interp_output(&self, x: Seq<T>) -> Seq<T> {
        interp_cascade(self.stages(), self.states(), x, 0).1
    }

    /// The stage states after interpolating the samples `x`.
    pub open spec fn interp_states(&self, x: Seq<T>) -> Seq<Resamp2State<T>> {
        interp_cascade(self.stages(), self.states(), x, 0).0
    }

    pub open spec fn interp_ok(&self, x: Seq<T>) -> bool {
        interp_cascade_ok(self.stages(), self.states(), x, 0)
    }

    /// What the stages output when decimating the samples `x` (before `zeta`).
    pub open spec fn decim_output(&self, x: Seq<T>) -> Seq<T> {
        decim_cascade(self.stages(), self.states(), x, self.num_stages_spec()).1
    }

    /// The stage states after decimating the samples `x`.
    pub open spec fn decim_states(&self, x: Seq<T>) -> Seq<Resamp2State<T>> {
        decim_cascade(self.stages(), self.states(), x, self.num_stages_spec()).0
    }

    pub open spec fn decim_ok(&self, x: Seq<T>) -> bool {
        &&& decim_cascade_ok(self.stages(), self.states(), x, self.num_stages_spec())
        &&& forall|i: int| 0 <= i < self.decim_output(x).len() ==> #[trigger] self.decim_output(x)[i].mul_req(self.zeta())
    }

    /// Decimated output `i` for the samples `x`: stage output times `zeta`.
    pub open spec fn decim_scaled(&self, x: Seq<T>, i: int) -> T {
        self.decim_output(x)[i].mul_spec(self.zeta())
    }

    /// Output samples `execute_block` writes for `n` input samples.
    pub open spec fn required_output(&self, n: nat) -> nat {
        if self.kind() == ResampType::Interp { n * self.rate_spec() } else { n / self.rate_spec() }
    }

    /// Interpolating `a + b` in one block is interpolating `a`, then `b` on the
    /// resampler `a` leaves (`mid`): the stage states agree and the outputs
    /// concatenate.
    pub proof fn lemma_interp_blocks(&self, mid: &Self, a: Seq<T>, b: Seq<T>)
        requires
            self.wf(),
            mid.same_config(self),
            mid.states() == self.interp_states(a),
        ensures
            self.interp_states(a + b) == mid.interp_states(b),
            self.interp_output(a + b) == self.interp_output(a) + mid.interp_output(b),
    {
        lemma_interp_cascade_concat(self.stages(), self.states(), a, b, 0);
        lemma_interp_cascade_same_stages(self.stages(), mid.stages(), mid.states(), b, 0);
    }

    /// Decimating `a + b` in one block, where `a` holds whole groups of `rate`
    /// samples, is decimating `a`, then `b` on the resampler `a` leaves (`mid`):
    /// the stage states agree and the outputs concatenate.
    pub proof fn lemma_decim_blocks(&self, mid: &Self, a: Seq<T>, b: Seq<T>)
        requires
            self.wf(),
            mid.same_config(self),
            mid.states() == self.decim_states(a),
            a.len() % self.rate_spec() == 0,
        ensures
            self.decim_states(a + b) == mid.decim_states(b),
            self.decim_output(a + b) == self.decim_output(a) + mid.decim_output(b),
    {
        lemma_decim_cascade_concat(self.stages(), self.states(), a, b, self.num_stages_spec());
        lemma_decim_cascade_same_stages(self.stages(), mid.stages(), mid.states(), b, self.num_stages_spec());
    }

    /// Everything but the stage states is as in `other`.
    pub open spec fn same_config(&self, other: &Self) -> bool {
        &&& self.kind() == other.kind()
        &&& self.num_stages_spec() == other.num_stages_spec()
        &&& self.rate_spec() == other.rate_spec()
        &&& self.zeta() == other.zeta()
        &&& self.stages().len() == other.stages().len()
        &&& forall|i: int| 0 <= i < self.stages().len() ==> same_stage(#[trigger] self.stages()[i], other.stages()[i])
    }

    /// Creates a resampler from its half-band stages (stage `0` at the low
    /// rate), at most 16 of them; `zeta` scales each decimated output (the
    /// inverse of the rate for unit gain). Fails with `Config` on more stages.
    pub fn from_stages(type_: ResampType, stages: Vec<Resamp2<T, Coeff>>, zeta: Coeff) -> (r: Result<Self>)
        requires
            forall|i: int| 0 <= i < stages@.len() ==> #[trigger] stages@[i].wf(),
        ensures
            stages@.len() > 16 <==> r is Err,
            r is Err ==> r->Err_0 is Config,
            r matches Ok(q) ==> {
                &&& q.wf()
                &&& q.kind() == type_
                &&& q.stages() == stages@
                &&& q.zeta() == zeta
            },
    {
        let num_stages = stages.len();
        if num_stages > 16 {
            return Err(config_error("number of stages should not exceed 16"));
        }
        let mut rate: usize = 1;
        let mut i: usize = 0;
        while i < num_stages
            invariant
                i <= num_stages <= 16,
                rate == two_pow(i as nat),
            decreases num_stages - i,
        {
            proof { lemma_two_pow_bounds(i as nat, 16); }
            rate = 2 * rate;
            i = i + 1;
        }
        Ok(MsResamp2 { type_, num_stages, rate, zeta, resamp2: stages })
    }

    /// Clears every stage.
    pub fn reset(&mut self)
        requires
            old(self).wf(),
        ensures
            final(self).wf(),
            final(self).same_config(&*old(self)),
            forall|i: int| 0 <= i < old(self).stages().len() ==> #[trigger] final(self).states()[i]
                == (Resamp2State { w0: zeros(2 * old(self).stages()[i].m_spec(), old(self).stages()[i].zero()),
                    w1: zeros(2 * old(self).stages()[i].m_spec(), old(self).stages()[i].zero()), toggle: false }),
    {
        let n = self.resamp2.len();
        let mut i: usize = 0;
        while i < n
            invariant
                i <= n,
                n == old(self).stages().len(),
                self.wf(),
                self.same_config(&*old(self)),
                forall|j: int| 0 <= j < i ==> #[trigger] self.states()[j]
                    == (Resamp2State { w0: zeros(2 * old(self).stages()[j].m_spec(), old(self).stages()[j].zero()),
                        w1: zeros(2 * old(self).stages()[j].m_spec(), old(self).stages()[j].zero()), toggle: false }),
            decreases n - i,
        {
            let ghost prev = self.stages();
            let ghost prev_states = self.states();
            self.resamp2[i].reset();
            proof {
                assert forall|j: int| 0 <= j < n && j != i implies #[trigger] self.stages()[j] == prev[j] by {}
                assert forall|j: int| 0 <= j < i implies #[trigger] self.states()[j] == prev_states[j] by {
                    assert(self.stages()[j] == prev[j]);
                }
                assert(same_stage(prev[i as int], old(self).stages()[i as int]));
                assert(self.states()[i as int] == self.stages()[i as int].state());
            }
            i = i + 1;
        }
    }

    /// Runs the interpolation cascade on `x`: stage `0` first.
    fn run_interp_cascade(&mut self, x: &[T]) -> (out: Vec<T>)
        requires
            old(self).wf(),
            Resamp2::<T, Coeff>::exact(),
            x@.len() * old(self).rate_spec() <= usize::MAX,
            interp_cascade_ok(old(self).stages(), old(self).states(), x@, 0),
        ensures
            final(self).wf(),
            final(self).same_config(&*old(self)),
            final(self).states() == interp_cascade(old(self).stages(), old(self).states(), x@, 0).0,
            out@ == interp_cascade(old(self).stages(), old(self).states(), x@, 0).1,
            out@.len() == x@.len() * old(self).rate_spec(),
    {
        let ghost qs = self.stages();
        let ghost st0 = self.states();
        let n = self.num_stages;
        let mut cur: Vec<T> = crate::fir::firfilt::copied(x);
        let mut s: usize = 0;
        proof {
            lemma_two_pow_bounds(0, n as nat);
            assert(two_pow(0) == 1);
            assert(cur@.len() == x@.len() * two_pow(0));
        }
        while s < n
            invariant
                s <= n,
                n == qs.len(),
                n == old(self).num_stages_spec(),
                qs == old(self).stages(),
                st0 == old(self).states(),
                self.wf(),
                self.same_config(&*old(self)),
                Resamp2::<T, Coeff>::exact(),
                x@.len() * two_pow(n as nat) <= usize::MAX,
                old(self).rate_spec() == two_pow(n as nat),
                cur@.len() == x@.len() * two_pow(s as nat),
                interp_cascade(qs, st0, x@, 0) == interp_cascade(qs, self.states(), cur@, s as nat),
                interp_cascade_ok(qs, self.states(), cur@, s as nat),
            decreases n - s,
        {
            let len = cur.len();
            proof {
                lemma_two_pow_mono((s + 1) as nat, n as nat);
                assert(len * 2 == x@.len() * two_pow((s + 1) as nat)) by (nonlinear_arith)
                    requires len == x@.len() * two_pow(s as nat), two_pow((s + 1) as nat) == 2 * two_pow(s as nat);
                assert(x@.len() * two_pow((s + 1) as nat) <= x@.len() * two_pow(n as nat)) by (nonlinear_arith)
                    requires two_pow((s + 1) as nat) <= two_pow(n as nat);
            }
            let zero = T::default();
            let mut nxt: Vec<T> = vec![zero; 2 * len];
            let ghost q = qs[s as int];
            let ghost cur_stage = self.stages()[s as int];
            let ghost st = self.states()[s as int];
            let ghost prev = self.stages();
            let ghost prev_states = self.states();
            proof {
                assert(same_stage(cur_stage, q));
                assert(st == cur_stage.state());
                assert forall|k: int| 0 <= k && k < cur@.len() implies
                    cur_stage.interp_step_ok(#[trigger] cur_stage.interp_run(cur_stage.state(), cur@, k as nat), cur@[k]) by {
                    lemma_runs_same_stage(cur_stage, q, st, cur@, k as nat);
                    assert(q.interp_step_ok(q.interp_run(st, cur@, k as nat), cur@[k]));
                }
            }
            let r = self.resamp2[s].interp_execute_block(cur.as_slice(), nxt.as_mut_slice());
            proof {
                let new_stage = self.stages()[s as int];
                lemma_runs_same_stage(cur_stage, q, st, cur@, cur@.len());
                assert(new_stage.state() == q.interp_run(st, cur@, cur@.len()));
                assert forall|j: int| 0 <= j < 2 * cur@.len() implies #[trigger] nxt@[j] == interp_out(q, st, cur@)[j] by {
                    let k = j / 2;
                    lemma_runs_same_stage(cur_stage, q, st, cur@, k as nat);
                    if j % 2 == 0 {
                        assert(j == 2 * k);
                    } else {
                        assert(j == 2 * k + 1);
                    }
                }
                assert(nxt@ =~= interp_out(q, st, cur@));
                assert forall|j: int| 0 <= j < n && j != s implies #[trigger] self.stages()[j] == prev[j] by {}
                assert(self.states() =~= prev_states.update(s as int, q.interp_run(st, cur@, cur@.len())));
                assert(two_pow((s + 1) as nat) == 2 * two_pow(s as nat));
            }
            cur = nxt;
            s = s + 1;
        }
        cur
    }

    /// Runs the decimation cascade on `x`: the last stage first.
    fn run_decim_cascade(&mut self, x: &[T]) -> (out: Vec<T>)
        requires
            old(self).wf(),
            Resamp2::<T, Coeff>::exact(),
            decim_cascade_ok(old(self).stages(), old(self).states(), x@, old(self).num_stages_spec()),
        ensures
            final(self).wf(),
            final(self).same_config(&*old(self)),
            final(self).states() == decim_cascade(old(self).stages(), old(self).states(), x@, old(self).num_stages_spec()).0,
            out@ == decim_cascade(old(self).stages(), old(self).states(), x@, old(self).num_stages_spec()).1,
            out@.len() == x@.len() / old(self).rate_spec(),
    {
        let ghost qs = self.stages();
        let ghost st0 = self.states();
        let n = self.num_stages;
        let mut cur: Vec<T> = crate::fir::firfilt::copied(x);
        let mut g: usize = n;
        while g > 0
            invariant
                g <= n,
                n == qs.len(),
                n == old(self).num_stages_spec(),
                qs == old(self).stages(),
                st0 == old(self).states(),
                self.wf(),
                self.same_config(&*old(self)),
                Resamp2::<T, Coeff>::exact(),
                decim_cascade(qs, st0, x@, n as nat) == decim_cascade(qs, self.states(), cur@, g as nat),
                decim_cascade_ok(qs, self.states(), cur@, g as nat),
            decreases g,
        {
            let i = g - 1;
            let len = cur.len();
            let zero = T::default();
            let mut nxt: Vec<T> = vec![zero; len / 2];
            let ghost q = qs[i as int];
            let ghost cur_stage = self.stages()[i as int];
            let ghost st = self.states()[i as int];
            let ghost prev = self.stages();
            let ghost prev_states = self.states();
            proof {
                assert(same_stage(cur_stage, q));
                assert(st == cur_stage.state());
                assert forall|k: int| 0 <= k && k < cur@.len() / 2 implies
                    cur_stage.decim_step_ok(#[trigger] cur_stage.decim_run(cur_stage.state(), cur@, k as nat),
                        cur@[2 * k], cur@[2 * k + 1]) by {
                    lemma_runs_same_stage(cur_stage, q, st, cur@, k as nat);
                    assert(q.decim_step_ok(q.decim_run(st, cur@, k as nat), cur@[2 * k], cur@[2 * k + 1]));
                }
            }
            let r = self.resamp2[i].decim_execute_block(cur.as_slice(), nxt.as_mut_slice());
            proof {
                let new_stage = self.stages()[i as int];
                lemma_runs_same_stage(cur_stage, q, st, cur@, cur@.len() / 2);
                assert(new_stage.state() == q.decim_run(st, cur@, cur@.len() / 2));
                assert forall|k: int| 0 <= k < cur@.len() / 2 implies #[trigger] nxt@[k] == decim_out(q, st, cur@)[k] by {
                    lemma_runs_same_stage(cur_stage, q, st, cur@, k as nat);
                }
                assert(nxt@ =~= decim_out(q, st, cur@));
                assert forall|j: int| 0 <= j < n && j != i implies #[trigger] self.stages()[j] == prev[j] by {}
                assert(self.states() =~= prev_states.update(i as int, q.decim_run(st, cur@, cur@.len() / 2)));
            }
            cur = nxt;
            g = i;
        }
        proof {
            lemma_decim_cascade_len(qs, st0, x@, n as nat);
        }
        cur
    }

    /// Interpolates one sample: `y[0..rate]` receives the cascade output for `x`;
    /// the rest of `y` is left as it was.
    pub fn interp_execute(&mut self, x: T, y: &mut [T]) -> (r: Result<()>)
        requires
            old(self).wf(),
            Resamp2::<T, Coeff>::exact(),
            old(y)@.len() >= old(self).rate_spec(),
            old(self).interp_ok(seq![x]),
        ensures
            r is Ok,
            final(self).wf(),
            final(self).same_config(&*old(self)),
            final(self).states() == old(self).interp_states(seq![x]),
            final(y)@.len() == old(y)@.len(),
            forall|j: int| 0 <= j < old(self).rate_spec() ==> #[trigger] final(y)@[j] == old(self).interp_output(seq![x])[j],
            forall|j: int| old(self).rate_spec() <= j < old(y)@.len() ==> #[trigger] final(y)@[j] == old(y)@[j],
    {
        let mut xs: Vec<T> = Vec::new();
        xs.push(x);
        proof {
            assert(xs@ =~= seq![x]);
            assert(xs@.len() == 1);
            lemma_two_pow_bounds(0, old(self).num_stages_spec());
            assert(xs@.len() * old(self).rate_spec() == old(self).rate_spec());
        }
        let out = self.run_interp_cascade(xs.as_slice());
        let rate = self.rate;
        let mut j: usize = 0;
        while j < rate
            invariant
                j <= rate,
                rate == old(self).rate_spec(),
                out@.len() == rate,
                rate <= y@.len(),
                y@.len() == old(y)@.len(),
                forall|k: int| 0 <= k < j ==> #[trigger] y@[k] == out@[k],
                forall|k: int| j <= k < y@.len() ==> #[trigger] y@[k] == old(y)@[k],
            decreases rate - j,
        {
            y[j] = out[j];
            j = j + 1;
        }
        Ok(())
    }

    /// Interpolates a block: `y[0..x.len() * rate]` receives the cascade output
    /// for `x`, and that count is returned; the rest of `y` is left as it was.
    pub fn interp_execute_block(&mut self, x: &[T], y: &mut [T]) -> (r: Result<usize>)
        requires
            old(self).wf(),
            Resamp2::<T, Coeff>::exact(),
            x@.len() * old(self).rate_spec() <= old(y)@.len(),
            old(self).interp_ok(x@),
        ensures
            r == Ok::<usize, crate::error::Error>((x@.len() * old(self).rate_spec()) as usize),
            final(self).wf(),
            final(self).same_config(&*old(self)),
            final(self).states() == old(self).interp_states(x@),
            final(y)@.len() == old(y)@.len(),
            forall|j: int| 0 <= j < x@.len() * old(self).rate_spec() ==> #[trigger] final(y)@[j] == old(self).interp_output(x@)[j],
            forall|j: int| x@.len() * old(self).rate_spec() <= j < old(y)@.len() ==> #[trigger] final(y)@[j] == old(y)@[j],
    {
        let ylen = y.len();
        let out = self.run_interp_cascade(x);
        let n_out = out.len();
        let mut j: usize = 0;
        while j < n_out
            invariant
                j <= n_out,
                n_out == out@.len(),
                n_out == x@.len() * old(self).rate_spec(),
                n_out <= y@.len(),
                y@.len() == old(y)@.len(),
                forall|k: int| 0 <= k < j ==> #[trigger] y@[k] == out@[k],
                forall|k: int| j <= k < y@.len() ==> #[trigger] y@[k] == old(y)@[k],
            decreases n_out - j,
        {
            y[j] = out[j];
            j = j + 1;
        }
        Ok(n_out)
    }

    /// Decimates the first `rate` samples of `x` into one output: the cascade
    /// output times `zeta`.
    pub fn decim_execute(&mut self, x: &[T]) -> (r: Result<T>)
        requires
            old(self).wf(),
            Resamp2::<T, Coeff>::exact(),
            x@.len() >= old(self).rate_spec(),
            old(self).decim_ok(x@.take(old(self).rate_spec() as int)),
        ensures
            r == Ok::<T, crate::error::Error>(old(self).decim_scaled(x@.take(old(self).rate_spec() as int), 0)),
            final(self).wf(),
            final(self).same_config(&*old(self)),
            final(self).states() == old(self).decim_states(x@.take(old(self).rate_spec() as int)),
    {
        let xs = &x[0..self.rate];
        proof {
            assert(xs@ =~= x@.take(old(self).rate_spec() as int));
            lemma_two_pow_bounds(0, old(self).num_stages_spec());
        }
        let out = self.run_decim_cascade(xs);
        proof {
            let rate = old(self).rate_spec() as int;
            vstd::arithmetic::div_mod::lemma_div_by_multiple(1, rate);
            assert(1 * rate == rate);
            assert(out@.len() == 1);
            assert(out@ == old(self).decim_output(x@.take(rate)));
            assert(old(self).decim_output(x@.take(rate))[0].mul_req(old(self).zeta()));
        }
        Ok(out[0] * self.zeta)
    }

    /// Decimates a block: `y[i]` receives output `i` of the cascade for `x` times
    /// `zeta`, for `x.len() / rate` outputs, and that count is returned; the rest
    /// of `y` is left as it was.
    pub fn decim_execute_block(&mut self, x: &[T], y: &mut [T]) -> (r: Result<usize>)
        requires
            old(self).wf(),
            Resamp2::<T, Coeff>::exact(),
            x@.len() / old(self).rate_spec() <= old(y)@.len(),
            old(self).decim_ok(x@),
        ensures
            r == Ok::<usize, crate::error::Error>((x@.len() / old(self).rate_spec()) as usize),
            final(self).wf(),
            final(self).same_config(&*old(self)),
            final(self).states() == old(self).decim_states(x@),
            final(y)@.len() == old(y)@.len(),
            forall|i: int| 0 <= i < x@.len() / old(self).rate_spec() ==> #[trigger] final(y)@[i] == old(self).decim_scaled(x@, i),
            forall|i: int| x@.len() / old(self).rate_spec() <= i < old(y)@.len() ==> #[trigger] final(y)@[i] == old(y)@[i],
    {
        let out = self.run_decim_cascade(x);
        let n_out = out.len();
        let zeta = self.zeta;
        let mut i: usize = 0;
        while i < n_out
            invariant
                i <= n_out,
                n_out == out@.len(),
                out@ == old(self).decim_output(x@),
                zeta == old(self).zeta(),
                Resamp2::<T, Coeff>::exact(),
                old(self).decim_ok(x@),
                n_out == x@.len() / old(self).rate_spec(),
                n_out <= y@.len(),
                y@.len() == old(y)@.len(),
                forall|k: int| 0 <= k < i ==> #[trigger] y@[k] == old(self).decim_scaled(x@, k),
                forall|k: int| i <= k < y@.len() ==> #[trigger] y@[k] == old(y)@[k],
            decreases n_out - i,
        {
            proof {
                assert(old(self).decim_output(x@)[i as int].mul_req(old(self).zeta()));
            }
            y[i] = out[i] * zeta;
            i = i + 1;
        }
        Ok(n_out)
    }

    /// One step: an interpolator turns `x[0]` into `y[0..rate]`, a decimator
    /// turns `x[0..rate]` into `y[0]`; with no stages `y[0] = x[0]`. The rest of
    /// `y` is left as it was.
    pub fn execute(&mut self, x: &[T], y: &mut [T]) -> (r: Result<()>)
        requires
            old(self).wf(),
            Resamp2::<T, Coeff>::exact(),
            old(self).num_stages_spec() == 0 ==> x@.len() >= 1 && old(y)@.len() >= 1,
            old(self).num_stages_spec() > 0 && old(self).kind() == ResampType::Interp ==> {
                &&& x@.len() >= 1
                &&& old(y)@.len() >= old(self).rate_spec()
                &&& old(self).interp_ok(seq![x@[0]])
            },
            old(self).num_stages_spec() > 0 && old(self).kind() == ResampType::Decim ==> {
                &&& x@.len() >= old(self).rate_spec()
                &&& old(y)@.len() >= 1
                &&& old(self).decim_ok(x@.take(old(self).rate_spec() as int))
            },
        ensures
            r is Ok,
            final(self).wf(),
            final(self).same_config(&*old(self)),
            final(y)@.len() == old(y)@.len(),
            old(self).num_stages_spec() == 0 ==> final(self).states() == old(self).states()
                && final(y)@ == old(y)@.update(0, x@[0]),
            old(self).num_stages_spec() > 0 && old(self).kind() == ResampType::Interp ==> {
                &&& final(self).states() == old(self).interp_states(seq![x@[0]])
                &&& forall|j: int| 0 <= j < old(self).rate_spec() ==>
                    #[trigger] final(y)@[j] == old(self).interp_output(seq![x@[0]])[j]
                &&& forall|j: int| old(self).rate_spec() <= j < old(y)@.len() ==> #[trigger] final(y)@[j] == old(y)@[j]
            },
            old(self).num_stages_spec() > 0 && old(self).kind() == ResampType::Decim ==> {
                &&& final(self).states() == old(self).decim_states(x@.take(old(self).rate_spec() as int))
                &&& final(y)@ == old(y)@.update(0, old(self).decim_scaled(x@.take(old(self).rate_spec() as int), 0))
            },
    {
        if self.num_stages == 0 {
            y[0] = x[0];
            return Ok(());
        }
        match self.type_ {
            ResampType::Interp => self.interp_execute(x[0], y),
            ResampType::Decim => {
                let v = self.decim_execute(x)?;
                y[0] = v;
                Ok(())
            },
        }
    }

    /// Runs the cascade over a block: an interpolator turns `n` samples into
    /// `n * rate`, a decimator `n` (a multiple of `rate`) into `n / rate`; returns
    /// the output count, and the rest of `y` is left as it was. Fails, changing
    /// nothing, when a decimator gets a partial group (`Config`), the interpolated
    /// length overflows (`Range`) or `y` is too short (`Config`).
    pub fn execute_block(&mut self, x: &[T], y: &mut [T]) -> (r: Result<usize>)
        requires
            old(self).wf(),
            Resamp2::<T, Coeff>::exact(),
            old(self).num_stages_spec() > 0 && old(self).kind() == ResampType::Interp ==> old(self).interp_ok(x@),
            old(self).num_stages_spec() > 0 && old(self).kind() == ResampType::Decim ==> old(self).decim_ok(x@),
        ensures
            old(self).kind() == ResampType::Decim && x@.len() % old(self).rate_spec() != 0 ==> r is Err && r->Err_0 is Config,
            old(self).kind() == ResampType::Interp && x@.len() * old(self).rate_spec() > usize::MAX ==> r is Err && r->Err_0 is Range,
            !(old(self).kind() == ResampType::Decim && x@.len() % old(self).rate_spec() != 0)
                && !(old(self).kind() == ResampType::Interp && x@.len() * old(self).rate_spec() > usize::MAX) ==> {
                &&& (r is Err <==> old(y)@.len() < old(self).required_output(x@.len()))
                &&& r is Err ==> r->Err_0 is Config
            },
            r is Err ==> *final(self) == *old(self) && final(y)@ == old(y)@,
            r matches Ok(n) ==> {
                &&& n == old(self).required_output(x@.len())
                &&& final(self).wf()
                &&& final(self).same_config(&*old(self))
                &&& final(y)@.len() == old(y)@.len()
                &&& forall|j: int| n <= j < old(y)@.len() ==> #[trigger] final(y)@[j] == old(y)@[j]
                &&& old(self).num_stages_spec() == 0 ==> final(self).states() == old(self).states()
                    && forall|j: int| 0 <= j < n ==> #[trigger] final(y)@[j] == x@[j]
                &&& old(self).num_stages_spec() > 0 && old(self).kind() == ResampType::Interp ==>
                    final(self).states() == old(self).interp_states(x@)
                    && forall|j: int| 0 <= j < n ==> #[trigger] final(y)@[j] == old(self).interp_output(x@)[j]
                &&& old(self).num_stages_spec() > 0 && old(self).kind() == ResampType::Decim ==>
                    final(self).states() == old(self).decim_states(x@)
                    && forall|j: int| 0 <= j < n ==> #[trigger] final(y)@[j] == old(self).decim_scaled(x@, j)
            },
    {
        let n = x.len();
        proof {
            lemma_two_pow_bounds(0, old(self).num_stages_spec());
        }
        if self.type_ == ResampType::Decim && n % self.rate != 0 {
            return Err(config_error("decimation input length must be a multiple of the rate"));
        }
        let required = match self.type_ {
            ResampType::Interp => match n.checked_mul(self.rate) {
                Some(v) => v,
                None => { return Err(range_error("interpolation output length overflow")); },
            },
            ResampType::Decim => n / self.rate,
        };
        if y.len() < required {
            return Err(config_error("output length is shorter than required"));
        }
        if self.num_stages == 0 {
            proof {
                assert(two_pow(0) == 1);
                assert(self.rate == 1);
                assert(n * 1 == n && n / 1 == n) by (nonlinear_arith);
                assert(required == n);
            }
            let mut j: usize = 0;
            while j < n
                invariant
                    j <= n,
                    n == x@.len(),
                    n <= y@.len(),
                    y@.len() == old(y)@.len(),
                    forall|k: int| 0 <= k < j ==> #[trigger] y@[k] == x@[k],
                    forall|k: int| j <= k < y@.len() ==> #[trigger] y@[k] == old(y)@[k],
                decreases n - j,
            {
                y[j] = x[j];
                j = j + 1;
            }
            return Ok(n);
        }
        match self.type_ {
            ResampType::Interp => self.interp_execute_block(x, y),
            ResampType::Decim => self.decim_execute_block(x, y),
        }
    }

    /// Pre-sizes the stages' decimation scratch for blocks of up to `n` input
    /// samples: the stage fed `len` samples keeps room for `len / 2` outputs.
    pub fn reserve_decim_block(&mut self, n: usize)
        requires
            old(self).wf(),
        ensures
            final(self).wf(),
            final(self).same_config(&*old(self)),
            final(self).states() == old(self).states(),
            forall|g: int| 0 <= g < old(self).stages().len() ==> {
                let want = ((n as nat) / two_pow((old(self).num_stages_spec() - 1 - g) as nat)) / 2;
                #[trigger] final(self).stages()[g].scratch_len()
                    == if old(self).stages()[g].scratch_len() < want { want } else { old(self).stages()[g].scratch_len() }
            },
    {
        let num = self.num_stages;
        let mut len = n;
        let mut s: usize = 0;
        proof {
            assert(two_pow(0) == 1);
        }
        while s < num
            invariant
                s <= num,
                num == old(self).num_stages_spec(),
                num == self.stages().len(),
                len == (n as nat) / two_pow(s as nat),
                self.wf(),
                self.same_config(&*old(self)),
                self.states() == old(self).states(),
                forall|g: int| 0 <= g < num - s ==> #[trigger] self.stages()[g] == old(self).stages()[g],
                forall|g: int| num - s <= g < num ==> {
                    let want = ((n as nat) / two_pow((num - 1 - g) as nat)) / 2;
                    #[trigger] self.stages()[g].scratch_len()
                        == if old(self).stages()[g].scratch_len() < want { want } else { old(self).stages()[g].scratch_len() }
                },
            decreases num - s,
        {
            let g = num - s - 1;
            let ghost prev = self.stages();
            let ghost prev_states = self.states();
            self.resamp2[g].reserve_decim_block(len);
            proof {
                assert forall|j: int| 0 <= j < num && j != g implies #[trigger] self.stages()[j] == prev[j] by {}
                assert(self.states() =~= prev_states);
                assert((num - 1 - g) as nat == s as nat);
                lemma_two_pow_mono(0, s as nat);
                lemma_div_denominator(n as int, two_pow(s as nat) as int, 2);
                assert(two_pow((s + 1) as nat) == two_pow(s as nat) * 2);
            }
            len = len / 2;
            s = s + 1;
        }
    }

    /// Number of stages.
    pub fn get_num_stages(&self) -> (r: usize)
        ensures
            r == self.num_stages_spec(),
    {
        self.num_stages
    }

    /// Interpolator or decimator.
    pub fn get_type(&self) -> (r: ResampType)
        ensures
            r == self.kind(),
    {
        self.type_
    }

    /// Stage `i` (stage `0` runs at the low rate).
    pub fn stage(&self, i: usize) -> (r: &Resamp2<T, Coeff>)
        requires
            i < self.stages().len(),
        ensures
            *r == self.stages()[i as int],
    {
        &self.resamp2[i]
    }
}

} // verus!
