use vstd::prelude::*;
use vstd::std_specs::ops::{AddSpec, MulSpec};
use vstd::std_specs::convert::FromSpec;
use core::ops::{Add, Mul};
use crate::window::zeros;

verus! {

/// Sample and coefficient arithmetic behaves as vstd specifies it (true of the
/// primitive integer types), so that results can be stated over `add_spec` and
/// `mul_spec`. No floating-point or complex type meets it: with those types
/// the filters run, but no contract states their outputs.
pub open spec fn exact_ops<T, C>() -> bool
    where T: Add<Output = T> + Mul<C, Output = T>,
{
    &&& <T as AddSpec<T>>::obeys_add_spec()
    &&& <T as MulSpec<C>>::obeys_mul_spec()
}

/// The sequence `s` read back to front.
pub open spec fn rev<A>(s: Seq<A>) -> Seq<A> {
    Seq::new(s.len(), |i: int| s[s.len() - 1 - i])
}

/// Dot product `zero + x[0]*h[0] + x[1]*h[1] + ...`, accumulated from the front.
pub open spec fn dot_spec<T, C>(x: Seq<T>, h: Seq<C>, zero: T) -> T
    where T: Add<Output = T> + Mul<C, Output = T>,
    decreases x.len(),
{
    if x.len() == 0 {
        zero
    } else {
        let n = x.len() - 1;
        dot_spec(x.take(n), h, zero).add_spec(x[n].mul_spec(h[n]))
    }
}

/// Every product and partial sum of `dot_spec(x, h, zero)` is defined
/// (for integers: none of them overflows).
pub open spec fn dot_ok<T, C>(x: Seq<T>, h: Seq<C>, zero: T) -> bool
    where T: Add<Output = T> + Mul<C, Output = T>,
    decreases x.len(),
{
    if x.len() == 0 {
        true
    } else {
        let n = x.len() - 1;
        &&& dot_ok(x.take(n), h, zero)
        &&& x[n].mul_req(h[n])
        &&& dot_spec(x.take(n), h, zero).add_req(x[n].mul_spec(h[n]))
    }
}

/// Output scaling: `None` stands for unit gain.
pub open spec fn scaled<T, C>(y: T, scale: Option<C>) -> T
    where T: Mul<C, Output = T>,
{
    match scale {
        Some(s) => y.mul_spec(s),
        None => y,
    }
}

pub open spec fn scale_ok<T, C>(y: T, scale: Option<C>) -> bool
    where T: Mul<C, Output = T>,
{
    match scale {
        Some(s) => y.mul_req(s),
        None => true,
    }
}

/// `scaled(dot_spec(x, h, zero), scale)`, the output of one filter phase.
pub open spec fn filter_output<T, C>(x: Seq<T>, h: Seq<C>, zero: T, scale: Option<C>) -> T
    where T: Add<Output = T> + Mul<C, Output = T>,
{
    scaled(dot_spec(x, h, zero), scale)
}

pub open spec fn filter_ok<T, C>(x: Seq<T>, h: Seq<C>, zero: T, scale: Option<C>) -> bool
    where T: Add<Output = T> + Mul<C, Output = T>,
{
    &&& dot_ok(x, h, zero)
    &&& scale_ok(dot_spec(x, h, zero), scale)
}

pub proof fn lemma_dot_ok_prefix<T, C>(x: Seq<T>, h: Seq<C>, zero: T, k: int)
    where T: Add<Output = T> + Mul<C, Output = T>,
    requires
        dot_ok(x, h, zero),
        0 <= k <= x.len(),
    ensures
        dot_ok(x.take(k), h, zero),
    decreases x.len(),
{
    if k < x.len() {
        let n = x.len() - 1;
        assert(x.take(n).take(k) == x.take(k));
        lemma_dot_ok_prefix(x.take(n), h, zero, k);
    } else {
        assert(x.take(k) == x);
    }
}

/// The dot product depends on `h` only through its first `x.len()` entries.
pub proof fn lemma_dot_coeff_prefix<T, C>(x: Seq<T>, h: Seq<C>, g: Seq<C>, zero: T)
    where T: Add<Output = T> + Mul<C, Output = T>,
    requires
        x.len() <= h.len(),
        x.len() <= g.len(),
        forall|i: int| 0 <= i < x.len() ==> h[i] == g[i],
    ensures
        dot_spec(x, h, zero) == dot_spec(x, g, zero),
        dot_ok(x, h, zero) == dot_ok(x, g, zero),
    decreases x.len(),
{
    if x.len() > 0 {
        let n = x.len() - 1;
        lemma_dot_coeff_prefix(x.take(n), h, g, zero);
    }
}

/// Dot product of `x` with `h[h_start .. h_start + x.len()]`, starting from `zero`.
pub fn dotprod<T, C>(x: &[T], h: &[C], h_start: usize, zero: T) -> (r: T)
    where T: Copy + Add<Output = T> + Mul<C, Output = T>, C: Copy,
    requires
        h_start + x.len() <= h.len(),
        exact_ops::<T, C>(),
        dot_ok(x@, h@.skip(h_start as int), zero),
    ensures
        r == dot_spec(x@, h@.skip(h_start as int), zero),
{
    let ghost hs = h@.skip(h_start as int);
    let mut acc = zero;
    let mut i: usize = 0;
    while i < x.len()
        invariant
            h_start + x.len() <= h.len(),
            hs == h@.skip(h_start as int),
            i <= x.len(),
            exact_ops::<T, C>(),
            dot_ok(x@, hs, zero),
            acc == dot_spec(x@.take(i as int), hs, zero),
        decreases x.len() - i,
    {
        proof {
            lemma_dot_ok_prefix(x@, hs, zero, (i + 1) as int);
            assert(x@.take(i + 1).take(i as int) == x@.take(i as int));
        }
        let p = x[i] * h[h_start + i];
        acc = acc + p;
        i = i + 1;
    }
    assert(x@.take(x.len() as int) == x@);
    acc
}

/// Applies the output scaling (`None` leaves the sample unchanged).
/// `z` is a zero for the filter arithmetic: `z + z == z` and `z * c == z`
/// for every coefficient `c` (true of 0 for the integer types).
pub open spec fn absorbing<T, C>(z: T) -> bool
    where T: Add<Output = T> + Mul<C, Output = T>,
{
    &&& z.add_spec(z) == z
    &&& forall|c: C| #[trigger] z.mul_spec(c) == z
}

/// A history that holds only the zero gives the zero as output, whatever
/// the coefficients and the scale.
pub proof fn lemma_filter_output_zeros<T, C>(n: nat, h: Seq<C>, z: T, scale: Option<C>)
    where T: Add<Output = T> + Mul<C, Output = T>,
    requires
        absorbing::<T, C>(z),
    ensures
        dot_spec(zeros(n, z), h, z) == z,
        filter_output(zeros(n, z), h, z, scale) == z,
    decreases n,
{
    if n > 0 {
        let x = zeros(n, z);
        assert(x.take(n - 1) =~= zeros((n - 1) as nat, z));
        lemma_filter_output_zeros((n - 1) as nat, h, z, scale);
        assert(z.mul_spec(h[n - 1]) == z);
    }
    match scale {
        Some(s) => { assert(z.mul_spec(s) == z); }
        None => {}
    }
}

/// The scaling factor `scale` stands for: the factor itself, or one
/// (`C::from(1u8)`) for unit gain.
pub open spec fn scale_factor_is<C: From<u8>>(scale: Option<C>, r: C) -> bool {
    &&& scale matches Some(s) ==> r == s
    &&& scale is None && C::obeys_from_spec() ==> r == C::from_spec(1u8)
}

/// The scaling factor `scale` stands for (one for unit gain).
pub fn scale_or_one<C: Copy + From<u8>>(scale: Option<C>) -> (r: C)
    ensures
        scale_factor_is(scale, r),
{
    match scale {
        Some(s) => s,
        None => C::from(1u8),
    }
}

pub fn apply_scale<T, C>(y: T, scale: Option<C>) -> (r: T)
    where T: Copy + Mul<C, Output = T>, C: Copy,
    requires
        <T as MulSpec<C>>::obeys_mul_spec(),
        scale_ok(y, scale),
    ensures
        r == scaled(y, scale),
{
    match scale {
        Some(s) => y * s,
        None => y,
    }
}

} // verus!
