use vstd::prelude::*;
use vstd::arithmetic::div_mod::lemma_fundamental_div_mod_converse;
use core::ops::{Add, Sub, Mul, Div};
use crate::error::{Result, config_error};
use crate::iir::iirfilt::{IirFilter, normalized_ok};
use crate::iir::iirfiltsos::iir_exact;
use crate::iir::iirdecim::{lemma_step_same_config, lemma_run_same_config, lemma_run_shift};

verus! {

/// `xs` with `m - 1` copies of `z` after each sample: the stream an interpolator
/// by `m` feeds its filter.
pub open spec fn upsampled<T>(xs: Seq<T>, m: nat, z: T) -> Seq<T> {
    Seq::new(xs.len() * m, |j: int| if j % (m as int) == 0 { xs[j / (m as int)] } else { z })
}

/// Position `i * m + j` of the zero-stuffed stream is `xs[i]` for `j == 0` and
/// `z` otherwise.
pub proof fn lemma_upsampled_index<T>(xs: Seq<T>, m: nat, z: T, i: int, j: int)
    requires
        m > 0,
        0 <= i < xs.len(),
        0 <= j < m,
    ensures
        0 <= i * m + j < xs.len() * m,
        upsampled(xs, m, z)[i * m + j] == if j == 0 { xs[i] } else { z },
{
    lemma_fundamental_div_mod_converse(i * m + j, m as int, i, j);
    assert(0 <= i * m + j < xs.len() * m) by (nonlinear_arith)
        requires 0 <= i < xs.len(), 0 <= j < m;
}

/// Infinite impulse response (IIR) interpolation filter: each input sample is
/// followed by `interp - 1` zeros and the stream is filtered, giving `interp`
/// outputs per input.
#[derive(Clone, Debug)]
pub struct IirInterpolationFilter<T, Coeff = T> {
    m: usize,
    iirfilt: IirFilter<T, Coeff>,
}

impl<T, Coeff> IirInterpolationFilter<T, Coeff>
where
    T: Copy + Default + Add<Output = T> + Sub<Output = T> + Mul<Coeff, Output = T>,
    Coeff: Copy + Default + Mul<T, Output = T> + Div<Output = Coeff>,
{
    pub open spec fn wf(&self) -> bool {
        &&& self.filter().wf()
        &&& self.interp() >= 2
    }

    /// Interpolation factor.
    pub closed spec fn interp(&self) -> nat {
        self.m as nat
    }

    /// The underlying IIR filter.
    pub closed spec fn filter(&self) -> IirFilter<T, Coeff> {
        self.iirfilt
    }

    /// The stream the filter is fed for the input samples `xs`.
    pub open spec fn stream(&self, xs: Seq<T>) -> Seq<T> {
        upsampled(xs, self.interp(), self.filter().zero())
    }

    /// Every filter step over the stream of `xs` stays within the arithmetic's range.
    pub open spec fn run_ok(&self, xs: Seq<T>) -> bool {
        let f = self.filter();
        let u = self.stream(xs);
        forall|k: int| 0 <= k < u.len() ==> f.step_ok(#[trigger] f.run(f.model(), u, k as nat), u[k])
    }

    /// Output `k` of the stream of `xs`, from the current state.
    pub open spec fn output_at(&self, xs: Seq<T>, k: int) -> T {
        let f = self.filter();
        let u = self.stream(xs);
        f.step(f.run(f.model(), u, k as nat), u[k]).1
    }

    /// Creates an interpolator by `interpolation_factor` (at least 2) around the
    /// transfer-function filter `b / a` (see `IirFilter::new`).
    pub fn new(interpolation_factor: usize, numerator_coefficients: &[Coeff], denominator_coefficients: &[Coeff]) -> (r: Result<Self>)
        requires
            denominator_coefficients@.len() > 0 ==>
                normalized_ok(numerator_coefficients@, denominator_coefficients@[0])
                && normalized_ok(denominator_coefficients@, denominator_coefficients@[0]),
        ensures
            (interpolation_factor < 2 || numerator_coefficients@.len() == 0 || denominator_coefficients@.len() == 0) <==> r is Err,
            r is Err ==> r->Err_0 is Config,
            r matches Ok(q) ==> q.wf() && q.interp() == interpolation_factor
                && q.filter().created_from(numerator_coefficients@, denominator_coefficients@),
    {
        if interpolation_factor < 2 {
            return Err(config_error("interp factor must be greater than 1"));
        }
        let iirfilt = IirFilter::new(numerator_coefficients, denominator_coefficients)?;
        Ok(IirInterpolationFilter { m: interpolation_factor, iirfilt })
    }

    /// Creates an interpolator by `interpolation_factor` (at least 2) around an
    /// existing filter, such as one designed from a prototype and scaled by the
    /// interpolation factor.
    pub fn with_filter(interpolation_factor: usize, filter: IirFilter<T, Coeff>) -> (r: Result<Self>)
        requires
            filter.wf(),
        ensures
            interpolation_factor < 2 <==> r is Err,
            r is Err ==> r->Err_0 is Config,
            r matches Ok(q) ==> q.wf() && q.interp() == interpolation_factor && q.filter() == filter,
    {
        if interpolation_factor < 2 {
            return Err(config_error("interp factor must be greater than 1"));
        }
        Ok(IirInterpolationFilter { m: interpolation_factor, iirfilt: filter })
    }

    /// Clears the filter state.
    pub fn reset(&mut self)
        requires
            old(self).wf(),
        ensures
            final(self).wf(),
            final(self).interp() == old(self).interp(),
            final(self).filter().same_config(&old(self).filter()),
            !old(self).filter().is_sos() ==> final(self).filter().model().v
                == crate::window::zeros(old(self).filter().length(), old(self).filter().zero()),
            old(self).filter().is_sos() ==> final(self).filter().sections_cleared(),
            crate::window::is_default(final(self).filter().zero()),
    {
        self.iirfilt.reset();
    }

    /// Filters `x` followed by `interp - 1` zeros into `output[start..start + interp]`;
    /// `u[base..]` is that group within a longer stream.
    fn execute_group(&mut self, x: T, output: &mut [T], start: usize, Ghost(u): Ghost<Seq<T>>, Ghost(base): Ghost<int>)
        requires
            old(self).wf(),
            iir_exact::<T, Coeff>(),
            start + old(self).interp() <= old(output)@.len(),
            0 <= base,
            base + old(self).interp() <= u.len(),
            forall|j: int| 0 <= j < old(self).interp() ==>
                #[trigger] u[base + j] == if j == 0 { x } else { old(self).filter().zero() },
            forall|j: int| 0 <= j < old(self).interp() ==> old(self).filter().step_ok(
                #[trigger] old(self).filter().run(old(self).filter().model(), u.skip(base), j as nat), u[base + j]),
        ensures
            final(self).wf(),
            final(self).interp() == old(self).interp(),
            final(self).filter().same_config(&old(self).filter()),
            final(self).filter().model() == old(self).filter().run(old(self).filter().model(), u.skip(base), old(self).interp()),
            final(output)@.len() == old(output)@.len(),
            forall|j: int| 0 <= j < old(self).interp() ==> #[trigger] final(output)@[start + j]
                == old(self).filter().step(old(self).filter().run(old(self).filter().model(), u.skip(base), j as nat), u[base + j]).1,
            forall|i: int| 0 <= i < old(output)@.len() && !(start <= i < start + old(self).interp())
                ==> #[trigger] final(output)@[i] == old(output)@[i],
    {
        let ghost f0 = self.iirfilt;
        let ghost us = u.skip(base);
        let m = self.m;
        let zero = self.iirfilt.zero_value();
        let olen = output.len();
        let mut j: usize = 0;
        while j < m
            invariant
                j <= m,
                m == old(self).interp(),
                start + m <= olen,
                olen == output@.len(),
                output@.len() == old(output)@.len(),
                zero == f0.zero(),
                f0 == old(self).filter(),
                us == u.skip(base),
                0 <= base,
                base + m <= u.len(),
                self.interp() == old(self).interp(),
                self.wf(),
                iir_exact::<T, Coeff>(),
                self.filter().same_config(&f0),
                self.filter().model() == f0.run(f0.model(), us, j as nat),
                forall|jj: int| 0 <= jj < m ==> #[trigger] u[base + jj] == if jj == 0 { x } else { f0.zero() },
                forall|jj: int| 0 <= jj < m ==> f0.step_ok(#[trigger] f0.run(f0.model(), us, jj as nat), u[base + jj]),
                forall|jj: int| 0 <= jj < j ==> #[trigger] output@[start + jj]
                    == f0.step(f0.run(f0.model(), us, jj as nat), u[base + jj]).1,
                forall|i: int| 0 <= i < output@.len() && !(start <= i < start + j) ==> #[trigger] output@[i] == old(output)@[i],
            decreases m - j,
        {
            let xi = if j == 0 { x } else { zero };
            proof {
                let jj = j as int;
                assert(u[base + jj] == xi);
                assert(us[jj] == u[base + jj]);
                assert(f0.step_ok(f0.run(f0.model(), us, jj as nat), u[base + jj]));
                lemma_step_same_config(self.filter(), f0, self.filter().model(), xi);
            }
            let v = self.iirfilt.execute(xi);
            output[start + j] = v;
            proof {
                let jj = j as int;
                assert(f0.run(f0.model(), us, (jj + 1) as nat) == f0.step(f0.run(f0.model(), us, jj as nat), us[jj]).0);
            }
            j = j + 1;
        }
        proof {
            assert forall|jj: int| 0 <= jj < m implies #[trigger] output@[start + jj]
                == f0.step(f0.run(f0.model(), us, jj as nat), u[base + jj]).1 by {}
        }
    }

    /// Interpolates one sample: `output[j]` is the filter output for `input` when
    /// `j == 0` and for a zero otherwise. Fails, changing nothing, unless
    /// `output` holds exactly `interp` samples.
    pub fn execute(&mut self, input: T, output: &mut [T]) -> (r: Result<()>)
        requires
            old(self).wf(),
            iir_exact::<T, Coeff>(),
            old(self).run_ok(seq![input]),
        ensures
            old(output)@.len() != old(self).interp() <==> r is Err,
            r is Err ==> r->Err_0 is Config && *final(self) == *old(self) && final(output)@ == old(output)@,
            r is Ok ==> {
                &&& final(self).wf()
                &&& final(self).interp() == old(self).interp()
                &&& final(self).filter().same_config(&old(self).filter())
                &&& final(self).filter().model() == old(self).filter().run(
                    old(self).filter().model(), old(self).stream(seq![input]), old(self).interp())
                &&& final(output)@.len() == old(output)@.len()
                &&& forall|j: int| 0 <= j < old(self).interp() ==>
                    #[trigger] final(output)@[j] == old(self).output_at(seq![input], j)
            },
    {
        if output.len() != self.m {
            return Err(config_error("output array must be of length m"));
        }
        let ghost u = self.stream(seq![input]);
        let ghost m = self.interp();
        let ghost f0 = self.filter();
        proof {
            assert(seq![input].len() == 1);
            assert(u.len() == m);
            assert(u.skip(0) =~= u);
            assert forall|j: int| 0 <= j < m implies #[trigger] u[0 + j]
                == if j == 0 { input } else { f0.zero() } by {
                lemma_upsampled_index(seq![input], m, f0.zero(), 0, j);
            }
            assert forall|j: int| 0 <= j < m implies f0.step_ok(
                #[trigger] f0.run(f0.model(), u.skip(0), j as nat), u[0 + j]) by {
                lemma_upsampled_index(seq![input], m, f0.zero(), 0, j);
            }
        }
        self.execute_group(input, output, 0, Ghost(u), Ghost(0));
        proof {
            assert forall|j: int| 0 <= j < m implies #[trigger] output@[j] == old(self).output_at(seq![input], j) by {
                assert(output@[0 + j] == f0.step(f0.run(f0.model(), u.skip(0), j as nat), u[0 + j]).1);
            }
        }
        Ok(())
    }

    /// Interpolates a block: `output[k]` is the filter output for position `k` of
    /// the stream of `input`. Fails, changing nothing, unless `output` holds
    /// exactly `input.len() * interp` samples.
    pub fn execute_block(&mut self, input: &[T], output: &mut [T]) -> (r: Result<()>)
        requires
            old(self).wf(),
            iir_exact::<T, Coeff>(),
            input@.len() * old(self).interp() <= usize::MAX,
            old(self).run_ok(input@),
        ensures
            old(output)@.len() != input@.len() * old(self).interp() <==> r is Err,
            r is Err ==> r->Err_0 is Config && *final(self) == *old(self) && final(output)@ == old(output)@,
            r is Ok ==> {
                &&& final(self).wf()
                &&& final(self).interp() == old(self).interp()
                &&& final(self).filter().same_config(&old(self).filter())
                &&& final(self).filter().model() == old(self).filter().run(
                    old(self).filter().model(), old(self).stream(input@), input@.len() * old(self).interp())
                &&& final(output)@.len() == old(output)@.len()
                &&& forall|k: int| 0 <= k < old(output)@.len() ==>
                    #[trigger] final(output)@[k] == old(self).output_at(input@, k)
            },
    {
        let m = self.m;
        let n = input.len();
        proof {
            assert(n * m <= usize::MAX);
        }
        if output.len() != n * m {
            return Err(config_error("output array must be of length n * m"));
        }
        let ghost f0 = self.filter();
        let ghost m0 = f0.model();
        let ghost u = self.stream(input@);
        let ghost mi = m as int;
        let mut i: usize = 0;
        while i < n
            invariant
                i <= n,
                n == input@.len(),
                m == mi,
                mi >= 2,
                mi == old(self).interp(),
                n * mi <= usize::MAX,
                output@.len() == n * mi,
                output@.len() == old(output)@.len(),
                u == upsampled(input@, mi as nat, f0.zero()),
                u.len() == n * mi,
                f0 == old(self).filter(),
                m0 == f0.model(),
                self.interp() == old(self).interp(),
                self.wf(),
                iir_exact::<T, Coeff>(),
                self.filter().same_config(&f0),
                self.filter().model() == f0.run(m0, u, (i * mi) as nat),
                forall|k: int| 0 <= k < u.len() ==> f0.step_ok(#[trigger] f0.run(m0, u, k as nat), u[k]),
                forall|k: int| 0 <= k < i * mi ==> #[trigger] output@[k] == f0.step(f0.run(m0, u, k as nat), u[k]).1,
            decreases n - i,
        {
            let ghost fc = self.filter();
            let ghost base = i * mi;
            proof {
                assert((i + 1) * mi == i * mi + mi) by (nonlinear_arith);
                assert((i + 1) * mi <= n * mi) by (nonlinear_arith) requires i < n, mi >= 2;
                assert forall|j: int| 0 <= j < mi implies #[trigger] u[base + j]
                    == if j == 0 { input@[i as int] } else { fc.zero() } by {
                    lemma_upsampled_index(input@, mi as nat, f0.zero(), i as int, j);
                }
                assert forall|j: int| 0 <= j < mi implies fc.step_ok(
                    #[trigger] fc.run(fc.model(), u.skip(base), j as nat), u[base + j]) by {
                    lemma_run_shift(f0, m0, u, base as nat, j as nat);
                    lemma_run_same_config(fc, f0, fc.model(), u.skip(base), j as nat);
                    assert(f0.step_ok(f0.run(m0, u, (base + j) as nat), u[base + j]));
                    lemma_step_same_config(fc, f0, f0.run(m0, u, (base + j) as nat), u[base + j]);
                }
            }
            let start = i * m;
            self.execute_group(input[i], output, start, Ghost(u), Ghost(base));
            proof {
                lemma_run_shift(f0, m0, u, base as nat, mi as nat);
                lemma_run_same_config(fc, f0, fc.model(), u.skip(base), mi as nat);
                assert forall|k: int| 0 <= k < (i + 1) * mi implies #[trigger] output@[k]
                    == f0.step(f0.run(m0, u, k as nat), u[k]).1 by {
                    if k >= base {
                        let j = k - base;
                        assert(output@[start + j] == fc.step(fc.run(fc.model(), u.skip(base), j as nat), u[base + j]).1);
                        lemma_run_shift(f0, m0, u, base as nat, j as nat);
                        lemma_run_same_config(fc, f0, fc.model(), u.skip(base), j as nat);
                        lemma_step_same_config(fc, f0, f0.run(m0, u, k as nat), u[k]);
                    }
                }
            }
            i = i + 1;
        }
        Ok(())
    }
}

} // verus!
