use vstd::prelude::*;
use vstd::arithmetic::div_mod::{lemma_fundamental_div_mod, lemma_fundamental_div_mod_converse, lemma_div_by_multiple};
use core::ops::{Add, Mul};
use crate::error::{Error, Result, config_error, range_error};
use crate::dotprod::exact_ops;
use crate::window::{zeros, is_default, window_after, lemma_window_after_step, lemma_window_after_zero};
use crate::fir::firpfb::{FirPfbBank, pfb_phase_from};
use crate::fir::polyphase_filter::FirPolyphaseFilter;
use crate::fir::decimation::lemma_window_after_shift;
use crate::math::{gcd, gcd_spec};

verus! {

/// Rational resampler: every `decim` input samples yield `interp` output
/// samples. Output `t` is computed by phase `(t * decim) % interp` of the
/// polyphase bank right after input `(t * decim) / interp` entered the history.
#[derive(Clone, Debug)]
pub struct RationalResampler<T, Coeff = T> {
    p: usize,
    q: usize,
    coefficient_count: usize,
    block_len: usize,
    pfb: FirPolyphaseFilter<T, Coeff>,
}

/// Reduces the rate `interp / decim` by the greatest common divisor `g` of the
/// two: returns `(interp / g, decim / g, g)`, the primitive factors and the
/// block length of a resampler for that rate. Fails (`Config`) when either is
/// zero or above `u32::MAX`.
pub fn reduced_rate(interp: usize, decim: usize) -> (r: Result<(usize, usize, usize)>)
    ensures
        (interp == 0 || decim == 0 || interp > u32::MAX || decim > u32::MAX) <==> r is Err,
        r is Err ==> r->Err_0 is Config,
        r matches Ok((p, q, g)) ==> {
            &&& g == gcd_spec(interp as nat, decim as nat)
            &&& g > 0
            &&& p * g == interp
            &&& q * g == decim
        },
{
    if interp > (u32::MAX as usize) || decim > (u32::MAX as usize) {
        return Err(config_error("resampling rate exceeds the u32 range"));
    }
    let g = gcd(interp as u32, decim as u32)?;
    let gu = g as usize;
    let p = interp / gu;
    let q = decim / gu;
    proof {
        lemma_fundamental_div_mod(interp as int, gu as int);
        lemma_fundamental_div_mod(decim as int, gu as int);
        assert(p * gu == interp) by (nonlinear_arith)
            requires interp == gu * (interp / gu) + interp % gu, interp % gu == 0, p == interp / gu;
        assert(q * gu == decim) by (nonlinear_arith)
            requires decim == gu * (decim / gu) + decim % gu, decim % gu == 0, q == decim / gu;
    }
    Ok((p, q, gu))
}

/// Output `t` within a run of one or more blocks.
pub proof fn lemma_block_index(b: int, k: int, p: int, q: int)
    requires
        p > 0,
        q > 0,
        b >= 0,
        0 <= k < p,
    ensures
        ((b * p + k) * q) / p == b * q + (k * q) / p,
        ((b * p + k) * q) % p == (k * q) % p,
{
    let j = (k * q) / p;
    let r = (k * q) % p;
    vstd::arithmetic::div_mod::lemma_fundamental_div_mod(k * q, p);
    assert((b * p + k) * q == (b * q + j) * p + r) by (nonlinear_arith)
        requires k * q == j * p + r;
    lemma_fundamental_div_mod_converse((b * p + k) * q, p, b * q + j, r);
}

impl<T, Coeff> RationalResampler<T, Coeff>
where
    T: Copy + Default + Add<Output = T> + Mul<Coeff, Output = T>,
    Coeff: Copy,
{
    pub open spec fn wf(&self) -> bool {
        &&& self.bank_view().wf()
        &&& self.history().len() == self.bank_view().flen()
        &&& self.zero() == self.bank_view().zero()
        &&& self.bank_view().nf() == self.interp_spec()
        &&& self.interp_spec() > 0
        &&& self.decim_spec() > 0
        &&& self.block_spec() > 0
        &&& self.interp_spec() * self.block_spec() <= usize::MAX
        &&& self.decim_spec() * self.block_spec() <= usize::MAX
    }

    /// Interpolation factor of one primitive block.
    pub closed spec fn interp_spec(&self) -> nat {
        self.p as nat
    }

    /// Decimation factor of one primitive block.
    pub closed spec fn decim_spec(&self) -> nat {
        self.q as nat
    }

    /// Number of primitive blocks per `execute`.
    pub closed spec fn block_spec(&self) -> nat {
        self.block_len as nat
    }

    /// Number of prototype coefficients.
    pub closed spec fn coefficient_count(&self) -> nat {
        self.coefficient_count as nat
    }

    /// The polyphase coefficient bank.
    pub closed spec fn bank_view(&self) -> FirPfbBank<T, Coeff> {
        self.pfb.bank_view()
    }

    /// The most recent input samples, oldest first.
    pub closed spec fn history(&self) -> Seq<T> {
        self.pfb.history()
    }

    /// The value the history is cleared to.
    pub closed spec fn zero(&self) -> T {
        self.pfb.zero()
    }

    /// Input samples per `execute`: `decim * block_len`.
    pub open spec fn input_block(&self) -> nat {
        self.decim_spec() * self.block_spec()
    }

    /// Output samples per `execute`: `interp * block_len`.
    pub open spec fn output_block(&self) -> nat {
        self.interp_spec() * self.block_spec()
    }

    /// Output samples produced by the whole blocks in `n` input samples.
    pub open spec fn outputs_for(&self, n: nat) -> nat {
        (n / self.input_block()) * self.output_block()
    }

    /// Input samples in the whole blocks that produce at most `m` output samples.
    pub open spec fn inputs_for(&self, m: nat) -> nat {
        (m / self.output_block()) * self.input_block()
    }

    /// `k` whole input blocks produce `k` whole output blocks.
    pub proof fn lemma_outputs_for_blocks(&self, k: nat)
        requires
            self.wf(),
        ensures
            self.outputs_for(k * self.input_block()) == k * self.output_block(),
    {
        self.lemma_block_sizes();
        lemma_div_by_multiple(k as int, self.input_block() as int);
    }

    /// The input that `max_input(limit)` allows produces at most `limit` output
    /// samples, and one more input block would produce more than `limit`.
    pub proof fn lemma_max_input_tight(&self, limit: nat)
        requires
            self.wf(),
        ensures
            self.outputs_for(self.inputs_for(limit)) <= limit,
            self.outputs_for(self.inputs_for(limit) + self.input_block()) > limit,
    {
        self.lemma_block_sizes();
        let ib = self.input_block() as int;
        let ob = self.output_block() as int;
        let j = (limit as int) / ob;
        lemma_fundamental_div_mod(limit as int, ob);
        lemma_div_by_multiple(j, ib);
        assert(j * ib + ib == (j + 1) * ib) by (nonlinear_arith);
        lemma_div_by_multiple(j + 1, ib);
        assert(j * ob <= limit) by (nonlinear_arith)
            requires limit == ob * j + (limit as int) % ob, (limit as int) % ob >= 0;
        assert((j + 1) * ob > limit) by (nonlinear_arith)
            requires limit == ob * j + (limit as int) % ob, (limit as int) % ob < ob;
    }

    proof fn lemma_block_sizes(&self)
        requires
            self.wf(),
        ensures
            self.input_block() > 0,
            self.output_block() > 0,
    {
        assert(self.decim_spec() * self.block_spec() > 0) by (nonlinear_arith)
            requires self.decim_spec() > 0, self.block_spec() > 0;
        assert(self.interp_spec() * self.block_spec() > 0) by (nonlinear_arith)
            requires self.interp_spec() > 0, self.block_spec() > 0;
    }

    /// Output `t` of a run from history `h0` on input `x`.
    pub open spec fn out_at(&self, h0: Seq<T>, x: Seq<T>, t: int) -> T {
        let p = self.interp_spec() as int;
        let q = self.decim_spec() as int;
        self.bank_view().phase_output((t * q) % p, window_after(h0, x, (t * q) / p + 1))
    }

    pub open spec fn out_ok(&self, h0: Seq<T>, x: Seq<T>, t: int) -> bool {
        let p = self.interp_spec() as int;
        let q = self.decim_spec() as int;
        self.bank_view().phase_ok((t * q) % p, window_after(h0, x, (t * q) / p + 1))
    }

    /// Creates a resampler by `interp / decim` from a prototype filter at the
    /// interpolated rate; one block per `execute`.
    pub fn new(interpolation_factor: usize, decimation_factor: usize, coefficients: &[Coeff]) -> (r: Result<Self>)
        ensures
            (interpolation_factor == 0 || decimation_factor == 0
                || (coefficients@.len() as int) / (interpolation_factor as int) == 0) <==> r is Err,
            r is Err ==> r->Err_0 is Config,
            r matches Ok(s) ==> {
                let fl = (coefficients@.len() as int) / (interpolation_factor as int);
                &&& s.wf()
                &&& s.interp_spec() == interpolation_factor
                &&& s.decim_spec() == decimation_factor
                &&& s.block_spec() == 1
                &&& s.coefficient_count() == coefficients@.len()
                &&& forall|i: int| 0 <= i < interpolation_factor ==> #[trigger] s.bank_view().phase(i)
                    == pfb_phase_from(coefficients@, interpolation_factor as int, fl, i)
                &&& s.bank_view().scale_value() is None
                &&& s.history() == zeros(s.bank_view().flen(), s.zero())
                &&& is_default(s.zero())
            },
    {
        Self::with_block_len(interpolation_factor, decimation_factor, 1, coefficients)
    }

    /// Like `new`, with `block_len` primitive blocks per `execute` (so `execute`
    /// consumes `decim * block_len` and produces `interp * block_len` samples).
    pub fn with_block_len(interpolation_factor: usize, decimation_factor: usize, block_len: usize,
        coefficients: &[Coeff]) -> (r: Result<Self>)
        ensures
            (interpolation_factor == 0 || decimation_factor == 0 || block_len == 0
                || (coefficients@.len() as int) / (interpolation_factor as int) == 0
                || interpolation_factor * block_len > usize::MAX
                || decimation_factor * block_len > usize::MAX) <==> r is Err,
            r matches Ok(s) ==> {
                let fl = (coefficients@.len() as int) / (interpolation_factor as int);
                &&& s.wf()
                &&& s.interp_spec() == interpolation_factor
                &&& s.decim_spec() == decimation_factor
                &&& s.block_spec() == block_len
                &&& s.coefficient_count() == coefficients@.len()
                &&& forall|i: int| 0 <= i < interpolation_factor ==> #[trigger] s.bank_view().phase(i)
                    == pfb_phase_from(coefficients@, interpolation_factor as int, fl, i)
                &&& s.bank_view().scale_value() is None
                &&& s.history() == zeros(s.bank_view().flen(), s.zero())
                &&& is_default(s.zero())
            },
            r is Err && interpolation_factor * block_len <= usize::MAX
                && decimation_factor * block_len <= usize::MAX ==> r->Err_0 is Config,
    {
        if interpolation_factor == 0 {
            return Err(config_error("interpolation rate must be greater than zero"));
        }
        if decimation_factor == 0 {
            return Err(config_error("decimation rate must be greater than zero"));
        }
        if block_len == 0 {
            return Err(config_error("block length must be greater than zero"));
        }
        if interpolation_factor.checked_mul(block_len).is_none() || decimation_factor.checked_mul(block_len).is_none() {
            if coefficients.len() / interpolation_factor == 0 {
                return Err(config_error("filter length must be at least the interpolation rate"));
            }
            return Err(range_error("block size overflow"));
        }
        let pfb = FirPolyphaseFilter::new(interpolation_factor, coefficients)?;
        Ok(RationalResampler {
            p: interpolation_factor,
            q: decimation_factor,
            coefficient_count: coefficients.len(),
            block_len,
            pfb,
        })
    }

    /// Clears the history.
    pub fn reset(&mut self)
        requires
            old(self).wf(),
        ensures
            final(self).wf(),
            final(self).history() == zeros(old(self).history().len(), old(self).zero()),
            final(self).zero() == old(self).zero(),
            is_default(final(self).zero()),
            final(self).bank_view() == old(self).bank_view(),
            final(self).interp_spec() == old(self).interp_spec(),
            final(self).decim_spec() == old(self).decim_spec(),
            final(self).block_spec() == old(self).block_spec(),
            final(self).coefficient_count() == old(self).coefficient_count(),
    {
        self.pfb.reset()
    }

    /// Sets the output scaling.
    pub fn set_scale(&mut self, scale: Coeff)
        requires
            old(self).wf(),
        ensures
            final(self).wf(),
            final(self).bank_view().scale_value() == Some(scale),
            final(self).bank_view().nf() == old(self).bank_view().nf(),
            final(self).bank_view().flen() == old(self).bank_view().flen(),
            final(self).bank_view().zero() == old(self).bank_view().zero(),
            forall|i: int| #[trigger] final(self).bank_view().phase(i) == old(self).bank_view().phase(i),
            final(self).history() == old(self).history(),
            final(self).zero() == old(self).zero(),
            final(self).interp_spec() == old(self).interp_spec(),
            final(self).decim_spec() == old(self).decim_spec(),
            final(self).block_spec() == old(self).block_spec(),
            final(self).coefficient_count() == old(self).coefficient_count(),
    {
        self.pfb.set_scale(scale)
    }

    /// The output scaling: the factor last set, or one (`Coeff::from(1u8)`)
    /// until `set_scale` was called.
    pub fn scale(&self) -> (r: Coeff)
        where Coeff: From<u8>,
        ensures
            crate::dotprod::scale_factor_is(self.bank_view().scale_value(), r),
    {
        self.pfb.scale()
    }

    /// Number of primitive blocks per `execute`.
    pub fn block_len(&self) -> (r: usize)
        ensures
            r == self.block_spec(),
    {
        self.block_len
    }

    /// Output samples per `execute`: `interp * block_len`.
    pub fn p(&self) -> (r: usize)
        requires
            self.wf(),
        ensures
            r == self.interp_spec() * self.block_spec(),
    {
        self.p * self.block_len
    }

    /// Interpolation factor of one primitive block.
    pub fn interp(&self) -> (r: usize)
        ensures
            r == self.interp_spec(),
    {
        self.p
    }

    /// Input samples per `execute`: `decim * block_len`.
    pub fn q(&self) -> (r: usize)
        requires
            self.wf(),
        ensures
            r == self.decim_spec() * self.block_spec(),
    {
        self.q * self.block_len
    }

    /// Decimation factor of one primitive block.
    pub fn decim(&self) -> (r: usize)
        ensures
            r == self.decim_spec(),
    {
        self.q
    }

    /// Output samples produced by the whole blocks in `num_input` input samples.
    pub fn num_output(&self, num_input: usize) -> (r: usize)
        requires
            self.wf(),
            self.outputs_for(num_input as nat) <= usize::MAX,
        ensures
            r == self.outputs_for(num_input as nat),
    {
        let input_block_size = self.q * self.block_len;
        let output_block_size = self.p * self.block_len;
        proof {
            assert(input_block_size > 0) by (nonlinear_arith)
                requires input_block_size == self.q * self.block_len, self.q > 0, self.block_len > 0;
        }
        let num_blocks = num_input / input_block_size;
        num_blocks * output_block_size
    }

    /// Input samples needed for at most `max_output` output samples (whole blocks).
    pub fn max_input(&self, max_output: usize) -> (r: usize)
        requires
            self.wf(),
            self.inputs_for(max_output as nat) <= usize::MAX,
        ensures
            r == self.inputs_for(max_output as nat),
    {
        let input_block_size = self.q * self.block_len;
        let output_block_size = self.p * self.block_len;
        proof {
            assert(output_block_size > 0) by (nonlinear_arith)
                requires output_block_size == self.p * self.block_len, self.p > 0, self.block_len > 0;
        }
        let max_blocks = max_output / output_block_size;
        max_blocks * input_block_size
    }

    /// Pushes samples into the history without producing output.
    pub fn write(&mut self, buf: &[T])
        requires
            old(self).wf(),
        ensures
            final(self).wf(),
            final(self).history() == window_after(old(self).history(), buf@, buf@.len() as int),
            final(self).zero() == old(self).zero(),
            final(self).bank_view() == old(self).bank_view(),
            final(self).interp_spec() == old(self).interp_spec(),
            final(self).decim_spec() == old(self).decim_spec(),
            final(self).block_spec() == old(self).block_spec(),
            final(self).coefficient_count() == old(self).coefficient_count(),
    {
        self.pfb.write(buf)
    }

    /// One primitive block: consumes `x[xs .. xs + decim]`, writes
    /// `y[ys .. ys + interp]`.
    fn execute_primitive(&mut self, x: &[T], xs: usize, y: &mut [T], ys: usize) -> (r: Result<()>)
        requires
            old(self).wf(),
            exact_ops::<T, Coeff>(),
            old(self).interp_spec() + old(self).decim_spec() <= usize::MAX,
            xs + old(self).decim_spec() <= x@.len(),
            ys + old(self).interp_spec() <= old(y)@.len(),
            forall|k: int| 0 <= k < old(self).interp_spec() ==>
                #[trigger] old(self).out_ok(old(self).history(), x@.skip(xs as int), k),
        ensures
            r is Ok,
            final(self).wf(),
            final(self).history() == window_after(old(self).history(), x@.skip(xs as int), old(self).decim_spec() as int),
            final(self).zero() == old(self).zero(),
            final(self).bank_view() == old(self).bank_view(),
            final(self).interp_spec() == old(self).interp_spec(),
            final(self).decim_spec() == old(self).decim_spec(),
            final(self).block_spec() == old(self).block_spec(),
            final(self).coefficient_count() == old(self).coefficient_count(),
            final(y)@.len() == old(y)@.len(),
            forall|k: int| 0 <= k < old(self).interp_spec() ==>
                #[trigger] final(y)@[ys + k] == old(self).out_at(old(self).history(), x@.skip(xs as int), k),
            forall|k: int| 0 <= k < old(y)@.len() && !(ys <= k < ys + old(self).interp_spec()) ==>
                #[trigger] final(y)@[k] == old(y)@[k],
    {
        let ghost h0 = self.history();
        let ghost xv = x@.skip(xs as int);
        let ghost pp = self.p as int;
        let ghost qq = self.q as int;
        let p = self.p;
        let q = self.q;
        let ylen = y.len();
        let xlen = x.len();
        proof { lemma_window_after_zero(h0, xv); }
        let mut index: usize = 0;
        let mut n: usize = 0;
        let mut j: usize = 0;
        while j < q
            invariant
                p == pp, q == qq, pp > 0, qq > 0,
                pp == old(self).interp_spec(), qq == old(self).decim_spec(),
                pp + qq <= usize::MAX,
                ylen == y@.len(),
                xlen == x@.len(),
                xs + qq <= x@.len(),
                ys + pp <= y@.len(),
                xv == x@.skip(xs as int),
                y@.len() == old(y)@.len(),
                self.wf(),
                exact_ops::<T, Coeff>(),
                h0 == old(self).history(),
                h0.len() > 0,
                j <= qq,
                index < qq,
                index + j * pp == n * qq,
                n <= pp,
                self.history() == window_after(h0, xv, j as int),
                self.zero() == old(self).zero(),
                self.bank_view() == old(self).bank_view(),
                self.interp_spec() == old(self).interp_spec(),
                self.decim_spec() == old(self).decim_spec(),
                self.block_spec() == old(self).block_spec(),
                self.coefficient_count() == old(self).coefficient_count(),
                forall|k: int| 0 <= k < pp ==> #[trigger] old(self).out_ok(h0, xv, k),
                forall|k: int| 0 <= k < n ==> #[trigger] y@[ys + k] == old(self).out_at(h0, xv, k),
                forall|k: int| 0 <= k < y@.len() && !(ys <= k < ys + n) ==> #[trigger] y@[k] == old(y)@[k],
            decreases qq - j,
        {
            proof { lemma_window_after_step(h0, xv, j as int); }
            self.pfb.push(x[xs + j]);
            proof {
                if index < pp {
                    assert(n < pp) by (nonlinear_arith)
                        requires index + j * pp == n * qq, j < qq, pp > 0, qq > 0, index < pp;
                }
            }
            while index < p
                invariant
                    p == pp, q == qq, pp > 0, qq > 0,
                    pp == old(self).interp_spec(), qq == old(self).decim_spec(),
                pp == old(self).interp_spec(), qq == old(self).decim_spec(),
                    pp + qq <= usize::MAX,
                    ylen == y@.len(),
                    ys + pp <= y@.len(),
                    y@.len() == old(y)@.len(),
                    self.wf(),
                    exact_ops::<T, Coeff>(),
                    j < qq,
                    index < pp + qq,
                    index + j * pp == n * qq,
                    index < pp ==> n < pp,
                    n <= pp,
                    self.history() == window_after(h0, xv, j + 1),
                    self.bank_view() == old(self).bank_view(),
                    self.zero() == old(self).zero(),
                    self.interp_spec() == old(self).interp_spec(),
                    self.decim_spec() == old(self).decim_spec(),
                    self.block_spec() == old(self).block_spec(),
                    self.coefficient_count() == old(self).coefficient_count(),
                    forall|k: int| 0 <= k < pp ==> #[trigger] old(self).out_ok(h0, xv, k),
                    forall|k: int| 0 <= k < n ==> #[trigger] y@[ys + k] == old(self).out_at(h0, xv, k),
                    forall|k: int| 0 <= k < y@.len() && !(ys <= k < ys + n) ==> #[trigger] y@[k] == old(y)@[k],
                decreases pp + qq - index,
            {
                proof {
                    let nn = n as int;
                    lemma_fundamental_div_mod_converse(nn * qq, pp, j as int, index as int);
                    assert(old(self).out_ok(h0, xv, nn));
                    assert((nn * qq) / pp == j && (nn * qq) % pp == index);
                    assert(self.bank_view().phase_ok(index as int, self.history()));
                    assert((index + qq) + j * pp == (nn + 1) * qq) by (nonlinear_arith)
                        requires index + j * pp == nn * qq;
                    if index + qq < pp {
                        assert(nn + 1 < pp) by (nonlinear_arith)
                            requires (index + qq) + j * pp == (nn + 1) * qq, j < qq, pp > 0, qq > 0, index + qq < pp;
                    }
                }
                let v = self.pfb.execute(index);
                if let Ok(v) = v {
                    y[ys + n] = v;
                }
                proof {
                    let nn = n as int;
                    assert(y@[ys + nn] == old(self).out_at(h0, xv, nn));
                }
                n = n + 1;
                index = index + q;
            }
            proof {
                assert((index - pp) + (j + 1) * pp == n * qq) by (nonlinear_arith)
                    requires index + j * pp == n * qq;
                assert(n <= pp) by (nonlinear_arith)
                    requires index + j * pp == n * qq, index >= pp, index < pp + qq, j < qq, pp > 0, qq > 0;
            }
            index = index - p;
            j = j + 1;
        }
        proof {
            assert(n == pp && index == 0) by (nonlinear_arith)
                requires index + qq * pp == n * qq, 0 <= index < qq, qq > 0, n <= pp;
        }
        if index != 0 {
            return Err(Error::Internal("primitive block did not end on a block boundary".to_owned()));
        } else if n != p {
            return Err(Error::Internal("primitive block produced a wrong number of outputs".to_owned()));
        }
        Ok(())
    }

    /// Running block by block is running at once: output `k` of block `b` of a
    /// run on `x` from history `h0` is output `k` of a run on the rest of `x`
    /// from the history that the first `b` blocks of input leave.
    pub proof fn lemma_block_shift(&self, h0: Seq<T>, x: Seq<T>, b: int, k: int)
        requires
            self.wf(),
            h0.len() > 0,
            0 <= b,
            0 <= k < self.interp_spec(),
            (b + 1) * self.decim_spec() <= x.len(),
        ensures
            self.out_at(window_after(h0, x, b * self.decim_spec()), x.skip(b * self.decim_spec()), k)
                == self.out_at(h0, x, b * self.interp_spec() + k),
            self.out_ok(window_after(h0, x, b * self.decim_spec()), x.skip(b * self.decim_spec()), k)
                == self.out_ok(h0, x, b * self.interp_spec() + k),
    {
        let p = self.interp_spec() as int;
        let q = self.decim_spec() as int;
        lemma_block_index(b, k, p, q);
        let j = (k * q) / p;
        assert(j < q) by (nonlinear_arith)
            requires j == (k * q) / p, 0 <= k < p, q > 0, p > 0;
        assert(0 <= j) by (nonlinear_arith)
            requires j == (k * q) / p, 0 <= k, q > 0, p > 0;
        assert((b + 1) * q == b * q + q) by (nonlinear_arith);
        assert(0 <= b * q) by (nonlinear_arith) requires 0 <= b, q > 0;
        lemma_window_after_shift(h0, x, b * q, j + 1);
    }

    /// Runs `nb` primitive blocks from the start of `input` and `output`.
    fn run_blocks(&mut self, input: &[T], nb: usize, output: &mut [T])
        requires
            old(self).wf(),
            exact_ops::<T, Coeff>(),
            old(self).interp_spec() + old(self).decim_spec() <= usize::MAX,
            nb * old(self).decim_spec() <= input@.len(),
            nb * old(self).interp_spec() <= old(output)@.len(),
            forall|t: int| 0 <= t < nb * old(self).interp_spec() ==>
                #[trigger] old(self).out_ok(old(self).history(), input@, t),
        ensures
            final(self).wf(),
            final(self).history() == window_after(old(self).history(), input@, (nb * old(self).decim_spec()) as int),
            final(self).zero() == old(self).zero(),
            final(self).bank_view() == old(self).bank_view(),
            final(self).interp_spec() == old(self).interp_spec(),
            final(self).decim_spec() == old(self).decim_spec(),
            final(self).block_spec() == old(self).block_spec(),
            final(self).coefficient_count() == old(self).coefficient_count(),
            final(output)@.len() == old(output)@.len(),
            forall|t: int| 0 <= t < nb * old(self).interp_spec() ==>
                #[trigger] final(output)@[t] == old(self).out_at(old(self).history(), input@, t),
            forall|t: int| nb * old(self).interp_spec() <= t < old(output)@.len() ==>
                #[trigger] final(output)@[t] == old(output)@[t],
    {
        let ghost h0 = self.history();
        let ghost pp = self.p as int;
        let ghost qq = self.q as int;
        let p = self.p;
        let q = self.q;
        let ilen = input.len();
        let olen = output.len();
        proof { lemma_window_after_zero(h0, input@); }
        let mut b: usize = 0;
        while b < nb
            invariant
                p == pp, q == qq, pp > 0, qq > 0,
                pp == old(self).interp_spec(), qq == old(self).decim_spec(),
                pp + qq <= usize::MAX,
                nb * qq <= input@.len(),
                nb * pp <= output@.len(),
                ilen == input@.len(),
                olen == output@.len(),
                output@.len() == old(output)@.len(),
                b <= nb,
                self.wf(),
                exact_ops::<T, Coeff>(),
                h0 == old(self).history(),
                h0.len() > 0,
                self.history() == window_after(h0, input@, b * qq),
                self.zero() == old(self).zero(),
                self.bank_view() == old(self).bank_view(),
                self.interp_spec() == old(self).interp_spec(),
                self.decim_spec() == old(self).decim_spec(),
                self.block_spec() == old(self).block_spec(),
                self.coefficient_count() == old(self).coefficient_count(),
                forall|t: int| 0 <= t < nb * pp ==> #[trigger] old(self).out_ok(h0, input@, t),
                forall|t: int| 0 <= t < b * pp ==> #[trigger] output@[t] == old(self).out_at(h0, input@, t),
                forall|t: int| b * pp <= t < output@.len() ==> #[trigger] output@[t] == old(output)@[t],
            decreases nb - b,
        {
            proof {
                assert((b + 1) * qq <= nb * qq) by (nonlinear_arith) requires b < nb, qq > 0;
                assert((b + 1) * pp <= nb * pp) by (nonlinear_arith) requires b < nb, pp > 0;
                assert((b + 1) * qq == b * qq + qq) by (nonlinear_arith);
                assert((b + 1) * pp == b * pp + pp) by (nonlinear_arith);
                assert forall|k: int| 0 <= k < pp implies
                    #[trigger] self.out_ok(self.history(), input@.skip(b * qq), k) by {
                    old(self).lemma_block_shift(h0, input@, b as int, k);
                    assert(b * pp + k < nb * pp);
                    assert(old(self).out_ok(h0, input@, b * pp + k));
                }
            }
            let ghost o0 = output@;
            let _ = self.execute_primitive(input, b * q, output, b * p);
            proof {
                assert forall|t: int| 0 <= t < (b + 1) * pp implies
                    #[trigger] output@[t] == old(self).out_at(h0, input@, t) by {
                    if t >= b * pp {
                        let k = t - b * pp;
                        old(self).lemma_block_shift(h0, input@, b as int, k);
                        assert(output@[b * pp + k] == old(self).out_at(window_after(h0, input@, b * qq), input@.skip(b * qq), k));
                    } else {
                        assert(output@[t] == o0[t]);
                    }
                }
            }
            b = b + 1;
        }
    }

    /// Runs `block_len` primitive blocks: consumes `q()` input samples and writes
    /// `p()` output samples; output `t` is `out_at(history, input, t)`.
    pub fn execute(&mut self, input: &[T], output: &mut [T]) -> (r: Result<()>)
        requires
            old(self).wf(),
            exact_ops::<T, Coeff>(),
            old(self).interp_spec() + old(self).decim_spec() <= usize::MAX,
            old(self).block_spec() * old(self).decim_spec() <= input@.len(),
            old(self).block_spec() * old(self).interp_spec() <= old(output)@.len(),
            forall|t: int| 0 <= t < old(self).block_spec() * old(self).interp_spec() ==>
                #[trigger] old(self).out_ok(old(self).history(), input@, t),
        ensures
            r is Ok,
            final(self).wf(),
            final(self).history() == window_after(old(self).history(), input@,
                (old(self).block_spec() * old(self).decim_spec()) as int),
            final(self).zero() == old(self).zero(),
            final(self).bank_view() == old(self).bank_view(),
            final(self).interp_spec() == old(self).interp_spec(),
            final(self).decim_spec() == old(self).decim_spec(),
            final(self).block_spec() == old(self).block_spec(),
            final(self).coefficient_count() == old(self).coefficient_count(),
            final(output)@.len() == old(output)@.len(),
            forall|t: int| 0 <= t < old(self).block_spec() * old(self).interp_spec() ==>
                #[trigger] final(output)@[t] == old(self).out_at(old(self).history(), input@, t),
            forall|t: int| old(self).block_spec() * old(self).interp_spec() <= t < old(output)@.len() ==>
                #[trigger] final(output)@[t] == old(output)@[t],
    {
        let nb = self.block_len;
        self.run_blocks(input, nb, output);
        Ok(())
    }

    /// Runs `n` calls of `execute` on consecutive blocks: call `i` consumes
    /// `input[i * q() .. (i + 1) * q()]` and writes `output[i * p() .. (i + 1) * p()]`.
    pub fn execute_block(&mut self, input: &[T], n: usize, output: &mut [T]) -> (r: Result<()>)
        requires
            old(self).wf(),
            exact_ops::<T, Coeff>(),
            old(self).interp_spec() + old(self).decim_spec() <= usize::MAX,
            n * old(self).input_block() <= input@.len(),
            n * old(self).output_block() <= old(output)@.len(),
            forall|t: int| 0 <= t < n * old(self).output_block() ==>
                #[trigger] old(self).out_ok(old(self).history(), input@, t),
        ensures
            r is Ok,
            final(self).wf(),
            final(self).history() == window_after(old(self).history(), input@, (n * old(self).input_block()) as int),
            final(self).zero() == old(self).zero(),
            final(self).bank_view() == old(self).bank_view(),
            final(self).interp_spec() == old(self).interp_spec(),
            final(self).decim_spec() == old(self).decim_spec(),
            final(self).block_spec() == old(self).block_spec(),
            final(self).coefficient_count() == old(self).coefficient_count(),
            final(output)@.len() == old(output)@.len(),
            forall|t: int| 0 <= t < n * old(self).output_block() ==>
                #[trigger] final(output)@[t] == old(self).out_at(old(self).history(), input@, t),
            forall|t: int| n * old(self).output_block() <= t < old(output)@.len() ==>
                #[trigger] final(output)@[t] == old(output)@[t],
    {
        proof {
            let d = self.decim_spec() as int;
            let b = self.block_spec() as int;
            let pp = self.interp_spec() as int;
            assert(n * b <= input@.len() && n * b * d == n * (d * b) && n * b * pp == n * (pp * b))
                by (nonlinear_arith)
                requires n * (d * b) <= input@.len(), d > 0, b > 0, n >= 0;
        }
        assert(n * self.block_len <= input.len());
        let nb = n * self.block_len;
        self.run_blocks(input, nb, output);
        Ok(())
    }
}

} // verus!
