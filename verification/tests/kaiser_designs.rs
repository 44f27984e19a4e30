use std::f32::consts::PI;

use num_complex::Complex32;
use dsp_filter::fir::firfilt::FirFilter;
use dsp_filter::fir::decimation::FirDecimationFilter;
use dsp_filter::fir::firinterp::FirInterpolationFilter;
use dsp_filter::fir::firpfb::{FirPfbBank, FirPfbFilter};
use dsp_filter::iir::iirfilt::IirFilter;
use dsp_filter::iir::iirfiltsos::IirFilterSos;
use dsp_filter::resampler::rresamp::{RationalResampler, reduced_rate};

// Kaiser-windowed sinc designs, as the filter constructors of the design module
// build them, so that these tests start from the same coefficients.

fn sincf(x: f32) -> f32 {
    if x.abs() < 1e-6 {
        return 1.0;
    }
    (PI * x).sin() / (PI * x)
}

fn besseli0f(x: f32) -> f32 {
    let y = 0.5 * x;
    let mut term = 1.0f32;
    let mut sum = 1.0f32;
    for k in 1..64 {
        term *= y / k as f32;
        let t2 = term * term;
        sum += t2;
        if t2 < sum * 1e-10 {
            break;
        }
    }
    sum
}

fn kaiser_beta(as_: f32) -> f32 {
    let a = as_.abs();
    if a > 50.0 {
        0.1102 * (a - 8.7)
    } else if a > 21.0 {
        0.5842 * (a - 21.0).powf(0.4) + 0.07886 * (a - 21.0)
    } else {
        0.0
    }
}

fn kaiser_design(n: usize, fc: f32, as_: f32, mu: f32) -> Option<Vec<f32>> {
    if n == 0 || fc <= 0.0 || fc > 0.5 || as_ <= 0.0 || mu <= -0.5 || mu > 0.5 {
        return None;
    }
    let beta = kaiser_beta(as_);
    let b = besseli0f(beta);
    Some((0..n).map(|i| {
        let t = i as f32 - (n as f32 - 1.0) / 2.0 + mu;
        let w = if n == 1 {
            1.0
        } else {
            let r = 2.0 * (i as f32 - (n as f32 - 1.0) / 2.0) / n as f32;
            besseli0f(beta * (1.0 - r * r).max(0.0).sqrt()) / b
        };
        sincf(2.0 * fc * t) * w
    }).collect())
}

fn firfilt_kaiser<T>(n: usize, fc: f32, as_: f32, mu: f32) -> Option<FirFilter<T, f32>>
where T: Copy + Default + std::ops::Add<Output = T> + std::ops::Mul<f32, Output = T>,
{
    let h = kaiser_design(n, fc, as_, mu)?;
    FirFilter::new(&h).ok()
}

fn firdecim_kaiser<T>(m: usize, delay: usize, as_: f32) -> Option<FirDecimationFilter<T, f32>>
where T: Copy + Default + std::ops::Add<Output = T> + std::ops::Mul<f32, Output = T>,
{
    if m < 2 || delay == 0 || as_ < 0.0 {
        return None;
    }
    let h = kaiser_design(2 * m * delay + 1, 0.5 / m as f32, as_, 0.0)?;
    FirDecimationFilter::new(m, &h).ok()
}

fn firinterp_kaiser<T>(m: usize, delay: usize, as_: f32) -> Option<FirInterpolationFilter<T, f32>>
where T: Copy + Default + std::ops::Add<Output = T> + std::ops::Mul<f32, Output = T>,
{
    if m < 2 || delay == 0 || as_ < 0.0 {
        return None;
    }
    let h_len = 2 * m * delay + 1;
    let h = kaiser_design(h_len, 0.5 / m as f32, as_, 0.0)?;
    FirInterpolationFilter::new(m, &h, h_len - 1).ok()
}

fn firpfb_default(num_filters: usize, m: usize) -> Option<FirPfbFilter<Complex32, f32>> {
    let h_len = 2 * num_filters * m + 1;
    let h = kaiser_design(h_len, 0.5 / num_filters as f32, 60.0, 0.0)?;
    let bank = FirPfbBank::new(num_filters, &h, h_len).ok()?;
    FirPfbFilter::from_bank(bank).ok()
}

/// Hamming-windowed sinc of length `n` and cut-off `fc`.
fn hamming_design(n: usize, fc: f32) -> Vec<f32> {
    (0..n).map(|i| {
        let t = i as f32 - (n as f32 - 1.0) / 2.0;
        let w = 0.54 - 0.46 * (2.0 * PI * i as f32 / (n as f32 - 1.0)).cos();
        sincf(2.0 * fc * t) * w
    }).collect()
}

/// Deterministic pseudo-random samples (a linear congruential generator
/// mapped to [-1, 1)).
struct Noise(u64);

impl Noise {
    fn next(&mut self) -> f32 {
        self.0 = self.0.wrapping_mul(6364136223846793005).wrapping_add(1442695040888963407);
        ((self.0 >> 40) as f32 / (1u64 << 24) as f32) * 2.0 - 1.0
    }
    fn complex(&mut self) -> Complex32 {
        Complex32::new(self.next(), self.next())
    }
}

#[test]
fn test_firfilt_config() {
    assert!(FirFilter::<Complex32, f32>::new(&[]).is_err());
    assert!(firfilt_kaiser::<Complex32>(0, 0.0, 0.0, 0.0).is_none());
    assert!(FirFilter::<Complex32, f32>::new_rect(0).is_err());

    let mut q = firfilt_kaiser::<Complex32>(11, 0.2, 60.0, 0.0).unwrap();
    q.set_scale(3.0);
    let scale = q.get_scale();
    assert_eq!(scale, 3.0);
    assert_eq!(q.get_length(), 11);
}

#[test]
fn test_firfilt_push_write() {
    let mut q0 = firfilt_kaiser::<f32>(51, 0.2, 60.0, 0.0).unwrap();
    let mut q1 = firfilt_kaiser::<f32>(51, 0.2, 60.0, 0.0).unwrap();
    let buf: [f32; 8] = [-1.0, 3.0, 5.0, -3.0, 5.0, 1.0, -3.0, -4.0];
    for trial in 0..20 {
        let n = trial % 8;
        for i in 0..n {
            q0.push(buf[i]);
        }
        q1.write(&buf[..n]);
        let v0 = q0.execute();
        let v1 = q1.execute();
        assert_eq!(v0, v1);
    }
}

#[test]
fn test_firdecim_config() {
    let m = 4;
    let n = 12;
    let h_len = 2 * m * n + 1;
    let h = hamming_design(h_len, 0.2);

    assert!(FirDecimationFilter::<Complex32, f32>::new(0, &h).is_err());
    assert!(FirDecimationFilter::<Complex32, f32>::new(m, &[]).is_err());

    assert!(firdecim_kaiser::<Complex32>(1, 12, 60.0).is_none());
    assert!(firdecim_kaiser::<Complex32>(4, 0, 60.0).is_none());
    assert!(firdecim_kaiser::<Complex32>(4, 12, -2.0).is_none());

    let mut decim = firdecim_kaiser::<Complex32>(m, n, 60.0).unwrap();
    decim.set_scale(8.0);
    assert_eq!(decim.scale(), 8.0);
}

#[test]
fn test_firdecim_crcf_execute_block_matches_execute() {
    let decimation_factor = 3;
    let mut reference = firdecim_kaiser::<Complex32>(decimation_factor, 4, 60.0).unwrap();
    reference.set_scale(0.37);
    let mut block = reference.clone();

    let num_outputs = 257;
    let x: Vec<_> = (0..decimation_factor * num_outputs)
        .map(|i| Complex32::new((0.13 * i as f32).sin(), (0.07 * i as f32).cos()))
        .collect();
    let mut expected = vec![Complex32::new(0.0, 0.0); num_outputs];
    let mut actual = vec![Complex32::new(0.0, 0.0); num_outputs];

    for (i, chunk) in x.chunks_exact(decimation_factor).enumerate() {
        expected[i] = reference.execute(chunk).unwrap();
    }

    let mut offset = 0;
    for &len in &[1, 7, 31, 3, 64, 151] {
        let input_start = decimation_factor * offset;
        let input_end = decimation_factor * (offset + len);
        let written = block.execute_block(&x[input_start..input_end], len, &mut actual[offset..offset + len]).unwrap();
        assert_eq!(written, len);
        offset += len;
    }

    for (expected, actual) in expected.iter().zip(actual.iter()) {
        assert!((actual.re - expected.re).abs() <= 1e-5);
        assert!((actual.im - expected.im).abs() <= 1e-5);
    }
}

#[test]
fn test_firdecim_execute_block_rejects_short_buffers() {
    let mut decim = firdecim_kaiser::<f32>(3, 4, 60.0).unwrap();
    assert!(decim.execute_block(&[0.0; 5], 2, &mut [0.0; 2]).is_err());
    assert!(decim.execute_block(&[0.0; 6], 2, &mut [0.0; 1]).is_err());
}

#[test]
fn test_firdecim_rrrf_common() {
    let decim = firdecim_kaiser::<f32>(17, 4, 60.0).unwrap();
    assert_eq!(decim.decim_rate(), 17);
}

#[test]
fn test_firdecim_crcf_common() {
    let decim = firdecim_kaiser::<Complex32>(7, 4, 60.0).unwrap();
    assert_eq!(decim.decim_rate(), 7);
}

#[test]
fn test_firinterp_rrrf_common() {
    let interp = firinterp_kaiser::<f32>(17, 4, 60.0).unwrap();
    assert_eq!(interp.get_interp_rate(), 17);
}

#[test]
fn test_firinterp_crcf_common() {
    let interp = firinterp_kaiser::<Complex32>(7, 4, 60.0).unwrap();
    assert_eq!(interp.get_interp_rate(), 7);
}

#[test]
fn test_firinterp_copy() {
    let mut noise = Noise(17);
    let mut q0 = firinterp_kaiser::<Complex32>(3, 7, 60.0).unwrap();
    q0.set_scale(0.12345);

    let mut buf_0 = [Complex32::new(0.0, 0.0); 3];
    for _ in 0..20 {
        let v = noise.complex();
        q0.execute(v, &mut buf_0).unwrap();
    }

    let mut q1 = q0.clone();

    let mut buf_1 = [Complex32::new(0.0, 0.0); 3];
    for _ in 0..60 {
        let v = noise.complex();
        q0.execute(v, &mut buf_0).unwrap();
        q1.execute(v, &mut buf_1).unwrap();
        assert_eq!(buf_0, buf_1);
    }
}

#[test]
fn test_firinterp_flush() {
    let mut noise = Noise(3);
    let m = 7;
    let mut q = firinterp_kaiser::<Complex32>(3, m, 60.0).unwrap();

    let mut buf = [Complex32::new(0.0, 0.0); 3];
    for _ in 0..20 {
        let v = noise.complex();
        q.execute(v, &mut buf).unwrap();
    }

    assert!(buf.iter().map(|x| x.norm_sqr()).sum::<f32>() > 0.0);

    for _ in 0..(2 * m) {
        q.flush(&mut buf).unwrap();
    }

    assert_eq!(buf.iter().map(|x| x.norm_sqr()).sum::<f32>(), 0.0);
}

#[test]
fn test_firpfb_crcf_copy() {
    let mut noise = Noise(5);
    let m = 13;
    let h = 7;
    let mut q0 = firpfb_default(m, h).unwrap();

    let num_samples = 80;
    for _ in 0..num_samples {
        q0.push(noise.complex());
    }

    let mut q1 = q0.clone();

    for _ in 0..num_samples {
        let v = noise.complex();
        let idx = (noise.0 >> 33) as usize % m;
        q0.push(v);
        q1.push(v);
        let y0 = q0.execute(idx).unwrap();
        let y1 = q1.execute(idx).unwrap();
        assert_eq!(y0, y1);
    }
}

#[test]
fn test_iirfiltsos_copy() {
    let mut noise = Noise(11);
    let a = [1.0000000000000000f32, -0.942809041582063f32, 0.3333333333333333f32];
    let b = [0.0976310729378175f32, 0.195262145875635f32, 0.0976310729378175f32];

    let mut q0 = IirFilterSos::<Complex32, f32>::new(&b, &a).unwrap();

    let num_samples = 80;
    for _ in 0..num_samples {
        q0.execute(noise.complex());
    }

    let mut q1 = q0.clone();

    for _ in 0..num_samples {
        let v = noise.complex();
        let y0 = q0.execute(v);
        let y1 = q1.execute(v);
        assert_eq!(y0, y1);
    }
}

#[test]
fn test_iirfilt_config() {
    assert!(IirFilter::<Complex32, f32>::new(&[], &[]).is_err());
    assert!(IirFilter::<Complex32, f32>::new(&[0.0], &[]).is_err());
    assert!(IirFilter::<Complex32, f32>::new(&[], &[1.0]).is_err());
    assert!(IirFilter::<Complex32, f32>::new_sos(&[], &[], 0).is_err());

    // a valid order-7 low-pass in section form has four sections; the section
    // coefficients here are those of a 2nd-order Butterworth low-pass
    let b1 = [0.0976310729378175f32, 0.195262145875635, 0.0976310729378175];
    let a1 = [1.0f32, -0.942809041582063, 0.3333333333333333];
    let b: Vec<f32> = (0..4).flat_map(|_| b1).collect();
    let a: Vec<f32> = (0..4).flat_map(|_| a1).collect();
    let mut filter = IirFilter::<Complex32, f32>::new_sos(&b, &a, 4).unwrap();

    filter.set_scale(7.22);
    let scale = filter.get_scale();
    assert_eq!(scale, 7.22);
    assert_eq!(filter.get_length(), 8);
}

/// Rational resampler with the default Kaiser design (semi-length 12,
/// bandwidth 0.5, 60 dB), the rate reduced by its greatest common divisor.
fn rresamp_kaiser_simple(interp: usize, decim: usize) -> Option<RationalResampler<Complex32, f32>> {
    let (p, q, g) = reduced_rate(interp, decim).ok()?;
    let bw = 0.5f32;
    let m = 12;
    let h_len = 2 * p * m + 1;
    let h = kaiser_design(h_len, bw / p as f32, 60.0, 0.0)?;
    let mut r = RationalResampler::with_block_len(p, q, g, &h).ok()?;
    r.set_scale(2.0 * bw * (q as f32 / p as f32).sqrt());
    Some(r)
}

fn testbench_rresamp_crcf_num_output(interp: usize, decim: usize) {
    let mut resamp = rresamp_kaiser_simple(interp, decim).unwrap();
    let q = resamp.q();
    let p = resamp.p();

    let max_blocks = 20;
    let buf_in = vec![Complex32::new(0.0, 0.0); max_blocks * q];
    let mut buf_out = vec![Complex32::new(0.0, 0.0); max_blocks * p];

    for num_blocks in 1..=max_blocks {
        let num_input = num_blocks * q;
        let expected_output = num_blocks * p;
        assert_eq!(resamp.num_output(num_input), expected_output);
        resamp.execute_block(&buf_in[..num_input], num_blocks, &mut buf_out[..expected_output]).unwrap();
    }
}

#[test]
fn test_rresamp_crcf_num_output_0() {
    testbench_rresamp_crcf_num_output(1, 5);
}

#[test]
fn test_rresamp_crcf_num_output_1() {
    testbench_rresamp_crcf_num_output(3, 5);
}

#[test]
fn test_rresamp_crcf_num_output_2() {
    testbench_rresamp_crcf_num_output(5, 3);
}

#[test]
fn test_rresamp_crcf_num_output_3() {
    testbench_rresamp_crcf_num_output(8, 5);
}

fn testbench_rresamp_crcf_max_input(interp: usize, decim: usize) {
    let resamp = rresamp_kaiser_simple(interp, decim).unwrap();
    let q = resamp.q();
    for output_limit in [1, 2, 5, 10, 20, 50, 100] {
        let max_input = resamp.max_input(output_limit);
        let num_output = resamp.num_output(max_input);
        assert!(num_output <= output_limit);
        let next_input = max_input + q;
        let next_output = resamp.num_output(next_input);
        assert!(next_output > output_limit);
    }
}

#[test]
fn test_rresamp_crcf_max_input_0() {
    testbench_rresamp_crcf_max_input(1, 5);
}

#[test]
fn test_rresamp_crcf_max_input_1() {
    testbench_rresamp_crcf_max_input(3, 5);
}

#[test]
fn test_rresamp_crcf_max_input_2() {
    testbench_rresamp_crcf_max_input(5, 3);
}

#[test]
fn test_rresamp_crcf_max_input_3() {
    testbench_rresamp_crcf_max_input(8, 5);
}
