use dsp_filter::fir::firfilt::{FirFilter, fir_filter_design_rect};

#[test]
fn firfilt_integer_convolution() {
    let mut q = FirFilter::<i64, i64>::new(&[1, 2, 3]).unwrap();
    let x = [1i64, 0, 0, 4];
    let mut y = [0i64; 4];
    q.execute_block(&x, &mut y).unwrap();
    assert_eq!(y, [1, 2, 3, 4]);
}

#[test]
fn firfilt_f32_scale() {
    let mut q = FirFilter::<f32, f32>::new_rect(4).unwrap();
    q.set_scale(0.25);
    let mut last = 0.0;
    for _ in 0..4 {
        last = q.execute_one(1.0);
    }
    assert!((last - 1.0).abs() < 1e-6);
}

/// Frequency response magnitude in dB of `h * scale` at normalized frequency `f`.
fn response_db(h: &[f32], scale: f32, f: f32) -> f32 {
    let mut re = 0.0f32;
    let mut im = 0.0f32;
    for (i, &c) in h.iter().enumerate() {
        let phase = -2.0 * std::f32::consts::PI * f * i as f32;
        re += c * phase.cos();
        im += c * phase.sin();
    }
    let mag = scale * (re * re + im * im).sqrt();
    20.0 * mag.max(1e-12).log10()
}

struct PsdRegion {
    fmin: f32,
    fmax: f32,
    pmin: f32,
    pmax: f32,
    test_lo: bool,
    test_hi: bool,
}

fn validate_psd_firfilt(q: &FirFilter<f32, f32>, nfft: usize, regions: &[PsdRegion]) -> bool {
    let h = q.get_coefficients();
    let scale = q.get_scale();
    for k in 0..nfft {
        let f = k as f32 / nfft as f32 - 0.5;
        let p = response_db(h, scale, f);
        for r in regions {
            if f < r.fmin || f > r.fmax {
                continue;
            }
            if r.test_lo && p < r.pmin {
                return false;
            }
            if r.test_hi && p > r.pmax {
                return false;
            }
        }
    }
    true
}

#[test]
fn test_firfilt_crcf_rect() {
    // design filter
    let mut q = FirFilter::<f32, f32>::new_rect(4).unwrap();
    q.set_scale(0.25);

    // verify resulting spectrum
    let regions = [
        PsdRegion { fmin: -0.5, fmax: -0.20, pmin: 0.0, pmax: -10.0, test_lo: false, test_hi: true },
        PsdRegion { fmin: -0.12, fmax: 0.12, pmin: -5.0, pmax: 1.0, test_lo: true, test_hi: true },
        PsdRegion { fmin: 0.20, fmax: 0.5, pmin: 0.0, pmax: -10.0, test_lo: false, test_hi: true },
    ];

    assert!(validate_psd_firfilt(&q, 301, &regions));
}

#[test]
fn firfilt_impulse_response_is_coefficients() {
    let h = [3i64, -1, 4, 1];
    let mut q = FirFilter::<i64, i64>::new(&h).unwrap();
    assert_eq!(q.execute_one(1), 3);
    assert_eq!(q.execute_one(0), -1);
    assert_eq!(q.execute_one(0), 4);
    assert_eq!(q.execute_one(0), 1);
    assert_eq!(q.execute_one(0), 0);
}

#[test]
fn firfilt_push_then_execute_matches_execute_one() {
    let h = [2i32, 5, -3];
    let mut a = FirFilter::<i32, i32>::new(&h).unwrap();
    let mut b = FirFilter::<i32, i32>::new(&h).unwrap();
    for x in [4i32, -2, 7, 1, 0, 9] {
        a.push(x);
        assert_eq!(a.execute(), b.execute_one(x));
    }
    // write pushes a block in order
    let mut c = FirFilter::<i32, i32>::new(&h).unwrap();
    c.write(&[4, -2, 7, 1, 0, 9]);
    assert_eq!(c.execute(), a.execute());
}

#[test]
fn firfilt_config_and_block_errors() {
    assert!(FirFilter::<i64, i64>::new(&[]).is_err());
    let mut q = FirFilter::<i64, i64>::new(&[1, 1]).unwrap();
    let mut y = [0i64; 2];
    assert!(q.execute_block(&[1, 2, 3], &mut y).is_err());
    assert_eq!(y, [0, 0]);
    // an empty set cannot size the history: the coefficients are left empty
    assert!(q.set_coefficients(&[]).is_err());
    assert_eq!(q.get_length(), 0);
    assert!(q.get_coefficients().is_empty());
    // a filter without coefficients takes an empty set again without error,
    // and a non-empty set makes it usable again
    assert!(q.set_coefficients(&[]).is_ok());
    q.set_coefficients(&[2, 3]).unwrap();
    assert_eq!(q.get_length(), 2);
    assert_eq!(q.execute_one(1), 2);
    assert!(FirFilter::<f32, f32>::new_rect(0).is_err());
    assert!(FirFilter::<f32, f32>::new_rect(1025).is_err());
}

#[test]
fn firfilt_reset_and_recreate() {
    let mut q = FirFilter::<i64, i64>::new(&[1, 2, 3]).unwrap();
    q.write(&[5, 6, 7]);
    assert_eq!(q.execute(), 7 + 2 * 6 + 3 * 5);
    q.reset();
    assert_eq!(q.execute(), 0);
    // new length; the history is cleared
    q.set_coefficients(&[1, 1, 1, 1, 1]).unwrap();
    assert_eq!(q.get_length(), 5);
    assert_eq!(q.get_coefficients(), &[1, 1, 1, 1, 1]);
    assert_eq!(q.execute(), 0);
    q.write(&[1, 2, 3, 4, 5, 6]);
    assert_eq!(q.execute(), 2 + 3 + 4 + 5 + 6);
}

#[test]
fn firfilt_scale_applies_to_output() {
    let mut q = FirFilter::<i64, i64>::new(&[1, 2]).unwrap();
    assert_eq!(q.get_scale(), 1);
    q.set_scale(3);
    assert_eq!(q.get_scale(), 3);
    assert_eq!(q.execute_one(1), 3);
    assert_eq!(q.execute_one(0), 6);
}

#[test]
fn firfilt_rect_design() {
    let h = fir_filter_design_rect::<i32>(3).unwrap();
    assert_eq!(h, vec![1, 1, 1]);
    assert!(fir_filter_design_rect::<i32>(0).is_err());
    let mut q = FirFilter::<i32, i32>::new_rect(3).unwrap();
    let mut y = [0i32; 5];
    q.execute_block(&[1, 2, 3, 4, 5], &mut y).unwrap();
    assert_eq!(y, [1, 3, 6, 9, 12]);
}

#[test]
fn firfilt_convolution_with_zeros_before_start() {
    // output n is sum_k h[k] x[n-k], with x[j] = 0 for j < 0
    let h = [2i64, -1, 3];
    let x = [5i64, 7, -2, 4, 1];
    let mut q = FirFilter::<i64, i64>::new(&h).unwrap();
    for n in 0..x.len() {
        let y = q.execute_one(x[n]);
        let mut expected = 0;
        for k in 0..h.len() {
            if n >= k {
                expected += h[k] * x[n - k];
            }
        }
        assert_eq!(y, expected);
    }
}
