use dsp_filter::fir::firfilt::FirFilter;
use dsp_filter::iir::iirfilt::IirFilter;
use num_complex::Complex32;

#[test]
fn firfilt_complex_samples_real_coefficients() {
    let mut q = FirFilter::<Complex32, f32>::new(&[0.5, 0.25]).unwrap();
    let y0 = q.execute_one(Complex32::new(2.0, -4.0));
    let y1 = q.execute_one(Complex32::new(0.0, 0.0));
    assert_eq!(y0, Complex32::new(1.0, -2.0));
    assert_eq!(y1, Complex32::new(0.5, -1.0));
}

#[test]
fn iirfilt_complex_samples_real_coefficients() {
    // one-pole low-pass y[n] = x[n] + 0.5 y[n-1]
    let mut q = IirFilter::<Complex32, f32>::new(&[1.0], &[1.0, -0.5]).unwrap();
    let x = [Complex32::new(1.0, 1.0), Complex32::new(0.0, 0.0), Complex32::new(0.0, 0.0)];
    let mut y = [Complex32::new(0.0, 0.0); 3];
    q.execute_block(&x, &mut y).unwrap();
    assert_eq!(y, [Complex32::new(1.0, 1.0), Complex32::new(0.5, 0.5), Complex32::new(0.25, 0.25)]);
}
