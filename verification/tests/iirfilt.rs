use dsp_filter::iir::iirfilt::IirFilter;

#[test]
fn iirfilt_integrator() {
    // H(z) = 1 / (1 - z^-1)
    let mut q = IirFilter::<i64, i64>::new(&[1], &[1, -1]).unwrap();
    assert_eq!(q.get_length(), 2);
    let x = [1i64, 0, 0, 2, 0];
    let mut y = [0i64; 5];
    q.execute_block(&x, &mut y).unwrap();
    assert_eq!(y, [1, 1, 1, 3, 3]);
}

#[test]
fn iirfilt_differentiator_and_normalization() {
    // H(z) = (2 - 2 z^-1) / 2
    let mut q = IirFilter::<i64, i64>::new(&[2, -2], &[2]).unwrap();
    let (b, a) = q.get_coeffs();
    assert_eq!(b, vec![1, -1]);
    assert_eq!(a, vec![1]);
    assert_eq!(q.execute(5), 5);
    assert_eq!(q.execute(7), 2);
    assert_eq!(q.execute(7), 0);
}

#[test]
fn iirfilt_config_errors() {
    assert!(IirFilter::<i64, i64>::new(&[], &[1]).is_err());
    assert!(IirFilter::<i64, i64>::new(&[1], &[]).is_err());
    assert!(IirFilter::<i64, i64>::new_sos(&[], &[], 0).is_err());
    let mut q = IirFilter::<i64, i64>::new(&[1, 2], &[1, 0]).unwrap();
    assert!(q.set_coefficients(&[1], &[1, 0]).is_err());
    let mut y = [0i64; 1];
    assert!(q.execute_block(&[1, 2], &mut y).is_err());
    assert_eq!(y, [0]);
}

#[test]
fn iirfilt_sos_cascade_matches_product() {
    // two sections: (1 + z^-1) and (1 - z^-1) give 1 - z^-2
    let b = [1i64, 1, 0, 1, -1, 0];
    let a = [1i64, 0, 0, 1, 0, 0];
    let mut q = IirFilter::<i64, i64>::new_sos(&b, &a, 2).unwrap();
    assert_eq!(q.get_length(), 4);
    let x = [1i64, 0, 0, 0];
    let mut y = [0i64; 4];
    q.execute_block(&x, &mut y).unwrap();
    assert_eq!(y, [1, 0, -1, 0]);
    q.reset();
    assert_eq!(q.execute(3), 3);
}

#[test]
fn iirfilt_scale_and_reset() {
    let mut q = IirFilter::<i64, i64>::new(&[1], &[1, -1]).unwrap();
    assert_eq!(q.get_scale(), 1);
    q.set_scale(2);
    assert_eq!(q.get_scale(), 2);
    assert_eq!(q.execute(1), 2);
    assert_eq!(q.execute(1), 4);
    q.reset();
    assert_eq!(q.execute(1), 2);
    q.set_coefficients(&[3], &[1, 0]).unwrap();
    assert_eq!(q.execute(1), 6);
}
