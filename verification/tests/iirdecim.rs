use dsp_filter::iir::iirdecim::IirDecimationFilter;

#[test]
fn iirdecim_integrator() {
    let mut q = IirDecimationFilter::<i64, i64>::new(2, &[1], &[1, -1]).unwrap();
    assert_eq!(q.execute(&[1, 2]), 1);
    assert_eq!(q.execute(&[3, 4]), 6);
    let mut y = [0i64; 3];
    q.reset();
    q.execute_block(&[1, 2, 3, 4, 5], &mut y);
    // running sums 1, 3, 6, 10, 15; the first of each group of two is kept
    assert_eq!(y, [1, 6, 15]);
}

#[test]
fn iirdecim_config() {
    assert!(IirDecimationFilter::<i64, i64>::new(1, &[1], &[1]).is_err());
    assert!(IirDecimationFilter::<i64, i64>::new(2, &[], &[1]).is_err());
    assert!(IirDecimationFilter::<i64, i64>::new(2, &[1], &[]).is_err());
}

#[test]
fn iirdecim_copy() {
    let mut q0 = IirDecimationFilter::<i64, i64>::new(3, &[1, 2], &[1, -1]).unwrap();
    for k in 0..20i64 {
        let _ = q0.execute(&[k % 5 - 2, 1, -1]);
    }
    let mut q1 = q0.clone();
    for k in 0..60i64 {
        let x = [k % 7 - 3, k % 3, 2];
        assert_eq!(q0.execute(&x), q1.execute(&x));
    }
}

#[test]
fn iirdecim_empty_input_gives_zero() {
    let mut q = IirDecimationFilter::<i64, i64>::new(2, &[1], &[1, -1]).unwrap();
    assert_eq!(q.execute(&[]), 0);
}
