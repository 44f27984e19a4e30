use dsp_filter::fir::firinterp::FirInterpolationFilter;

#[test]
fn firinterp_impulse_response_is_prototype() {
    // interpolation by 3 with a prototype of 6 coefficients
    let h = [1i64, 2, 3, 4, 5, 6];
    let mut q = FirInterpolationFilter::<i64, i64>::new(3, &h, 6).unwrap();
    assert_eq!(q.get_interp_rate(), 3);
    assert_eq!(q.get_sub_len(), 2);
    let mut y = [0i64; 6];
    q.execute_block(&[1, 0], &mut y).unwrap();
    assert_eq!(y, [1, 2, 3, 4, 5, 6]);
}

#[test]
fn firinterp_pads_prototype() {
    // 5 coefficients for interp 2 are padded to 6 with a zero
    let mut q = FirInterpolationFilter::<i64, i64>::new(2, &[1, 2, 3, 4, 5], 5).unwrap();
    assert_eq!(q.get_sub_len(), 3);
    let mut y = [0i64; 2];
    q.execute(1, &mut y).unwrap();
    assert_eq!(y, [1, 2]);
    q.execute(0, &mut y).unwrap();
    assert_eq!(y, [3, 4]);
    q.flush(&mut y).unwrap();
    assert_eq!(y, [5, 0]);
    q.flush(&mut y).unwrap();
    assert_eq!(y, [0, 0]);
}

#[test]
fn firinterp_config_scale_reset() {
    assert!(FirInterpolationFilter::<i64, i64>::new(1, &[1, 2, 3], 3).is_err());
    assert!(FirInterpolationFilter::<i64, i64>::new(4, &[1, 2, 3], 3).is_err());
    let mut q = FirInterpolationFilter::<i64, i64>::new(2, &[1, 1, 1, 1], 4).unwrap();
    assert_eq!(q.get_scale(), 1);
    q.set_scale(5);
    assert_eq!(q.get_scale(), 5);
    let mut y = [0i64; 2];
    q.execute(2, &mut y).unwrap();
    assert_eq!(y, [10, 10]);
    q.reset();
    q.execute(0, &mut y).unwrap();
    assert_eq!(y, [0, 0]);
}

#[test]
fn firinterp_pads_prototype_with_zeros() {
    // 3 coefficients for interpolation by 2: the prototype is padded with one zero
    let mut q = FirInterpolationFilter::<i64, i64>::new(2, &[1, 2, 3], 3).unwrap();
    assert_eq!(q.get_sub_len(), 2);
    let mut y = [0i64; 4];
    q.execute_block(&[1, 0], &mut y).unwrap();
    assert_eq!(y, [1, 2, 3, 0]);
}

#[test]
fn firinterp_flushes_clear_integer() {
    let mut q = FirInterpolationFilter::<i64, i64>::new(2, &[1, 2, 3, 4, 5, 6], 6).unwrap();
    let mut y = [0i64; 2];
    for x in [3, -1, 4, 1] {
        q.execute(x, &mut y).unwrap();
    }
    assert_ne!(y, [0, 0]);
    for _ in 0..q.get_sub_len() {
        q.flush(&mut y).unwrap();
    }
    assert_eq!(y, [0, 0]);
}
