use dsp_filter::iir::iirinterp;
use dsp_filter::iir::interpolation;

#[test]
fn iirinterp_integrator() {
    let mut q = iirinterp::IirInterpolationFilter::<i64, i64>::new(2, &[1], &[1, -1]).unwrap();
    let mut y = [0i64; 2];
    q.execute(1, &mut y).unwrap();
    assert_eq!(y, [1, 1]);
    q.execute(2, &mut y).unwrap();
    assert_eq!(y, [3, 3]);
    let mut short = [0i64; 3];
    assert!(q.execute(1, &mut short).is_err());
    assert_eq!(short, [0, 0, 0]);
}

#[test]
fn iirinterp_block_matches_single() {
    let b = [1i64, 2, 1];
    let a = [1i64, -1];
    let mut q0 = iirinterp::IirInterpolationFilter::<i64, i64>::new(3, &b, &a).unwrap();
    let mut q1 = q0.clone();
    let x = [2i64, -1, 0, 5];
    let mut y = [0i64; 12];
    q0.execute_block(&x, &mut y).unwrap();
    let mut g = [0i64; 3];
    for k in 0..4 {
        q1.execute(x[k], &mut g).unwrap();
        assert_eq!(g, [y[3 * k], y[3 * k + 1], y[3 * k + 2]]);
    }
    let mut wrong = [0i64; 11];
    assert!(q0.execute_block(&x, &mut wrong).is_err());
}

#[test]
fn iirinterp_config_and_reset() {
    assert!(iirinterp::IirInterpolationFilter::<i64, i64>::new(1, &[1], &[1]).is_err());
    assert!(iirinterp::IirInterpolationFilter::<i64, i64>::new(2, &[], &[1]).is_err());
    let mut q = iirinterp::IirInterpolationFilter::<i64, i64>::new(2, &[1], &[1, -1]).unwrap();
    let mut y = [0i64; 2];
    q.execute(5, &mut y).unwrap();
    q.reset();
    q.execute(1, &mut y).unwrap();
    assert_eq!(y, [1, 1]);
}

#[test]
fn interpolation_matches_iirinterp() {
    let b = [1i64, -1];
    let a = [2i64, 0];
    assert!(interpolation::IirInterpolationFilter::<i64, i64>::new(1, &b, &a).is_err());
    let mut p = interpolation::IirInterpolationFilter::<i64, i64>::new(2, &[2, -2], &[2]).unwrap();
    let mut q = iirinterp::IirInterpolationFilter::<i64, i64>::new(2, &[2, -2], &[2]).unwrap();
    let x = [4i64, 1, -3];
    let mut yp = [0i64; 6];
    let mut yq = [0i64; 6];
    p.execute_block(&x, &mut yp).unwrap();
    q.execute_block(&x, &mut yq).unwrap();
    assert_eq!(yp, yq);
    // differentiator on the stream 4, 0, 1, 0, -3, 0
    assert_eq!(yp, [4, -4, 1, -1, -3, 3]);
    let mut pair = [0i64; 2];
    p.reset();
    p.execute(7, &mut pair).unwrap();
    assert_eq!(pair, [7, -7]);
    assert!(p.execute(7, &mut yp).is_err());
}
