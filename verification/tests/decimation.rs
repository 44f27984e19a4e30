use dsp_filter::fir::decimation::FirDecimationFilter;
use dsp_filter::fir::firfilt::FirFilter;

#[test]
fn firdecim_block_matches_filter_every_mth_output() {
    let h = [1i64, 2, 3];
    let x = [4i64, -1, 2, 7, 0, 3, 5, 1];
    let mut f = FirFilter::<i64, i64>::new(&h).unwrap();
    let mut full = [0i64; 8];
    f.execute_block(&x, &mut full).unwrap();
    let mut d = FirDecimationFilter::<i64, i64>::new(2, &h).unwrap();
    let mut y = [0i64; 4];
    assert_eq!(d.execute_block(&x, 4, &mut y).unwrap(), 4);
    assert_eq!(y, [full[0], full[2], full[4], full[6]]);
}

#[test]
fn firdecim_execute_matches_block() {
    let h = [2i64, -1, 1, 3];
    let x = [1i64, 5, -2, 4, 3, 3, 0, -6, 2];
    let mut a = FirDecimationFilter::<i64, i64>::new(3, &h).unwrap();
    let mut b = FirDecimationFilter::<i64, i64>::new(3, &h).unwrap();
    let mut y = [0i64; 3];
    b.execute_block(&x, 3, &mut y).unwrap();
    for g in 0..3 {
        assert_eq!(a.execute(&x[3 * g..3 * g + 3]).unwrap(), y[g]);
    }
}

#[test]
fn firdecim_config_errors() {
    assert!(FirDecimationFilter::<i64, i64>::new(0, &[1, 2]).is_err());
    assert!(FirDecimationFilter::<i64, i64>::new(2, &[]).is_err());
    let mut d = FirDecimationFilter::<i64, i64>::new(2, &[1, 1]).unwrap();
    assert_eq!(d.decim_rate(), 2);
    let mut y = [9i64; 2];
    // input too short for two groups
    assert!(d.execute_block(&[1, 2, 3], 2, &mut y).is_err());
    // output too short
    assert!(d.execute_block(&[1, 2, 3, 4], 2, &mut y[..1]).is_err());
    assert_eq!(y, [9, 9]);
    // n * decim overflows
    assert!(d.execute_block(&[1, 2], usize::MAX, &mut y).is_err());
}

#[test]
fn firdecim_scale_and_reset() {
    let mut d = FirDecimationFilter::<i64, i64>::new(2, &[1, 1]).unwrap();
    assert_eq!(d.scale(), 1);
    d.set_scale(10);
    assert_eq!(d.scale(), 10);
    assert_eq!(d.execute(&[3, 4]).unwrap(), 30);
    assert_eq!(d.execute(&[5, 6]).unwrap(), 90);
    d.reset();
    assert_eq!(d.execute(&[1, 0]).unwrap(), 10);
}
