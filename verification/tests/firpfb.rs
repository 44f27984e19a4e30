use dsp_filter::fir::firpfb::{FirPfbBank, FirPfbFilter};

#[test]
fn test_firpfb_bank_invalid_phase() {
    let bank = FirPfbBank::<f32, f32>::new(2, &[1.0, 2.0, 3.0, 4.0], 4).unwrap();
    assert!(bank.execute(2, &[0.0, 0.0]).is_err());
}

#[test]
fn firpfb_bank_phases_integer() {
    // two phases of length two: phase i takes h[i], h[i + 2]
    let bank = FirPfbBank::<i64, i64>::new(2, &[1, 2, 3, 4], 4).unwrap();
    assert_eq!(bank.num_filters(), 2);
    assert_eq!(bank.filter_len(), 2);
    let p0 = bank.execute(0, &[10, 100]).unwrap();
    let p1 = bank.execute(1, &[10, 100]).unwrap();
    // the history is oldest first; the newest sample meets the first coefficient
    assert_eq!(p0, 1 * 100 + 3 * 10);
    assert_eq!(p1, 2 * 100 + 4 * 10);
}

#[test]
fn firpfb_filter_matches_bank() {
    let bank = FirPfbBank::<i64, i64>::new(3, &[1, -1, 2, 5, 0, 3], 6).unwrap();
    let mut filter = FirPfbFilter::from_bank(bank.clone()).unwrap();
    let mut history = vec![0i64; 2];
    for x in [3i64, -7, 4, 9, 1] {
        filter.push(x);
        history.remove(0);
        history.push(x);
        for phase in 0..3 {
            assert_eq!(filter.execute(phase).unwrap(), bank.execute(phase, &history).unwrap());
        }
    }
    assert!(filter.execute(3).is_err());
}

#[test]
fn firpfb_block_and_invalid_phase() {
    let mut f = FirPfbFilter::<i64, i64>::new(2, &[1, 2, 3, 4], 4).unwrap();
    let mut y = [0i64; 3];
    // an empty block succeeds whatever the phase
    assert!(f.execute_block(2, &[], &mut y).is_ok());
    // an invalid phase fails after the first sample was pushed; y is untouched
    assert!(f.execute_block(2, &[1, 1, 1], &mut y).is_err());
    assert_eq!(y, [0, 0, 0]);
    assert_eq!(f.execute(1).unwrap(), 2);
    f.reset();
    f.execute_block(1, &[1, 0, 0], &mut y).unwrap();
    // phase 1 is h[1], h[3]: impulse response 2, 4, 0
    assert_eq!(y, [2, 4, 0]);
    f.reset();
    assert_eq!(f.execute(0).unwrap(), 0);
}

#[test]
fn firpfb_set_coefficients_and_scale() {
    let mut bank = FirPfbBank::<i64, i64>::new(2, &[1, 2, 3, 4], 4).unwrap();
    assert!(bank.set_coefficients(&[1, 2]).is_err());
    bank.set_coefficients(&[5, 6, 7, 8]).unwrap();
    assert_eq!(bank.get_scale(), 1);
    bank.set_scale(2);
    assert_eq!(bank.get_scale(), 2);
    assert_eq!(bank.execute(0, &[0, 1]).unwrap(), 2 * 5);
    assert_eq!(bank.execute(1, &[1, 0]).unwrap(), 2 * 8);
    assert!(FirPfbBank::<i64, i64>::new(0, &[1, 2], 2).is_err());
    assert!(FirPfbBank::<i64, i64>::new(3, &[1, 2], 2).is_err());
}
