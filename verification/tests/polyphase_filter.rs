use dsp_filter::fir::polyphase_filter::FirPolyphaseFilter;

#[test]
fn polyphase_phases_of_prototype() {
    // three phases of length two from h = [1, 2, 3, 4, 5, 6]: phase i is h[i], h[i + 3]
    let mut q = FirPolyphaseFilter::<i64, i64>::new(3, &[1, 2, 3, 4, 5, 6]).unwrap();
    assert_eq!(q.num_filters(), 3);
    assert_eq!(q.filter_len(), 2);
    q.push(1);
    assert_eq!(q.execute(0).unwrap(), 1);
    assert_eq!(q.execute(1).unwrap(), 2);
    assert_eq!(q.execute(2).unwrap(), 3);
    q.push(0);
    assert_eq!(q.execute(0).unwrap(), 4);
    assert_eq!(q.execute(1).unwrap(), 5);
    assert_eq!(q.execute(2).unwrap(), 6);
    assert!(q.execute(3).is_err());
}

#[test]
fn polyphase_block_write_and_errors() {
    assert!(FirPolyphaseFilter::<i64, i64>::new(0, &[1, 2]).is_err());
    assert!(FirPolyphaseFilter::<i64, i64>::new(4, &[1, 2, 3]).is_err());
    let mut q = FirPolyphaseFilter::<i64, i64>::new(2, &[1, 10, 2, 20]).unwrap();
    let mut y = [0i64; 3];
    q.execute_block(1, &[1, 1, 1], &mut y).unwrap();
    assert_eq!(y, [10, 30, 30]);
    q.reset();
    q.write(&[3, 4]);
    assert_eq!(q.execute(0).unwrap(), 4 * 1 + 3 * 2);
    q.set_scale(-1);
    assert_eq!(q.scale(), -1);
    assert_eq!(q.execute(0).unwrap(), -10);
    assert!(q.set_coefficients(&[1, 2]).is_err());
    q.set_coefficients(&[0, 1, 0, 1]).unwrap();
    assert_eq!(q.execute(1).unwrap(), -(4 + 3));
}
