use dsp_filter::iir::iirfiltsos::IirFilterSos;

#[test]
fn test_iirfiltsos_config() {
    // an object can only be created valid, so there is no invalid object to copy
}

#[test]
fn iirfiltsos_integer_impulse_df1_df2() {
    // H(z) = (1 + 2 z^-1 + 1 z^-2) / (1 - 1 z^-1): a running sum of the FIR part
    let b = [1i64, 2, 1];
    let a = [1i64, -1, 0];
    let mut q1 = IirFilterSos::<i64, i64>::new(&b, &a).unwrap();
    let mut q2 = q1.clone();
    let x = [1i64, 0, 0, 0, 0];
    let expected = [1i64, 3, 4, 4, 4];
    for k in 0..5 {
        assert_eq!(q1.execute_df1(x[k]), expected[k]);
        assert_eq!(q2.execute_df2(x[k]), expected[k]);
    }
    q1.reset();
    assert_eq!(q1.execute(1), 1);
}

#[test]
fn iirfiltsos_normalizes_by_a0() {
    let b = [4i64, 8, 4];
    let a = [2i64, 0, 0];
    let mut q = IirFilterSos::<i64, i64>::new(&b, &a).unwrap();
    assert_eq!(q.execute(1), 2);
    assert_eq!(q.execute(0), 4);
    assert_eq!(q.execute(0), 2);
    assert_eq!(q.execute(0), 0);
}
