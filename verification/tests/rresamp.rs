use dsp_filter::resampler::rresamp::{RationalResampler, reduced_rate};

#[test]
fn rresamp_interp_by_two_impulse() {
    let mut q = RationalResampler::<i64, i64>::new(2, 1, &[1, 2, 3, 4]).unwrap();
    assert_eq!(q.p(), 2);
    assert_eq!(q.q(), 1);
    let mut y = [0i64; 4];
    q.execute_block(&[1, 0], 2, &mut y).unwrap();
    assert_eq!(y, [1, 2, 3, 4]);
}

#[test]
fn rresamp_decim_by_two() {
    let mut q = RationalResampler::<i64, i64>::new(1, 2, &[1, 1]).unwrap();
    let mut y = [0i64; 2];
    q.execute_block(&[1, 2, 3, 4], 2, &mut y).unwrap();
    assert_eq!(y, [1, 5]);
    q.reset();
    let mut one = [0i64; 1];
    q.execute(&[10, 20], &mut one).unwrap();
    assert_eq!(one, [10]);
}

#[test]
fn rresamp_config_errors() {
    assert!(RationalResampler::<i64, i64>::new(0, 1, &[1, 2]).is_err());
    assert!(RationalResampler::<i64, i64>::new(1, 0, &[1, 2]).is_err());
    assert!(RationalResampler::<i64, i64>::new(3, 1, &[1, 2]).is_err());
    assert!(RationalResampler::<i64, i64>::with_block_len(2, 1, 0, &[1, 2]).is_err());
    assert!(RationalResampler::<i64, i64>::with_block_len(2, 1, usize::MAX, &[1, 2]).is_err());
}

fn check_num_output(interp: usize, decim: usize) {
    let coefficients: Vec<i64> = (0..(4 * interp) as i64).collect();
    let mut resamp = RationalResampler::<i64, i64>::new(interp, decim, &coefficients).unwrap();
    let q = resamp.q();
    let p = resamp.p();
    let max_blocks = 20;
    let buf_in = vec![0i64; max_blocks * q];
    let mut buf_out = vec![0i64; max_blocks * p];
    for num_blocks in 1..=max_blocks {
        let num_input = num_blocks * q;
        let expected_output = num_blocks * p;
        assert_eq!(resamp.num_output(num_input), expected_output);
        resamp.execute_block(&buf_in[..num_input], num_blocks, &mut buf_out[..expected_output]).unwrap();
    }
}

fn check_max_input(interp: usize, decim: usize) {
    let coefficients: Vec<i64> = (0..(4 * interp) as i64).collect();
    let resamp = RationalResampler::<i64, i64>::new(interp, decim, &coefficients).unwrap();
    let q = resamp.q();
    for output_limit in [1, 2, 5, 10, 20, 50, 100] {
        let max_input = resamp.max_input(output_limit);
        assert!(resamp.num_output(max_input) <= output_limit);
        assert!(resamp.num_output(max_input + q) > output_limit);
    }
}

#[test]
fn rresamp_num_output_blocks() {
    check_num_output(1, 5);
    check_num_output(3, 5);
    check_num_output(5, 3);
    check_num_output(8, 5);
}

#[test]
fn rresamp_max_input_tight() {
    check_max_input(1, 5);
    check_max_input(3, 5);
    check_max_input(5, 3);
    check_max_input(8, 5);
}

#[test]
fn rresamp_block_len_and_scale() {
    let mut q = RationalResampler::<i64, i64>::with_block_len(2, 3, 4, &[1, 1, 1, 1]).unwrap();
    assert_eq!(q.block_len(), 4);
    assert_eq!(q.p(), 8);
    assert_eq!(q.q(), 12);
    assert_eq!(q.interp(), 2);
    assert_eq!(q.decim(), 3);
    assert_eq!(q.num_output(25), 16);
    assert_eq!(q.max_input(17), 24);
    q.set_scale(3);
    assert_eq!(q.scale(), 3);
    q.write(&[1, 1]);
    let input = [0i64; 12];
    let mut out = [0i64; 8];
    q.execute(&input, &mut out).unwrap();
    // the first output sees history [1, 0]: phase 0 (h[0], h[2]) gives 1, times 3
    assert_eq!(out[0], 3);
}

#[test]
fn rresamp_reduced_rate() {
    assert_eq!(reduced_rate(6, 4).unwrap(), (3, 2, 2));
    assert_eq!(reduced_rate(5, 3).unwrap(), (5, 3, 1));
    assert_eq!(reduced_rate(12, 12).unwrap(), (1, 1, 12));
    assert!(reduced_rate(0, 3).is_err());
    assert!(reduced_rate(3, 0).is_err());
}

#[test]
fn rresamp_execute_block_with_block_len_two() {
    // each execute consumes q() = 4 inputs and writes p() = 2 outputs
    let mut a = RationalResampler::<i64, i64>::with_block_len(1, 2, 2, &[1, 2]).unwrap();
    let mut b = a.clone();
    let x: Vec<i64> = (1..=8).collect();
    let mut y = [0i64; 4];
    a.execute_block(&x, 2, &mut y).unwrap();
    let mut z = [0i64; 4];
    b.execute(&x[0..4], &mut z[0..2]).unwrap();
    b.execute(&x[4..8], &mut z[2..4]).unwrap();
    assert_eq!(y, z);
    // output t comes right after input 2t entered: h[0] x[2t] + h[1] x[2t-1]
    assert_eq!(y, [1, 3 + 2 * 2, 5 + 2 * 4, 7 + 2 * 6]);
}
