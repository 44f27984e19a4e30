use dsp_filter::resampler::resamp2::Resamp2;

fn prototype() -> [i64; 9] {
    // odd taps 10, 20, 30, 40; the center tap is carried by the delay branch
    [0, 10, 0, 20, 99, 30, 0, 40, 0]
}

#[test]
fn resamp2_config() {
    assert!(Resamp2::<i64, i64>::from_prototype(1, &[0, 1, 2, 3, 4], 0).is_err());
    assert!(Resamp2::<i64, i64>::from_prototype(2, &[0; 8], 0).is_err());
    let q = Resamp2::<i64, i64>::from_prototype(2, &prototype(), 0).unwrap();
    assert_eq!(q.get_delay(), 3);
    assert_eq!(q.get_scale(), 1);
}

#[test]
fn resamp2_decim_impulse() {
    let mut q = Resamp2::<i64, i64>::from_prototype(2, &prototype(), 0).unwrap();
    let mut y = [0i64; 4];
    assert_eq!(q.decim_execute_block(&[1, 0, 0, 0, 0, 0, 0, 0], &mut y).unwrap(), 4);
    assert_eq!(y, [10, 20, 30, 40]);
    q.reset();
    let mut y = [0i64; 3];
    q.decim_execute_block(&[0, 1, 0, 0, 0, 0], &mut y).unwrap();
    assert_eq!(y, [0, 0, 1]);
}

#[test]
fn resamp2_interp_impulse() {
    let mut q = Resamp2::<i64, i64>::from_prototype(2, &prototype(), 0).unwrap();
    let mut y = [0i64; 8];
    assert_eq!(q.interp_execute_block(&[1, 0, 0, 0], &mut y).unwrap(), 8);
    assert_eq!(y, [0, 10, 0, 20, 1, 30, 0, 40]);
}

#[test]
fn resamp2_block_matches_single_steps() {
    let x = [3i64, -1, 4, 1, -5, 9, 2, -6, 5, 3];
    let mut a = Resamp2::<i64, i64>::from_prototype(2, &prototype(), 0).unwrap();
    let mut b = a.clone();
    let mut y = [0i64; 5];
    a.decim_execute_block(&x, &mut y).unwrap();
    for k in 0..5 {
        assert_eq!(b.decim_execute(&x[2 * k..2 * k + 2]).unwrap(), y[k]);
    }
    let mut c = Resamp2::<i64, i64>::from_prototype(2, &prototype(), 0).unwrap();
    let mut d = c.clone();
    let mut z = [0i64; 20];
    c.interp_execute_block(&x, &mut z).unwrap();
    let mut pair = [0i64; 2];
    for k in 0..10 {
        d.interp_execute(x[k], &mut pair).unwrap();
        assert_eq!(pair, [z[2 * k], z[2 * k + 1]]);
    }
}

#[test]
fn resamp2_block_rejects_short_output_without_advancing() {
    let mut q = Resamp2::<i64, i64>::from_prototype(2, &prototype(), 0).unwrap();
    let mut short = [7i64; 1];
    assert!(q.decim_execute_block(&[1, 0, 0, 0], &mut short).is_err());
    assert!(q.interp_execute_block(&[1], &mut short).is_err());
    assert_eq!(short, [7]);
    // the state did not advance: the impulse response starts from the beginning
    let mut y = [0i64; 4];
    q.decim_execute_block(&[1, 0, 0, 0, 0, 0, 0, 0], &mut y).unwrap();
    assert_eq!(y, [10, 20, 30, 40]);
}

#[test]
fn resamp2_scale() {
    let mut q = Resamp2::<i64, i64>::from_prototype(2, &prototype(), 0).unwrap();
    q.set_scale(2);
    assert_eq!(q.get_scale(), 2);
    let mut y = [0i64; 2];
    q.decim_execute_block(&[1, 0, 0, 0], &mut y).unwrap();
    assert_eq!(y, [20, 40]);
}

#[test]
fn resamp2_filter_analysis_synthesis_f32_blocks() {
    let h: Vec<f32> = (0..9).map(|i| if i == 4 { 1.0 } else if i % 2 == 1 { 0.1 * i as f32 } else { 0.0 }).collect();
    let x: Vec<f32> = (0..12).map(|i| ((i * 7) % 5) as f32 - 2.0).collect();
    let mut a = Resamp2::<f32, f32>::from_prototype(2, &h, 0.5).unwrap();
    let mut b = a.clone();
    let mut y = vec![0.0f32; 24];
    assert_eq!(a.filter_execute_block(&x, &mut y).unwrap(), 24);
    for k in 0..12 {
        let (y0, y1) = b.filter_execute(x[k]).unwrap();
        assert_eq!((y0, y1), (y[2 * k], y[2 * k + 1]));
    }
    let mut an = Resamp2::<f32, f32>::from_prototype(2, &h, 0.5).unwrap();
    let mut an2 = an.clone();
    let mut z = vec![0.0f32; 12];
    an.analyzer_execute_block(&x, &mut z).unwrap();
    let mut pair = [0.0f32; 2];
    for k in 0..6 {
        an2.analyzer_execute(&x[2 * k..2 * k + 2], &mut pair).unwrap();
        assert_eq!(pair, [z[2 * k], z[2 * k + 1]]);
    }
    let mut sy = Resamp2::<f32, f32>::from_prototype(2, &h, 0.5).unwrap();
    let mut sy2 = sy.clone();
    let mut w = vec![0.0f32; 12];
    sy.synthesizer_execute_block(&z, &mut w).unwrap();
    for k in 0..6 {
        sy2.synthesizer_execute(&z[2 * k..2 * k + 2], &mut pair).unwrap();
        assert_eq!(pair, [w[2 * k], w[2 * k + 1]]);
    }
}
