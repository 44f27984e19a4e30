use dsp_filter::resampler::msresamp2::{MsResamp2, ResampType};
use dsp_filter::resampler::resamp2::Resamp2;

fn stage() -> Resamp2<i64, i64> {
    Resamp2::<i64, i64>::from_prototype(2, &[0, 1, 0, 2, 9, 3, 0, 4, 0], 0).unwrap()
}

#[test]
fn msresamp2_interp_two_stages_matches_chained_halfbands() {
    let mut q = MsResamp2::from_stages(ResampType::Interp, vec![stage(), stage()], 1).unwrap();
    assert_eq!(q.get_num_stages(), 2);
    assert_eq!(q.get_type(), ResampType::Interp);
    let mut s0 = stage();
    let mut s1 = stage();
    let x = [3i64, -1, 4, 1, -5];
    for &v in x.iter() {
        let mut y = [0i64; 4];
        q.execute(&[v], &mut y).unwrap();
        let mut mid = [0i64; 2];
        s0.interp_execute(v, &mut mid).unwrap();
        let mut expect = [0i64; 4];
        s1.interp_execute_block(&mid, &mut expect).unwrap();
        assert_eq!(y, expect);
    }
}

#[test]
fn msresamp2_decim_two_stages_matches_chained_halfbands() {
    let mut q = MsResamp2::from_stages(ResampType::Decim, vec![stage(), stage()], 3).unwrap();
    let mut s0 = stage();
    let mut s1 = stage();
    let x: Vec<i64> = (0..16).map(|i| (i * 7 % 11) - 5).collect();
    for g in 0..4 {
        let mut y = [0i64; 1];
        q.execute(&x[4 * g..4 * g + 4], &mut y).unwrap();
        // the last stage runs first, at the high rate
        let mut mid = [0i64; 2];
        s1.decim_execute_block(&x[4 * g..4 * g + 4], &mut mid).unwrap();
        let v = s0.decim_execute(&mid).unwrap();
        assert_eq!(y[0], 3 * v);
    }
}

#[test]
fn msresamp2_block_matches_single() {
    for &kind in &[ResampType::Interp, ResampType::Decim] {
        for num_stages in 0..4usize {
            let stages: Vec<Resamp2<i64, i64>> = (0..num_stages).map(|_| stage()).collect();
            let mut a = MsResamp2::from_stages(kind, stages.clone(), 1).unwrap();
            let mut b = MsResamp2::from_stages(kind, stages, 1).unwrap();
            let rate = 1usize << num_stages;
            let blocks = 5;
            let n_in = if kind == ResampType::Interp { blocks } else { blocks * rate };
            let n_out = if kind == ResampType::Interp { blocks * rate } else { blocks };
            let x: Vec<i64> = (0..n_in as i64).map(|i| (i * 5 % 9) - 4).collect();
            let mut y_block = vec![0i64; n_out];
            assert_eq!(a.execute_block(&x, &mut y_block).unwrap(), n_out);
            let mut y_single = vec![0i64; n_out];
            for i in 0..blocks {
                if kind == ResampType::Interp {
                    b.execute(&x[i..i + 1], &mut y_single[i * rate..(i + 1) * rate]).unwrap();
                } else {
                    b.execute(&x[i * rate..(i + 1) * rate], &mut y_single[i..i + 1]).unwrap();
                }
            }
            assert_eq!(y_block, y_single);
        }
    }
}

#[test]
fn msresamp2_block_errors_leave_state() {
    let mut q = MsResamp2::from_stages(ResampType::Decim, vec![stage(), stage(), stage()], 1).unwrap();
    let mut r = q.clone();
    let mut out = [5i64; 2];
    // partial group of 8
    assert!(q.execute_block(&[1i64; 9], &mut out).is_err());
    // output too short for 3 outputs
    assert!(q.execute_block(&[1i64; 24], &mut out).is_err());
    assert_eq!(out, [5, 5]);
    let x: Vec<i64> = (0..16).collect();
    let mut y0 = [0i64; 2];
    let mut y1 = [0i64; 2];
    q.execute_block(&x, &mut y0).unwrap();
    r.execute_block(&x, &mut y1).unwrap();
    assert_eq!(y0, y1);
    let mut p = MsResamp2::from_stages(ResampType::Interp, vec![stage()], 1).unwrap();
    let mut short = [0i64; 3];
    assert!(p.execute_block(&[1, 2], &mut short).is_err());
}

#[test]
fn msresamp2_config_and_reset() {
    let stages: Vec<Resamp2<i64, i64>> = (0..17).map(|_| stage()).collect();
    assert!(MsResamp2::from_stages(ResampType::Interp, stages, 1).is_err());
    let mut q = MsResamp2::from_stages(ResampType::Interp, vec![stage()], 1).unwrap();
    let mut y = [0i64; 2];
    q.execute(&[7], &mut y).unwrap();
    q.reset();
    let mut fresh = MsResamp2::from_stages(ResampType::Interp, vec![stage()], 1).unwrap();
    let mut z = [0i64; 2];
    q.execute(&[1], &mut y).unwrap();
    fresh.execute(&[1], &mut z).unwrap();
    assert_eq!(y, z);
    assert_eq!(q.stage(0).get_delay(), 3);
    q.reserve_decim_block(64);
}

#[test]
fn msresamp2_no_stages_copies() {
    let mut q = MsResamp2::<i64, i64>::from_stages(ResampType::Decim, Vec::new(), 1).unwrap();
    let mut y = [0i64; 3];
    assert_eq!(q.execute_block(&[4, 5, 6], &mut y).unwrap(), 3);
    assert_eq!(y, [4, 5, 6]);
    let mut one = [0i64; 1];
    q.execute(&[9], &mut one).unwrap();
    assert_eq!(one, [9]);
}
