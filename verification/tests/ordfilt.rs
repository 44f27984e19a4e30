use dsp_filter::ordfilt::OrderStatisticFilter;

/// Deterministic pseudo-random samples in [-1, 1).
struct Lcg(u64);

impl Lcg {
    fn next_f32(&mut self) -> f32 {
        self.0 = self.0.wrapping_mul(6364136223846793005).wrapping_add(1442695040888963407);
        ((self.0 >> 40) as f32) / ((1u64 << 23) as f32) - 1.0
    }
}

#[test]
fn test_ordfilt_copy() {
    let mut rng = Lcg(12345);
    // create base object
    let mut q0 = OrderStatisticFilter::<f32>::new(17, 5).unwrap();

    // run samples through filter
    for _ in 0..20 {
        let v = rng.next_f32();
        let _ = q0.execute_one(v).unwrap();
    }

    // copy object
    let mut q1 = q0.clone();

    // run samples through both filters in parallel
    for _ in 0..60 {
        let v = rng.next_f32();
        let y0 = q0.execute_one(v).unwrap();
        let y1 = q1.execute_one(v).unwrap();
        assert_eq!(y0, y1);
    }
}

#[test]
fn ordfilt_rank_statistics() {
    let mut q = OrderStatisticFilter::<i32>::new(5, 0).unwrap();
    q.write(&[7, -3, 12, 5, 0]);
    assert_eq!(q.execute().unwrap(), -3);
    let mut m = OrderStatisticFilter::<i32>::new_medfilt(2).unwrap();
    m.write(&[7, -3, 12, 5, 0]);
    assert_eq!(m.execute().unwrap(), 5);
    let mut top = OrderStatisticFilter::<i32>::new(5, 4).unwrap();
    top.write(&[7, -3, 12, 5, 0]);
    assert_eq!(top.execute().unwrap(), 12);
}

#[test]
fn ordfilt_median_block() {
    let mut q = OrderStatisticFilter::<i64>::new_medfilt(1).unwrap();
    let x = [5i64, 1, 9, 3, 3, 8];
    let mut y = [0i64; 6];
    q.execute_block(&x, &mut y).unwrap();
    // windows: [0,0,5] [0,5,1] [5,1,9] [1,9,3] [9,3,3] [3,3,8]
    assert_eq!(y, [0, 1, 5, 3, 3, 3]);
}

#[test]
fn ordfilt_block_shorter_output() {
    let mut q = OrderStatisticFilter::<i64>::new(2, 1).unwrap();
    let mut y = [-1i64; 2];
    q.execute_block(&[4, 2, 8], &mut y).unwrap();
    assert_eq!(y, [4, 4]);
    // only two samples were taken: the window holds [4, 2]
    assert_eq!(q.execute().unwrap(), 4);
}

#[test]
fn ordfilt_config_errors() {
    assert!(OrderStatisticFilter::<i32>::new(0, 0).is_err());
    assert!(OrderStatisticFilter::<i32>::new(4, 4).is_err());
    assert!(OrderStatisticFilter::<i32>::new(4, 3).is_ok());
    assert!(OrderStatisticFilter::<i32>::new_medfilt(usize::MAX / 2 + 1).is_err());
}

#[test]
fn ordfilt_reset_clears() {
    let mut q = OrderStatisticFilter::<i32>::new(3, 2).unwrap();
    q.write(&[4, 6, 8]);
    assert_eq!(q.execute().unwrap(), 8);
    q.reset();
    assert_eq!(q.execute().unwrap(), 0);
    assert_eq!(q.execute_one(-5).unwrap(), 0);
}
