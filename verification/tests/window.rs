use dsp_filter::window::Window;

#[test]
fn window_push_write_read() {
    let mut w = Window::<i32>::new(3).unwrap();
    assert_eq!(w.len(), 3);
    assert_eq!(w.read(), &[0, 0, 0]);
    w.push(1);
    w.push(2);
    assert_eq!(w.read(), &[0, 1, 2]);
    w.write(&[3, 4, 5, 6]);
    assert_eq!(w.read(), &[4, 5, 6]);
    assert_eq!(w.index(0).unwrap(), 4);
    assert!(w.index(3).is_err());
    w.reset();
    assert_eq!(w.read(), &[0, 0, 0]);
    assert!(Window::<i32>::new(0).is_err());
}

#[test]
fn window_resize_keeps_newest() {
    let mut w = Window::<i32>::new(4).unwrap();
    w.write(&[1, 2, 3, 4]);
    w.resize(2).unwrap();
    assert_eq!(w.read(), &[3, 4]);
    w.resize(5).unwrap();
    assert_eq!(w.read(), &[0, 0, 0, 3, 4]);
    assert!(w.resize(0).is_err());
    assert_eq!(w.read(), &[0, 0, 0, 3, 4]);
    let z = Window::<i32>::new_with(2, 7).unwrap();
    assert_eq!(z.read(), &[7, 7]);
    assert_eq!(z.zero_value(), 7);
}
