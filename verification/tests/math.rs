use dsp_filter::math::gcd;

#[test]
fn gcd_values() {
    assert_eq!(gcd(12, 18).unwrap(), 6);
    assert_eq!(gcd(18, 12).unwrap(), 6);
    assert_eq!(gcd(7, 13).unwrap(), 1);
    assert_eq!(gcd(5, 5).unwrap(), 5);
    assert_eq!(gcd(1, 1000).unwrap(), 1);
    assert_eq!(gcd(1024, 640).unwrap(), 128);
}

#[test]
fn gcd_rejects_zero() {
    assert!(gcd(0, 5).is_err());
    assert!(gcd(5, 0).is_err());
    assert!(gcd(0, 0).is_err());
}
