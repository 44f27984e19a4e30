use dsp_filter::fir::design::FirFilterShape;

#[test]
fn test_liquid_getopt_str2firfilt() {
    assert_eq!(FirFilterShape::from_str("kaiser").unwrap(), FirFilterShape::Kaiser);
    assert_eq!(FirFilterShape::from_str("pm").unwrap(), FirFilterShape::Pm);
    assert_eq!(FirFilterShape::from_str("rcos").unwrap(), FirFilterShape::Rcos);
    assert_eq!(FirFilterShape::from_str("fexp").unwrap(), FirFilterShape::Fexp);
    assert_eq!(FirFilterShape::from_str("fsech").unwrap(), FirFilterShape::Fsech);
    assert_eq!(FirFilterShape::from_str("farcsech").unwrap(), FirFilterShape::Farcsech);
    assert_eq!(FirFilterShape::from_str("arkaiser").unwrap(), FirFilterShape::Arkaiser);
    assert_eq!(FirFilterShape::from_str("rkaiser").unwrap(), FirFilterShape::Rkaiser);
    assert_eq!(FirFilterShape::from_str("rrcos").unwrap(), FirFilterShape::Rrcos);
    assert_eq!(FirFilterShape::from_str("hm3").unwrap(), FirFilterShape::Hm3);
    assert_eq!(FirFilterShape::from_str("gmsktx").unwrap(), FirFilterShape::Gmsktx);
    assert_eq!(FirFilterShape::from_str("gmskrx").unwrap(), FirFilterShape::Gmskrx);
    assert_eq!(FirFilterShape::from_str("rfexp").unwrap(), FirFilterShape::Rfexp);
    assert_eq!(FirFilterShape::from_str("rfsech").unwrap(), FirFilterShape::Rfsech);
    assert_eq!(FirFilterShape::from_str("rfarcsech").unwrap(), FirFilterShape::Rfarcsech);
}

#[test]
fn firfilt_shape_unknown_name() {
    assert!(FirFilterShape::from_str("unknown-filter-type").is_err());
    assert!(FirFilterShape::from_str("").is_err());
    assert!(FirFilterShape::from_str("Kaiser").is_err());
}
