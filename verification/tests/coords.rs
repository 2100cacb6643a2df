use eww::coords::{Coords, CoordsError, NumWithUnit};

#[test]
fn test_parse_num_with_unit() {
    assert_eq!(NumWithUnit::Pixels(55), NumWithUnit::from_str("55").unwrap());
    assert_eq!(NumWithUnit::Pixels(55), NumWithUnit::from_str("55px").unwrap());
    assert_eq!(NumWithUnit::Percent(55), NumWithUnit::from_str("55%").unwrap());
    assert!(NumWithUnit::from_str("55pp").is_err());
}

#[test]
fn test_parse_coords() {
    assert_eq!(Coords { x: NumWithUnit::Pixels(50), y: NumWithUnit::Pixels(60) }, Coords::from_str("50x60").unwrap());
    assert!(Coords::from_str("5060").is_err());
}

#[test]
fn num_with_unit_edge_cases() {
    assert_eq!(NumWithUnit::Pixels(-3), NumWithUnit::from_str("-3px").unwrap());
    assert!(NumWithUnit::from_str("+3").is_err());
    assert!(NumWithUnit::from_str("px").is_err());
    assert!(NumWithUnit::from_str("").is_err());
    assert!(NumWithUnit::from_str("2147483648").is_err());
    assert_eq!(NumWithUnit::Percent(-2147483648), NumWithUnit::from_str("-2147483648%").unwrap());
    assert_eq!(
        NumWithUnit::from_str("12 px"),
        Err(CoordsError::InvalidNumWithUnit("12 px".to_string()))
    );
}

#[test]
fn coords_separators_and_errors() {
    assert_eq!(
        Coords { x: NumWithUnit::Percent(50), y: NumWithUnit::Pixels(20) },
        Coords::from_str("50%*20px").unwrap()
    );
    assert_eq!(Coords::from_pixels(1, 2), Coords::from_str("1X2").unwrap());
    assert_eq!(Coords::from_str("5060"), Err(CoordsError::MissingSeparator));
    assert_eq!(Coords::from_str("1xb"), Err(CoordsError::InvalidNumWithUnit("b".to_string())));
    assert_eq!(Coords::from_str("ax2"), Err(CoordsError::InvalidNumWithUnit("a".to_string())));
}

#[test]
fn coords_display() {
    assert_eq!("50%", NumWithUnit::Percent(50).to_display_string());
    assert_eq!("-4px", NumWithUnit::Pixels(-4).to_display_string());
    assert_eq!("1px*2%", Coords { x: NumWithUnit::Pixels(1), y: NumWithUnit::Percent(2) }.to_display_string());
    assert_eq!(Coords::default(), Coords::from_pixels(0, 0));
}
