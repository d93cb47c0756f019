use geo_index_service::scalar::{
    Binary64, INFINITY_BITS, NINETY_BITS, ONE_EIGHTY_BITS, SIGN_BIT,
};

fn bits(x: f64) -> Binary64 {
    Binary64::from_bits(x.to_bits())
}

fn samples() -> Vec<f64> {
    vec![
        f64::NEG_INFINITY,
        -1.0e300,
        -180.0,
        -90.0,
        -1.5,
        -f64::MIN_POSITIVE,
        -5.0e-324,
        -0.0,
        0.0,
        5.0e-324,
        f64::MIN_POSITIVE,
        0.1,
        1.0,
        89.99999999999999,
        90.0,
        90.00000000000001,
        180.0,
        1.0e300,
        f64::INFINITY,
        f64::NAN,
        -f64::NAN,
    ]
}

#[test]
fn constants_are_the_patterns_of_their_numbers() {
    assert_eq!(NINETY_BITS, 90.0f64.to_bits());
    assert_eq!(ONE_EIGHTY_BITS, 180.0f64.to_bits());
    assert_eq!(INFINITY_BITS, f64::INFINITY.to_bits());
    assert_eq!(SIGN_BIT, (-0.0f64).to_bits());
    assert_eq!(NINETY_BITS + SIGN_BIT, (-90.0f64).to_bits());
    assert_eq!(Binary64::zero().to_bits(), 0.0f64.to_bits());
    assert_eq!(Binary64::from_bits(17).to_bits(), 17);
}

#[test]
fn comparisons_agree_with_the_numbers() {
    for a in samples() {
        assert_eq!(bits(a).is_nan(), a.is_nan());
        for b in samples() {
            assert_eq!(bits(a).le(bits(b)), a <= b);
            assert_eq!(bits(a).lt(bits(b)), a < b);
        }
    }
}

#[test]
fn rank_order_is_total_on_numbers() {
    for a in samples() {
        for b in samples() {
            if !a.is_nan() && !b.is_nan() {
                assert_eq!(bits(a).rank_le(bits(b)), a <= b);
                assert!(bits(a).le(bits(b)) || bits(b).le(bits(a)));
            }
        }
    }
}

#[test]
fn ranges_of_coordinates() {
    for x in samples() {
        assert_eq!(bits(x).valid_latitude(), (-90.0..=90.0).contains(&x));
        assert_eq!(bits(x).valid_longitude(), (-180.0..=180.0).contains(&x));
        
    }
    assert!(bits(40.7589).valid_latitude());
    assert!(bits(-73.9851).valid_longitude());
    assert!(!bits(-73.9851 - 150.0).valid_longitude());
    assert!(!bits(91.0).valid_latitude());
}
