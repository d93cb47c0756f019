use geo_index_service::DriverStatus;

#[test]
fn codes_of_the_statuses() {
    assert_eq!(DriverStatus::Offline.code(), 0);
    assert_eq!(DriverStatus::Available.code(), 1);
    assert_eq!(DriverStatus::Busy.code(), 2);
    assert_eq!(DriverStatus::EnRoute.code(), 3);
}

#[test]
fn codes_round_trip() {
    for code in 0..=3 {
        assert_eq!(DriverStatus::from_code(code).code(), code);
        assert_eq!(DriverStatus::from(code).code(), code);
    }
    for status in [
        DriverStatus::Offline,
        DriverStatus::Available,
        DriverStatus::Busy,
        DriverStatus::EnRoute,
    ] {
        assert_eq!(DriverStatus::from_code(status.code()), status);
    }
}

#[test]
fn unknown_codes_read_as_offline() {
    for code in [4, 5, 100, -1, i32::MIN, i32::MAX] {
        assert_eq!(DriverStatus::from_code(code), DriverStatus::Offline);
        assert_eq!(DriverStatus::from(code), DriverStatus::Offline);
    }
}

#[test]
fn only_offline_is_off_the_grid() {
    assert!(!DriverStatus::Offline.is_on_grid());
    assert!(DriverStatus::Available.is_on_grid());
    assert!(DriverStatus::Busy.is_on_grid());
    assert!(DriverStatus::EnRoute.is_on_grid());
    assert!(DriverStatus::Available.is_available());
    assert!(!DriverStatus::Busy.is_available());
    assert!(!DriverStatus::EnRoute.is_available());
    assert!(!DriverStatus::Offline.is_available());
}
