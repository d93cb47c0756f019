use geo_index_service::index::{GeoIndex, UpdateError};
use geo_index_service::service::{
    describe, map_driver_status_to_proto, map_proto_status_to_driver, FindNearestDriversRequest,
    GeoIndexGrpcService, GetDriverLocationRequest, RemoveDriverRequest, RequestError,
    UpdateDriverLocationRequest,
};
use geo_index_service::{Binary64, Driver, DriverStatus, DriverWithDistance};

fn bits(x: f64) -> Binary64 {
    Binary64::from_bits(x.to_bits())
}

fn report(id: &str, lat: f64, lng: f64, status: i32) -> UpdateDriverLocationRequest {
    UpdateDriverLocationRequest { driver_id: id.to_string(), lat: bits(lat), lng: bits(lng), status }
}

fn query(lat: f64, lng: f64, max_drivers: i32, radius: f64) -> FindNearestDriversRequest {
    FindNearestDriversRequest {
        lat: bits(lat),
        lng: bits(lng),
        max_drivers,
        max_radius_km: bits(radius),
    }
}

fn cell() -> Option<String> {
    Some("dr5ru7v".to_string())
}

#[test]
fn status_maps_to_and_from_the_wire() {
    assert_eq!(map_driver_status_to_proto(DriverStatus::Offline), 0);
    assert_eq!(map_driver_status_to_proto(DriverStatus::Available), 1);
    assert_eq!(map_driver_status_to_proto(DriverStatus::Busy), 2);
    assert_eq!(map_driver_status_to_proto(DriverStatus::EnRoute), 3);
    assert_eq!(map_proto_status_to_driver(0), DriverStatus::Offline);
    assert_eq!(map_proto_status_to_driver(1), DriverStatus::Available);
    assert_eq!(map_proto_status_to_driver(2), DriverStatus::Busy);
    assert_eq!(map_proto_status_to_driver(3), DriverStatus::EnRoute);
    assert_eq!(map_proto_status_to_driver(4), DriverStatus::Offline);
    assert_eq!(map_proto_status_to_driver(-7), DriverStatus::Offline);
}

#[test]
fn messages_of_the_faults() {
    assert_eq!(RequestError::EmptyDriverId.message(), "driver_id cannot be empty");
    assert_eq!(RequestError::InvalidLatitude.message(), "Invalid latitude");
    assert_eq!(RequestError::InvalidLongitude.message(), "Invalid longitude");
    assert_eq!(RequestError::NonPositiveMaxDrivers.message(), "max_drivers must be positive");
    assert_eq!(RequestError::NonPositiveRadius.message(), "max_radius_km must be positive");
    assert_eq!(UpdateError::InvalidLatitude.message(), "Invalid latitude");
    assert_eq!(UpdateError::InvalidLongitude.message(), "Invalid longitude");
    assert_eq!(UpdateError::EmptyDriverId.message(), "driver_id cannot be empty");
    assert_eq!(UpdateError::EncodingFailure.message(), "Failed to encode geohash");
    assert!(UpdateError::InvalidLatitude.is_invalid_argument());
    assert!(UpdateError::EmptyDriverId.is_invalid_argument());
    assert!(!UpdateError::EncodingFailure.is_invalid_argument());
}

#[test]
fn an_update_is_judged_then_applied() {
    let mut service = GeoIndexGrpcService::new(GeoIndex::new());
    assert_eq!(service.precision(), 7);
    assert_eq!(
        service.update_driver_location(report("", 1.0, 2.0, 1), cell()).unwrap_err(),
        RequestError::EmptyDriverId
    );
    assert_eq!(
        service.update_driver_location(report("d1", -91.0, 2.0, 1), cell()).unwrap_err(),
        RequestError::InvalidLatitude
    );
    assert_eq!(
        service.update_driver_location(report("d1", 1.0, 181.0, 1), cell()).unwrap_err(),
        RequestError::InvalidLongitude
    );
    let found = service
        .get_driver_location(GetDriverLocationRequest { driver_id: "d1".to_string() })
        .unwrap();
    assert!(!found.found);
    assert!(found.driver.is_none());

    let failed = service.update_driver_location(report("d1", 1.0, 2.0, 1), None).unwrap();
    assert!(!failed.success);
    assert_eq!(failed.message, "Failed to update location: Failed to encode geohash");

    let done = service.update_driver_location_at(report("d1", 1.0, 2.0, 2), cell(), 77).unwrap();
    assert!(done.success);
    assert_eq!(done.message, "Location updated successfully");

    let found = service
        .get_driver_location(GetDriverLocationRequest { driver_id: "d1".to_string() })
        .unwrap();
    assert!(found.found);
    let location = found.driver.unwrap();
    assert_eq!(location.driver_id, "d1");
    assert_eq!(location.lat, bits(1.0));
    assert_eq!(location.lng, bits(2.0));
    assert_eq!(location.distance_km, bits(0.0));
    assert_eq!(location.status, 2);
    assert_eq!(location.last_update_timestamp, 77);
}

#[test]
fn an_unknown_status_is_stored_as_offline() {
    let mut service = GeoIndexGrpcService::new(GeoIndex::new());
    service.update_driver_location_at(report("d1", 1.0, 2.0, 9), cell(), 1).unwrap();
    let found = service
        .get_driver_location(GetDriverLocationRequest { driver_id: "d1".to_string() })
        .unwrap();
    assert_eq!(found.driver.unwrap().status, 0);
}

#[test]
fn a_removal_is_judged_then_applied() {
    let mut service = GeoIndexGrpcService::new(GeoIndex::new());
    assert_eq!(
        service.remove_driver(RemoveDriverRequest { driver_id: "".to_string() }).unwrap_err(),
        RequestError::EmptyDriverId
    );
    let missing =
        service.remove_driver(RemoveDriverRequest { driver_id: "d1".to_string() }).unwrap();
    assert!(!missing.success);
    assert_eq!(missing.message, "Driver not found");
    service.update_driver_location(report("d1", 1.0, 2.0, 1), cell()).unwrap();
    let removed =
        service.remove_driver(RemoveDriverRequest { driver_id: "d1".to_string() }).unwrap();
    assert!(removed.success);
    assert_eq!(removed.message, "Driver removed successfully");
    assert_eq!(
        service
            .get_driver_location(GetDriverLocationRequest { driver_id: "".to_string() })
            .unwrap_err(),
        RequestError::EmptyDriverId
    );
}

#[test]
fn a_search_is_judged_in_both_halves() {
    let mut service = GeoIndexGrpcService::new(GeoIndex::new());
    service.update_driver_location(report("d1", 1.0, 2.0, 1), cell()).unwrap();
    let faults = [
        (query(95.0, 2.0, 5, 1.0), RequestError::InvalidLatitude),
        (query(1.0, -200.0, 5, 1.0), RequestError::InvalidLongitude),
        (query(1.0, 2.0, 0, 1.0), RequestError::NonPositiveMaxDrivers),
        (query(1.0, 2.0, -3, 1.0), RequestError::NonPositiveMaxDrivers),
        (query(1.0, 2.0, 5, 0.0), RequestError::NonPositiveRadius),
        (query(1.0, 2.0, 5, -0.0), RequestError::NonPositiveRadius),
        (query(1.0, 2.0, 5, -2.0), RequestError::NonPositiveRadius),
        (query(f64::NAN, 2.0, 0, -2.0), RequestError::InvalidLatitude),
    ];
    for (request, fault) in faults {
        assert_eq!(service.find_candidates(&request, cell(), 1).unwrap_err(), fault);
        assert_eq!(service.find_nearest_drivers(&request, Vec::new()).unwrap_err(), fault);
    }
    let request = query(1.0, 2.0, 5, 3.0);
    assert!(service.find_candidates(&request, None, 1).unwrap().is_empty());
    let found = service.find_candidates(&request, cell(), 1).unwrap();
    assert_eq!(found.len(), 1);
    assert_eq!(found[0].id, "d1");
    let far = service.find_candidates(&request, Some("9q60y60".to_string()), 1).unwrap();
    assert!(far.is_empty());
    let everywhere = service.find_candidates(&request, Some("9q60y60".to_string()), 9).unwrap();
    assert_eq!(everywhere.len(), 1);
    let measured: Vec<DriverWithDistance> = found
        .into_iter()
        .map(|driver| DriverWithDistance { driver, distance_km: bits(2.5) })
        .collect();
    let reply = service.find_nearest_drivers(&request, measured).unwrap();
    assert_eq!(reply.drivers.len(), 1);
    assert_eq!(reply.drivers[0].driver_id, "d1");
    assert_eq!(reply.drivers[0].distance_km, bits(2.5));
    assert_eq!(reply.drivers[0].status, 1);
    let nan_radius = query(1.0, 2.0, 5, f64::NAN);
    assert!(service.find_nearest_drivers(&nan_radius, Vec::new()).unwrap().drivers.is_empty());
}

#[test]
fn a_description_carries_the_record() {
    let driver = Driver {
        id: "d9".to_string(),
        lat: bits(12.5),
        lng: bits(-7.25),
        status: DriverStatus::EnRoute,
        last_update: 1_700_000_000,
        cell: "s000000".to_string(),
    };
    let location = describe(&driver, bits(3.5));
    assert_eq!(location.driver_id, "d9");
    assert_eq!(location.lat, bits(12.5));
    assert_eq!(location.lng, bits(-7.25));
    assert_eq!(location.distance_km, bits(3.5));
    assert_eq!(location.status, 3);
    assert_eq!(location.last_update_timestamp, 1_700_000_000);
    let late = Driver { last_update: u64::MAX, ..driver.clone() };
    assert_eq!(describe(&late, bits(0.0)).last_update_timestamp, -1);
    let edge = Driver { last_update: 1u64 << 63, ..driver.clone() };
    assert_eq!(describe(&edge, bits(0.0)).last_update_timestamp, i64::MIN);
    let last = Driver { last_update: (1u64 << 63) - 1, ..driver };
    assert_eq!(describe(&last, bits(0.0)).last_update_timestamp, i64::MAX);
}
