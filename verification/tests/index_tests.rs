use geo::{HaversineDistance, Point};
use geo_index_service::index::{GeoIndex, UpdateError, DEFAULT_PRECISION};
use geo_index_service::{Binary64, Driver, DriverStatus, DriverWithDistance};

fn bits(x: f64) -> Binary64 {
    Binary64::from_bits(x.to_bits())
}

fn number(x: Binary64) -> f64 {
    f64::from_bits(x.to_bits())
}

fn cell_of(lat: f64, lng: f64, precision: usize) -> Option<String> {
    geohash::encode(geohash::Coord { x: lng, y: lat }, precision).ok()
}

fn reach_for(radius_km: f64, lat: f64, precision: usize) -> usize {
    let total = 5 * precision as i32;
    let lat_bits = total / 2;
    let lng_bits = total - lat_bits;
    let height = 180.0 / 2f64.powi(lat_bits) * 111.195;
    let width = 360.0 / 2f64.powi(lng_bits) * 111.195 * lat.to_radians().cos();
    let extent = height.min(width);
    if !(extent > 0.0) || !(radius_km >= 0.0) {
        return usize::MAX;
    }
    let steps = (radius_km / extent).ceil();
    if steps >= 1.0e9 {
        usize::MAX
    } else if steps < 1.0 {
        1
    } else {
        steps as usize
    }
}

fn update(
    index: &mut GeoIndex,
    id: &str,
    lat: f64,
    lng: f64,
    status: DriverStatus,
) -> Result<(), UpdateError> {
    let cell = cell_of(lat, lng, index.precision());
    index.update_driver_location(id.to_string(), bits(lat), bits(lng), status, cell)
}

fn update_at(
    index: &mut GeoIndex,
    id: &str,
    lat: f64,
    lng: f64,
    status: DriverStatus,
    now: u64,
) -> Result<(), UpdateError> {
    let cell = cell_of(lat, lng, index.precision());
    index.update_driver_location_at(id.to_string(), bits(lat), bits(lng), status, cell, now)
}

fn measure(lat: f64, lng: f64, found: Vec<Driver>) -> Vec<DriverWithDistance> {
    let from = Point::new(lng, lat);
    found
        .into_iter()
        .map(|driver| {
            let to = Point::new(number(driver.lng), number(driver.lat));
            let km = from.haversine_distance(&to) / 1000.0;
            DriverWithDistance { driver, distance_km: bits(km) }
        })
        .collect()
}

fn search_with_reach(
    index: &GeoIndex,
    lat: f64,
    lng: f64,
    max_drivers: usize,
    max_radius_km: f64,
    reach: usize,
) -> Vec<DriverWithDistance> {
    let center = match cell_of(lat, lng, index.precision()) {
        Some(c) => c,
        None => return Vec::new(),
    };
    let found = index.candidates_within(&center, reach);
    GeoIndex::find_nearest_drivers(measure(lat, lng, found), max_drivers, bits(max_radius_km))
}

fn search(
    index: &GeoIndex,
    lat: f64,
    lng: f64,
    max_drivers: usize,
    max_radius_km: f64,
) -> Vec<DriverWithDistance> {
    let reach = reach_for(max_radius_km, lat, index.precision());
    search_with_reach(index, lat, lng, max_drivers, max_radius_km, reach)
}

fn ids(found: &Vec<DriverWithDistance>) -> Vec<String> {
    found.iter().map(|e| e.driver.id.clone()).collect()
}

#[test]
fn test_basic_operations() {
    let mut index = GeoIndex::new();

    assert!(update(&mut index, "driver1", 40.7589, -73.9851, DriverStatus::Available).is_ok());

    let driver = index.get_driver("driver1").unwrap();
    assert_eq!(driver.id, "driver1");
    assert_eq!(driver.status, DriverStatus::Available);

    let nearest = search(&index, 40.7589, -73.9851, 10, 10.0);
    assert_eq!(nearest.len(), 1);
    assert!(number(nearest[0].distance_km) < 0.1);

    assert!(index.remove_driver("driver1"));
    assert!(index.get_driver("driver1").is_none());
}

#[test]
fn test_distance_calculation() {
    let mut index = GeoIndex::new();

    update(&mut index, "driver1", 40.7589, -73.9851, DriverStatus::Available).unwrap();
    update(&mut index, "driver2", 40.7505, -73.9934, DriverStatus::Available).unwrap();
    update(&mut index, "driver3", 40.6892, -74.0445, DriverStatus::Available).unwrap();

    let nearest = search(&index, 40.7589, -73.9851, 10, 15.0);

    assert_eq!(nearest.len(), 3);
    assert!(number(nearest[0].distance_km) < number(nearest[1].distance_km));
    assert!(number(nearest[1].distance_km) < number(nearest[2].distance_km));
}

#[test]
fn new_index_is_empty_with_default_precision() {
    let index = GeoIndex::new();
    assert_eq!(DEFAULT_PRECISION, 7);
    assert_eq!(index.precision(), 7);
    let stats = index.get_stats();
    assert_eq!(stats.total_drivers, 0);
    assert_eq!(stats.active_drivers, 0);
    assert_eq!(stats.available_drivers, 0);
    assert_eq!(stats.total_buckets, 0);
    assert_eq!(stats.precision, 7);
    assert_eq!(GeoIndex::with_precision(5).precision(), 5);
    assert_eq!(GeoIndex::default().precision(), 7);
}

#[test]
fn single_insert_self_query() {
    let mut index = GeoIndex::new();
    update(&mut index, "d1", 40.7589, -73.9851, DriverStatus::Available).unwrap();
    let found = search(&index, 40.7589, -73.9851, 10, 10.0);
    assert_eq!(ids(&found), vec!["d1".to_string()]);
    assert!(number(found[0].distance_km) < 0.1);
    assert_eq!(found[0].driver.status, DriverStatus::Available);
}

#[test]
fn distance_ordering() {
    let mut index = GeoIndex::new();
    update(&mut index, "d1", 40.7589, -73.9851, DriverStatus::Available).unwrap();
    update(&mut index, "d2", 40.7505, -73.9934, DriverStatus::Available).unwrap();
    update(&mut index, "d3", 40.6892, -74.0445, DriverStatus::Available).unwrap();
    let found = search(&index, 40.7589, -73.9851, 10, 15.0);
    assert_eq!(ids(&found), vec!["d1".to_string(), "d2".to_string(), "d3".to_string()]);
    let d2 = number(found[1].distance_km);
    let d3 = number(found[2].distance_km);
    assert!(number(found[0].distance_km) < d2);
    assert!(d2 < d3);
    assert!((d2 - 1.0).abs() < 0.5);
    assert!((d3 - 8.5).abs() < 1.5);
}

#[test]
fn status_filtering() {
    let mut index = GeoIndex::new();
    update(&mut index, "d1", 40.7589, -73.9851, DriverStatus::Available).unwrap();
    update(&mut index, "d2", 40.7589, -73.9851, DriverStatus::Busy).unwrap();
    update(&mut index, "d3", 40.7589, -73.9851, DriverStatus::EnRoute).unwrap();
    let found = search(&index, 40.7589, -73.9851, 10, 1.0);
    assert_eq!(ids(&found), vec!["d1".to_string()]);
    let stats = index.get_stats();
    assert_eq!(stats.total_drivers, 3);
    assert_eq!(stats.active_drivers, 3);
    assert_eq!(stats.available_drivers, 1);
    assert_eq!(stats.total_buckets, 1);
}

#[test]
fn transition_to_offline_leaves_the_grid() {
    let mut index = GeoIndex::new();
    update(&mut index, "d1", 40.7589, -73.9851, DriverStatus::Available).unwrap();
    assert_eq!(index.get_stats().total_buckets, 1);
    update(&mut index, "d1", 40.7589, -73.9851, DriverStatus::Offline).unwrap();
    let found = search(&index, 40.7589, -73.9851, 10, 10.0);
    assert!(found.is_empty());
    let record = index.get_driver("d1").unwrap();
    assert_eq!(record.status, DriverStatus::Offline);
    let stats = index.get_stats();
    assert_eq!(stats.available_drivers, 0);
    assert_eq!(stats.active_drivers, 0);
    assert_eq!(stats.total_drivers, 1);
    assert_eq!(stats.total_buckets, 0);
}

#[test]
fn cell_boundary_is_crossed_by_the_ring() {
    let width = 360.0 / 262144.0;
    let steps = ((-73.985f64 + 180.0) / width).ceil();
    let boundary = -180.0 + steps * width;
    let lat = 40.7589;
    let west = boundary - 0.0002;
    let east = boundary + 0.0002;
    assert_ne!(cell_of(lat, west, 7), cell_of(lat, east, 7));

    let mut index = GeoIndex::new();
    update(&mut index, "d1", lat, west, DriverStatus::Available).unwrap();
    update(&mut index, "d2", lat, east, DriverStatus::Available).unwrap();
    assert_eq!(index.get_stats().total_buckets, 2);

    let found = search_with_reach(&index, lat, west, 10, 0.1, 1);
    assert_eq!(ids(&found), vec!["d1".to_string(), "d2".to_string()]);
    assert!(number(found[1].distance_km) < 0.1);
    assert_eq!(reach_for(0.1, lat, 7), 1);
    assert_eq!(ids(&search(&index, lat, west, 10, 0.1)), vec!["d1".to_string(), "d2".to_string()]);
}

#[test]
fn a_search_of_no_step_stays_in_the_cell() {
    let width = 360.0 / 262144.0;
    let steps = ((-73.985f64 + 180.0) / width).ceil();
    let boundary = -180.0 + steps * width;
    let lat = 40.7589;
    let mut index = GeoIndex::new();
    update(&mut index, "d1", lat, boundary - 0.0002, DriverStatus::Available).unwrap();
    update(&mut index, "d2", lat, boundary + 0.0002, DriverStatus::Available).unwrap();
    let found = search_with_reach(&index, lat, boundary - 0.0002, 10, 0.1, 0);
    assert_eq!(ids(&found), vec!["d1".to_string()]);
}

#[test]
fn ring_search_misses_what_lies_beyond_it() {
    let mut index = GeoIndex::new();
    update(&mut index, "d1", 40.7589, -73.9851, DriverStatus::Available).unwrap();
    update(&mut index, "d2", 40.7505, -73.9934, DriverStatus::Available).unwrap();
    let near = search_with_reach(&index, 40.7589, -73.9851, 10, 15.0, 1);
    assert_eq!(ids(&near), vec!["d1".to_string()]);
    let wide = search_with_reach(&index, 40.7589, -73.9851, 10, 15.0, 9);
    assert_eq!(ids(&wide), vec!["d1".to_string(), "d2".to_string()]);
}

#[test]
fn stale_reap() {
    let mut index = GeoIndex::new();
    let t: u64 = 1_700_000_000;
    update_at(&mut index, "d1", 40.7589, -73.9851, DriverStatus::Available, t).unwrap();
    update_at(&mut index, "d2", 40.7589, -73.9851, DriverStatus::Busy, t + 200).unwrap();
    assert_eq!(index.cleanup_stale_drivers_at(600, t + 600), 0);
    assert_eq!(index.cleanup_stale_drivers_at(600, t + 700), 1);
    assert!(index.get_driver("d1").is_none());
    assert!(index.get_driver("d2").is_some());
    assert_eq!(index.cleanup_stale_drivers_at(600, t + 700), 0);
    assert_eq!(index.get_stats().total_buckets, 1);
    assert_eq!(index.cleanup_stale_drivers_at(600, t + 801), 1);
    assert_eq!(index.get_stats().total_drivers, 0);
    assert_eq!(index.get_stats().total_buckets, 0);
}

#[test]
fn a_record_from_the_future_is_not_stale() {
    let mut index = GeoIndex::new();
    update_at(&mut index, "d1", 1.0, 2.0, DriverStatus::Available, 5000).unwrap();
    assert_eq!(index.cleanup_stale_drivers_at(0, 100), 0);
    assert_eq!(index.cleanup_stale_drivers_at(0, 5000), 0);
    assert_eq!(index.cleanup_stale_drivers_at(0, 5001), 1);
}

#[test]
fn cleanup_by_the_wall_clock_keeps_fresh_records() {
    let mut index = GeoIndex::new();
    update(&mut index, "fresh", 1.0, 2.0, DriverStatus::Available).unwrap();
    update_at(&mut index, "old", 1.0, 2.0, DriverStatus::Available, 1000).unwrap();
    assert_eq!(index.cleanup_stale_drivers(600), 1);
    assert!(index.get_driver("fresh").is_some());
    assert!(index.get_driver("old").is_none());
}

#[test]
fn update_then_get_returns_the_report() {
    let mut index = GeoIndex::new();
    update_at(&mut index, "d1", 40.7589, -73.9851, DriverStatus::EnRoute, 42).unwrap();
    let record = index.get_driver("d1").unwrap();
    assert_eq!(record.id, "d1");
    assert_eq!(number(record.lat), 40.7589);
    assert_eq!(number(record.lng), -73.9851);
    assert_eq!(record.status, DriverStatus::EnRoute);
    assert_eq!(record.last_update, 42);
    assert_eq!(Some(record.cell), cell_of(40.7589, -73.9851, 7));
    assert!(index.get_driver("d2").is_none());
}

#[test]
fn update_by_the_wall_clock_stamps_the_record() {
    let mut index = GeoIndex::new();
    let before = std::time::SystemTime::now()
        .duration_since(std::time::UNIX_EPOCH)
        .unwrap()
        .as_secs();
    update(&mut index, "d1", 10.0, 20.0, DriverStatus::Available).unwrap();
    let record = index.get_driver("d1").unwrap();
    assert!(record.last_update >= before);
    assert!(record.last_update <= before + 60);
}

#[test]
fn remove_then_update_reinstalls() {
    let mut index = GeoIndex::new();
    update(&mut index, "d1", 40.7589, -73.9851, DriverStatus::Available).unwrap();
    assert!(index.remove_driver("d1"));
    assert!(index.get_driver("d1").is_none());
    assert!(!index.remove_driver("d1"));
    assert_eq!(index.get_stats().total_buckets, 0);
    assert!(update(&mut index, "d1", 40.7589, -73.9851, DriverStatus::Available).is_ok());
    assert!(index.get_driver("d1").is_some());
    assert_eq!(ids(&search(&index, 40.7589, -73.9851, 10, 1.0)), vec!["d1".to_string()]);
}

#[test]
fn update_twice_is_update_once() {
    let mut index = GeoIndex::new();
    update_at(&mut index, "d1", 40.7589, -73.9851, DriverStatus::Available, 10).unwrap();
    let first = index.get_stats();
    update_at(&mut index, "d1", 40.7589, -73.9851, DriverStatus::Available, 20).unwrap();
    assert_eq!(index.get_stats(), first);
    let record = index.get_driver("d1").unwrap();
    assert_eq!(record.last_update, 20);
    assert_eq!(search(&index, 40.7589, -73.9851, 10, 1.0).len(), 1);
}

#[test]
fn a_moving_driver_is_filed_in_one_cell() {
    let mut index = GeoIndex::new();
    update(&mut index, "d1", 40.7589, -73.9851, DriverStatus::Available).unwrap();
    update(&mut index, "d2", 40.7589, -73.9851, DriverStatus::Available).unwrap();
    assert_eq!(index.get_stats().total_buckets, 1);
    update(&mut index, "d1", 48.8566, 2.3522, DriverStatus::Available).unwrap();
    let stats = index.get_stats();
    assert_eq!(stats.total_drivers, 2);
    assert_eq!(stats.total_buckets, 2);
    assert_eq!(ids(&search(&index, 40.7589, -73.9851, 10, 0.1)), vec!["d2".to_string()]);
    assert_eq!(ids(&search(&index, 48.8566, 2.3522, 10, 0.1)), vec!["d1".to_string()]);
    update(&mut index, "d2", 48.8566, 2.3522, DriverStatus::Busy).unwrap();
    assert_eq!(index.get_stats().total_buckets, 1);
    assert!(search(&index, 40.7589, -73.9851, 10, 0.1).is_empty());
}

#[test]
fn faults_of_an_update_are_told_apart() {
    let mut index = GeoIndex::new();
    let ok = Some("dr5ru7v".to_string());
    let a = DriverStatus::Available;
    assert_eq!(
        index.update_driver_location("".to_string(), bits(1.0), bits(2.0), a, ok.clone()),
        Err(UpdateError::EmptyDriverId)
    );
    assert_eq!(
        index.update_driver_location("d".to_string(), bits(90.5), bits(2.0), a, ok.clone()),
        Err(UpdateError::InvalidLatitude)
    );
    assert_eq!(
        index.update_driver_location("d".to_string(), bits(f64::NAN), bits(2.0), a, ok.clone()),
        Err(UpdateError::InvalidLatitude)
    );
    assert_eq!(
        index.update_driver_location("d".to_string(), bits(-90.0), bits(-180.5), a, ok.clone()),
        Err(UpdateError::InvalidLongitude)
    );
    assert_eq!(
        index.update_driver_location("d".to_string(), bits(1.0), bits(f64::INFINITY), a, ok.clone()),
        Err(UpdateError::InvalidLongitude)
    );
    assert_eq!(
        index.update_driver_location("d".to_string(), bits(1.0), bits(2.0), a, None),
        Err(UpdateError::EncodingFailure)
    );
    assert_eq!(
        index.update_driver_location("".to_string(), bits(95.0), bits(200.0), a, None),
        Err(UpdateError::EmptyDriverId)
    );
    assert_eq!(index.get_stats().total_drivers, 0);
    assert_eq!(index.get_stats().total_buckets, 0);
    assert_eq!(
        index.update_driver_location("d".to_string(), bits(90.0), bits(-180.0), a, ok.clone()),
        Ok(())
    );
    assert_eq!(
        index.update_driver_location("e".to_string(), bits(-0.0), bits(180.0), a, ok),
        Ok(())
    );
    assert_eq!(index.get_stats().total_drivers, 2);
}

#[test]
fn a_refused_update_changes_nothing() {
    let mut index = GeoIndex::new();
    update_at(&mut index, "d1", 40.7589, -73.9851, DriverStatus::Available, 7).unwrap();
    let refused = update_at(&mut index, "d1", 140.0, -73.9851, DriverStatus::Offline, 9);
    assert_eq!(refused, Err(UpdateError::InvalidLatitude));
    let record = index.get_driver("d1").unwrap();
    assert_eq!(record.status, DriverStatus::Available);
    assert_eq!(record.last_update, 7);
    assert_eq!(index.get_stats().total_buckets, 1);
}

#[test]
fn a_precision_that_the_codec_refuses_fails_the_encoding() {
    let mut index = GeoIndex::with_precision(0);
    assert_eq!(
        update(&mut index, "d1", 40.7589, -73.9851, DriverStatus::Available),
        Err(UpdateError::EncodingFailure)
    );
}

#[test]
fn equal_distances_are_ordered_by_identifier() {
    let mut index = GeoIndex::new();
    for id in ["b", "a", "c", "ab", "B"] {
        update(&mut index, id, 40.7589, -73.9851, DriverStatus::Available).unwrap();
    }
    let found = search(&index, 40.7589, -73.9851, 10, 1.0);
    assert_eq!(
        ids(&found),
        vec!["B".to_string(), "a".to_string(), "ab".to_string(), "b".to_string(), "c".to_string()]
    );
}

#[test]
fn the_answer_is_cut_off_after_max_drivers() {
    let mut index = GeoIndex::new();
    update(&mut index, "far", 40.7596, -73.9851, DriverStatus::Available).unwrap();
    update(&mut index, "near", 40.7590, -73.9851, DriverStatus::Available).unwrap();
    update(&mut index, "mid", 40.7593, -73.9851, DriverStatus::Available).unwrap();
    let two = search(&index, 40.7589, -73.9851, 2, 1.0);
    assert_eq!(ids(&two), vec!["near".to_string(), "mid".to_string()]);
    assert!(search(&index, 40.7589, -73.9851, 0, 1.0).is_empty());
    assert_eq!(search(&index, 40.7589, -73.9851, 3, 1.0).len(), 3);
    assert_eq!(search(&index, 40.7589, -73.9851, 4, 1.0).len(), 3);
}

#[test]
fn the_radius_bounds_the_answer() {
    let mut index = GeoIndex::new();
    update(&mut index, "near", 40.7590, -73.9851, DriverStatus::Available).unwrap();
    update(&mut index, "far", 40.7600, -73.9851, DriverStatus::Available).unwrap();
    let found = search_with_reach(&index, 40.7589, -73.9851, 10, 0.05, 9);
    assert_eq!(ids(&found), vec!["near".to_string()]);
    assert!(search_with_reach(&index, 40.7589, -73.9851, 10, f64::NAN, 9).is_empty());
    assert!(search_with_reach(&index, 40.7589, -73.9851, 10, -1.0, 9).is_empty());
    assert_eq!(search_with_reach(&index, 40.7589, -73.9851, 10, f64::INFINITY, 9).len(), 2);
}

#[test]
fn ranking_takes_only_the_eligible() {
    let driver = |id: &str, status: DriverStatus| Driver {
        id: id.to_string(),
        lat: bits(0.0),
        lng: bits(0.0),
        status,
        last_update: 0,
        cell: "s000000".to_string(),
    };
    let entry = |id: &str, status: DriverStatus, km: f64| DriverWithDistance {
        driver: driver(id, status),
        distance_km: bits(km),
    };
    let measured = vec![
        entry("e", DriverStatus::Available, 3.0),
        entry("d", DriverStatus::Busy, 0.5),
        entry("c", DriverStatus::Available, 1.0),
        entry("b", DriverStatus::Available, f64::NAN),
        entry("a", DriverStatus::Available, 5.0),
        entry("z", DriverStatus::Available, 0.0),
        entry("y", DriverStatus::Available, -0.0),
        entry("x", DriverStatus::Available, 4.0),
    ];
    let found = GeoIndex::find_nearest_drivers(measured, 4, bits(4.0));
    assert_eq!(
        ids(&found),
        vec!["y".to_string(), "z".to_string(), "c".to_string(), "e".to_string()]
    );
    assert_eq!(number(found[2].distance_km), 1.0);
}

#[test]
fn candidates_name_each_driver_once() {
    let mut index = GeoIndex::new();
    update(&mut index, "d1", 40.7589, -73.9851, DriverStatus::Available).unwrap();
    update(&mut index, "d2", 40.7589, -73.9851, DriverStatus::Available).unwrap();
    update(&mut index, "d3", 40.7589, -73.9851, DriverStatus::Busy).unwrap();
    let cell = cell_of(40.7589, -73.9851, 7).unwrap();
    let twice = vec![cell.clone(), cell.clone(), "zzzzzzz".to_string()];
    let mut found: Vec<String> =
        index.available_in_cells(&twice).into_iter().map(|d| d.id).collect();
    found.sort();
    assert_eq!(found, vec!["d1".to_string(), "d2".to_string()]);
    let mut all: Vec<String> = index.all_available().into_iter().map(|d| d.id).collect();
    all.sort();
    assert_eq!(all, vec!["d1".to_string(), "d2".to_string()]);
    assert!(index.available_in_cells(&Vec::new()).is_empty());
}

#[test]
fn a_clock_before_the_epoch_reads_as_the_epoch() {
    assert_eq!(geo_index_service::clock::seconds_or_epoch(None), 0);
    assert_eq!(geo_index_service::clock::seconds_or_epoch(Some(0)), 0);
    assert_eq!(geo_index_service::clock::seconds_or_epoch(Some(1_700_000_000)), 1_700_000_000);
    assert_eq!(geo_index_service::clock::seconds_or_epoch(Some(u64::MAX)), u64::MAX);
}
