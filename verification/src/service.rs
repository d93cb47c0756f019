use vstd::prelude::*;
use vstd::math::min;
use vstd::string::*;
use crate::driver::{Driver, DriverView, DriverWithDistance, MeasuredView, driver_views, measured_views};
use crate::cells::search_area;
use crate::clock::unix_seconds;
use crate::exposition::{CLEANUP_MAX_AGE_SECONDS, CleanupReport, cleanup};
use crate::index::{GeoIndex, UpdateError, candidates, distinct_ids, stale_ids, updated_record};
use crate::ranking::is_ranking;
use crate::scalar::Binary64;
use crate::status::{DriverStatus, status_of_code};

verus! {

/// Why a request was turned away before the index was asked: each is a
/// fault of the request's arguments.
#[derive(Clone, Copy, Debug, PartialEq, Eq, Structural)]
pub enum RequestError {
    EmptyDriverId,
    InvalidLatitude,
    InvalidLongitude,
    NonPositiveMaxDrivers,
    NonPositiveRadius,
}

/// The words that go with a refused request.
pub open spec fn request_error_text(error: RequestError) -> Seq<char> {
    match error {
        RequestError::EmptyDriverId => "driver_id cannot be empty"@,
        RequestError::InvalidLatitude => "Invalid latitude"@,
        RequestError::InvalidLongitude => "Invalid longitude"@,
        RequestError::NonPositiveMaxDrivers => "max_drivers must be positive"@,
        RequestError::NonPositiveRadius => "max_radius_km must be positive"@,
    }
}

/// The words that go with a refused update.
pub open spec fn update_error_text(error: UpdateError) -> Seq<char> {
    match error {
        UpdateError::EmptyDriverId => "driver_id cannot be empty"@,
        UpdateError::InvalidLatitude => "Invalid latitude"@,
        UpdateError::InvalidLongitude => "Invalid longitude"@,
        UpdateError::EncodingFailure => "Failed to encode geohash"@,
    }
}

impl RequestError {
    pub fn message(&self) -> (text: String)
        ensures
            text@ == request_error_text(*self),
    {
        match self {
            RequestError::EmptyDriverId => String::from_str("driver_id cannot be empty"),
            RequestError::InvalidLatitude => String::from_str("Invalid latitude"),
            RequestError::InvalidLongitude => String::from_str("Invalid longitude"),
            RequestError::NonPositiveMaxDrivers => String::from_str("max_drivers must be positive"),
            RequestError::NonPositiveRadius => String::from_str("max_radius_km must be positive"),
        }
    }
}

impl UpdateError {
    pub fn message(&self) -> (text: String)
        ensures
            text@ == update_error_text(*self),
    {
        match self {
            UpdateError::EmptyDriverId => String::from_str("driver_id cannot be empty"),
            UpdateError::InvalidLatitude => String::from_str("Invalid latitude"),
            UpdateError::InvalidLongitude => String::from_str("Invalid longitude"),
            UpdateError::EncodingFailure => String::from_str("Failed to encode geohash"),
        }
    }

    /// The fault lies in the arguments, not in the codec.
    pub fn is_invalid_argument(&self) -> (r: bool)
        ensures
            r == (*self != UpdateError::EncodingFailure),
    {
        match self {
            UpdateError::EncodingFailure => false,
            _ => true,
        }
    }
}

/// A driver as a reply describes it.
#[derive(Debug)]
pub struct DriverLocation {
    pub driver_id: String,
    pub lat: Binary64,
    pub lng: Binary64,
    pub distance_km: Binary64,
    pub status: i32,
    pub last_update_timestamp: i64,
}

/// What a `DriverLocation` holds, as mathematical values.
pub struct DriverLocationView {
    pub driver_id: Seq<char>,
    pub lat: Binary64,
    pub lng: Binary64,
    pub distance_km: Binary64,
    pub status: int,
    pub last_update_timestamp: int,
}

impl View for DriverLocation {
    type V = DriverLocationView;

    open spec fn view(&self) -> DriverLocationView {
        DriverLocationView {
            driver_id: self.driver_id@,
            lat: self.lat,
            lng: self.lng,
            distance_km: self.distance_km,
            status: self.status as int,
            last_update_timestamp: self.last_update_timestamp as int,
        }
    }
}

/// The views of a sequence of locations, in order.
pub open spec fn location_views(items: Seq<DriverLocation>) -> Seq<DriverLocationView> {
    items.map_values(|l: DriverLocation| l@)
}

/// A time of the index as a reply carries it: the same 64 bits read as a
/// signed number.
pub open spec fn wire_timestamp(seconds: u64) -> int {
    if seconds <= i64::MAX {
        seconds as int
    } else {
        seconds - 0x1_0000_0000_0000_0000
    }
}

/// The description of a driver at a given distance.
pub open spec fn location_of(driver: DriverView, distance_km: Binary64) -> DriverLocationView {
    DriverLocationView {
        driver_id: driver.id,
        lat: driver.lat,
        lng: driver.lng,
        distance_km,
        status: driver.status.spec_code(),
        last_update_timestamp: wire_timestamp(driver.last_update),
    }
}

/// The descriptions of measured drivers, in order.
pub open spec fn locations_of(entries: Seq<MeasuredView>) -> Seq<DriverLocationView> {
    entries.map_values(|e: MeasuredView| location_of(e.driver, e.distance_km))
}

pub struct FindNearestDriversRequest {
    pub lat: Binary64,
    pub lng: Binary64,
    pub max_drivers: i32,
    pub max_radius_km: Binary64,
}

#[derive(Debug)]
pub struct FindNearestDriversResponse {
    pub drivers: Vec<DriverLocation>,
}

pub struct UpdateDriverLocationRequest {
    pub driver_id: String,
    pub lat: Binary64,
    pub lng: Binary64,
    pub status: i32,
}

#[derive(Debug)]
pub struct UpdateDriverLocationResponse {
    pub success: bool,
    pub message: String,
}

pub struct RemoveDriverRequest {
    pub driver_id: String,
}

#[derive(Debug)]
pub struct RemoveDriverResponse {
    pub success: bool,
    pub message: String,
}

pub struct GetDriverLocationRequest {
    pub driver_id: String,
}

#[derive(Debug)]
pub struct GetDriverLocationResponse {
    pub driver: Option<DriverLocation>,
    pub found: bool,
}

/// The fault of a request to search, if it has one.
pub open spec fn search_fault(
    lat: Binary64,
    lng: Binary64,
    max_drivers: i32,
    max_radius_km: Binary64,
) -> Option<RequestError> {
    if !lat.is_latitude() {
        Some(RequestError::InvalidLatitude)
    } else if !lng.is_longitude() {
        Some(RequestError::InvalidLongitude)
    } else if max_drivers <= 0 {
        Some(RequestError::NonPositiveMaxDrivers)
    } else if max_radius_km.spec_le(Binary64 { bits: 0 }) {
        Some(RequestError::NonPositiveRadius)
    } else {
        None
    }
}

/// The fault of a request to update, if it has one.
pub open spec fn update_fault(id: Seq<char>, lat: Binary64, lng: Binary64) -> Option<
    RequestError,
> {
    if id.len() == 0 {
        Some(RequestError::EmptyDriverId)
    } else if !lat.is_latitude() {
        Some(RequestError::InvalidLatitude)
    } else if !lng.is_longitude() {
        Some(RequestError::InvalidLongitude)
    } else {
        None
    }
}

/// The fault of a request that names a driver, if it has one.
pub open spec fn id_fault(id: Seq<char>) -> Option<RequestError> {
    if id.len() == 0 {
        Some(RequestError::EmptyDriverId)
    } else {
        None
    }
}

/// The wire code of a status.
pub fn map_driver_status_to_proto(status: DriverStatus) -> (code: i32)
    ensures
        code == status.spec_code(),
{
    status.code()
}

/// The status that a wire code stands for; an unknown code reads as
/// `Offline`.
pub fn map_proto_status_to_driver(status: i32) -> (decoded: DriverStatus)
    ensures
        decoded == status_of_code(status as int),
{
    DriverStatus::from_code(status)
}

fn to_wire_timestamp(seconds: u64) -> (stamp: i64)
    ensures
        stamp == wire_timestamp(seconds),
{
    if seconds <= 0x7FFF_FFFF_FFFF_FFFF {
        seconds as i64
    } else {
        let low: u64 = seconds - 0x8000_0000_0000_0000;
        (low as i64) + i64::MIN
    }
}

/// Describes a driver at a given distance.
pub fn describe(driver: &Driver, distance_km: Binary64) -> (location: DriverLocation)
    ensures
        location@ == location_of(driver@, distance_km),
{
    DriverLocation {
        driver_id: driver.id.clone(),
        lat: driver.lat,
        lng: driver.lng,
        distance_km,
        status: map_driver_status_to_proto(driver.status),
        last_update_timestamp: to_wire_timestamp(driver.last_update),
    }
}

fn check_search(request: &FindNearestDriversRequest) -> (fault: Option<RequestError>)
    ensures
        fault == search_fault(
            request.lat,
            request.lng,
            request.max_drivers,
            request.max_radius_km,
        ),
{
    if !request.lat.valid_latitude() {
        Some(RequestError::InvalidLatitude)
    } else if !request.lng.valid_longitude() {
        Some(RequestError::InvalidLongitude)
    } else if request.max_drivers <= 0 {
        Some(RequestError::NonPositiveMaxDrivers)
    } else if request.max_radius_km.le(Binary64::zero()) {
        Some(RequestError::NonPositiveRadius)
    } else {
        None
    }
}

/// The request-facing side of the index: it judges each request, asks the
/// index, and words the reply.
pub struct GeoIndexGrpcService {
    geo_index: GeoIndex,
}

impl GeoIndexGrpcService {
    /// The index that the service answers from.
    pub closed spec fn index(&self) -> GeoIndex {
        self.geo_index
    }

    pub open spec fn wf(&self) -> bool {
        self.index().wf()
    }

    pub fn new(geo_index: GeoIndex) -> (service: GeoIndexGrpcService)
        requires
            geo_index.wf(),
        ensures
            service.wf(),
            service.index() == geo_index,
    {
        GeoIndexGrpcService { geo_index }
    }

    /// The index, to read from.
    pub fn geo_index(&self) -> (index: &GeoIndex)
        ensures
            *index == self.index(),
    {
        &self.geo_index
    }

    /// Forgets the drivers whose records are older than
    /// `CLEANUP_MAX_AGE_SECONDS` by the wall clock.
    pub fn cleanup(&mut self) -> (report: CleanupReport)
        requires
            old(self).wf(),
        ensures
            final(self).wf(),
            final(self).index().spec_precision() == old(self).index().spec_precision(),
            report.max_age_seconds == CLEANUP_MAX_AGE_SECONDS,
            exists|now: u64|
                final(self).index().table() == old(self).index().table().remove_keys(
                    #[trigger] stale_ids(old(self).index().table(), CLEANUP_MAX_AGE_SECONDS, now),
                ) && report.removed_count == stale_ids(
                    old(self).index().table(),
                    CLEANUP_MAX_AGE_SECONDS,
                    now,
                ).len(),
    {
        cleanup(&mut self.geo_index)
    }

    /// The number of characters that the cell of a position must have.
    pub fn precision(&self) -> (p: usize)
        ensures
            p == self.index().spec_precision(),
    {
        self.geo_index.precision()
    }

    /// First half of a search: judges the request and gathers the available
    /// drivers within `reach` steps of `center`, the cell of the query point
    /// (`None` where none could be computed, which finds nobody).
    pub fn find_candidates(
        &self,
        request: &FindNearestDriversRequest,
        center: Option<String>,
        reach: usize,
    ) -> (outcome: Result<Vec<Driver>, RequestError>)
        requires
            self.wf(),
        ensures
            match search_fault(
                request.lat,
                request.lng,
                request.max_drivers,
                request.max_radius_km,
            ) {
                Some(fault) => outcome == Err::<Vec<Driver>, RequestError>(fault),
                None => outcome is Ok && distinct_ids(driver_views(outcome->Ok_0@)) && driver_views(
                    outcome->Ok_0@,
                ).to_set() == (match center {
                    Some(c) => candidates(self.index().table(), search_area(c@, reach as nat)),
                    None => Set::<DriverView>::empty(),
                }),
            },
    {
        match check_search(request) {
            Some(fault) => Err(fault),
            None => match center {
                Some(c) => Ok(self.geo_index.candidates_within(c.as_str(), reach)),
                None => {
                    let nobody: Vec<Driver> = Vec::new();
                    assert(driver_views(nobody@).to_set() =~= Set::<DriverView>::empty());
                    Ok(nobody)
                },
            },
        }
    }

    /// Second half of a search: judges the request and answers with the
    /// eligible ones of the measured drivers, nearest first, cut off after
    /// `max_drivers`.
    pub fn find_nearest_drivers(
        &self,
        request: &FindNearestDriversRequest,
        measured: Vec<DriverWithDistance>,
    ) -> (outcome: Result<FindNearestDriversResponse, RequestError>)
        ensures
            match search_fault(
                request.lat,
                request.lng,
                request.max_drivers,
                request.max_radius_km,
            ) {
                Some(fault) => outcome == Err::<FindNearestDriversResponse, RequestError>(fault),
                None => outcome is Ok && exists|full: Seq<MeasuredView>| #[trigger]
                    is_ranking(full, measured_views(measured@), request.max_radius_km)
                        && location_views(outcome->Ok_0.drivers@) == locations_of(
                        full.take(min(request.max_drivers as int, full.len() as int)),
                    ),
            },
    {
        match check_search(request) {
            Some(fault) => Err(fault),
            None => {
                let nearest = GeoIndex::find_nearest_drivers(
                    measured,
                    request.max_drivers as usize,
                    request.max_radius_km,
                );
                let mut drivers: Vec<DriverLocation> = Vec::new();
                let mut i: usize = 0;
                assert(location_views(drivers@) =~= locations_of(measured_views(nearest@).take(0)));
                while i < nearest.len()
                    invariant
                        i <= nearest@.len(),
                        drivers@.len() == i,
                        location_views(drivers@) == locations_of(
                            measured_views(nearest@).take(i as int),
                        ),
                    decreases nearest@.len() - i,
                {
                    let ghost before = drivers@;
                    let ghost ranked = measured_views(nearest@);
                    let location = describe(&nearest[i].driver, nearest[i].distance_km);
                    drivers.push(location);
                    proof {
                        assert forall|j: int| 0 <= j < i + 1 implies location_views(drivers@)[j]
                            == locations_of(ranked.take(i + 1))[j] by {
                            if j < i {
                                assert(location_views(before)[j] == locations_of(
                                    ranked.take(i as int),
                                )[j]);
                                assert(drivers@[j] == before[j]);
                                assert(ranked.take(i as int)[j] == ranked.take(i + 1)[j]);
                            } else {
                                assert(ranked.take(i + 1)[j] == nearest@[i as int]@);
                            }
                        }
                        assert(location_views(drivers@) =~= locations_of(ranked.take(i + 1)));
                    }
                    i += 1;
                }
                assert(measured_views(nearest@).take(i as int) =~= measured_views(nearest@));
                Ok(FindNearestDriversResponse { drivers })
            },
        }
    }

    /// Judges a report and hands it to the index, with `now` as its time
    /// and `cell` as the cell of the position (`None` where none could be
    /// computed). A fault of the arguments turns the request away; a report
    /// that the index refuses is answered without success.
    pub fn update_driver_location_at(
        &mut self,
        request: UpdateDriverLocationRequest,
        cell: Option<String>,
        now: u64,
    ) -> (outcome: Result<UpdateDriverLocationResponse, RequestError>)
        requires
            old(self).wf(),
        ensures
            final(self).wf(),
            final(self).index().spec_precision() == old(self).index().spec_precision(),
            match update_fault(request.driver_id@, request.lat, request.lng) {
                Some(fault) => outcome == Err::<UpdateDriverLocationResponse, RequestError>(fault)
                    && final(self).index().table() == old(self).index().table(),
                None => outcome is Ok && outcome->Ok_0.success == (cell is Some) && (match cell {
                    Some(c) => outcome->Ok_0.message@ == "Location updated successfully"@ && final(self).index().table() == old(self).index().table().insert(
                        request.driver_id@,
                        updated_record(
                            request.driver_id@,
                            request.lat,
                            request.lng,
                            status_of_code(request.status as int),
                            c@,
                            now,
                        ),
                    ),
                    None => outcome->Ok_0.message@ == "Failed to update location: "@
                        + update_error_text(UpdateError::EncodingFailure) && final(self).index().table() == old(self).index().table(),
                }),
            },
    {
        if request.driver_id.as_str().is_empty() {
            return Err(RequestError::EmptyDriverId);
        }
        if !request.lat.valid_latitude() {
            return Err(RequestError::InvalidLatitude);
        }
        if !request.lng.valid_longitude() {
            return Err(RequestError::InvalidLongitude);
        }
        let status = map_proto_status_to_driver(request.status);
        match self.geo_index.update_driver_location_at(
            request.driver_id,
            request.lat,
            request.lng,
            status,
            cell,
            now,
        ) {
            Ok(()) => Ok(
                UpdateDriverLocationResponse {
                    success: true,
                    message: String::from_str("Location updated successfully"),
                },
            ),
            Err(refusal) => {
                let reason = refusal.message();
                Ok(
                    UpdateDriverLocationResponse {
                        success: false,
                        message: String::from_str("Failed to update location: ").concat(
                            reason.as_str(),
                        ),
                    },
                )
            },
        }
    }

    /// Judges a report and hands it to the index with the wall clock's
    /// time; see `update_driver_location_at`, which says the same of a given
    /// time.
    pub fn update_driver_location(
        &mut self,
        request: UpdateDriverLocationRequest,
        cell: Option<String>,
    ) -> (outcome: Result<UpdateDriverLocationResponse, RequestError>)
        requires
            old(self).wf(),
        ensures
            final(self).wf(),
            final(self).index().spec_precision() == old(self).index().spec_precision(),
            match update_fault(request.driver_id@, request.lat, request.lng) {
                Some(fault) => outcome == Err::<UpdateDriverLocationResponse, RequestError>(fault)
                    && final(self).index().table() == old(self).index().table(),
                None => outcome is Ok && outcome->Ok_0.success == (cell is Some) && (match cell {
                    Some(c) => outcome->Ok_0.message@ == "Location updated successfully"@
                        && exists|now: u64|
                        final(self).index().table() == old(self).index().table().insert(
                            request.driver_id@,
                            #[trigger] updated_record(
                                request.driver_id@,
                                request.lat,
                                request.lng,
                                status_of_code(request.status as int),
                                c@,
                                now,
                            ),
                        ),
                    None => outcome->Ok_0.message@ == "Failed to update location: "@
                        + update_error_text(UpdateError::EncodingFailure) && final(self).index().table()
                        == old(self).index().table(),
                }),
            },
    {
        let now = unix_seconds();
        self.update_driver_location_at(request, cell, now)
    }

    /// Judges a request to forget a driver and hands it to the index.
    pub fn remove_driver(&mut self, request: RemoveDriverRequest) -> (outcome: Result<
        RemoveDriverResponse,
        RequestError,
    >)
        requires
            old(self).wf(),
        ensures
            final(self).wf(),
            final(self).index().spec_precision() == old(self).index().spec_precision(),
            match id_fault(request.driver_id@) {
                Some(fault) => outcome == Err::<RemoveDriverResponse, RequestError>(fault) && final(self).index().table() == old(self).index().table(),
                None => outcome is Ok && outcome->Ok_0.success == old(self).index().table().contains_key(request.driver_id@) && outcome->Ok_0.message@ == (
                if outcome->Ok_0.success {
                    "Driver removed successfully"@
                } else {
                    "Driver not found"@
                }) && final(self).index().table() == old(self).index().table().remove(
                    request.driver_id@,
                ),
            },
    {
        if request.driver_id.as_str().is_empty() {
            return Err(RequestError::EmptyDriverId);
        }
        if self.geo_index.remove_driver(request.driver_id.as_str()) {
            Ok(
                RemoveDriverResponse {
                    success: true,
                    message: String::from_str("Driver removed successfully"),
                },
            )
        } else {
            Ok(
                RemoveDriverResponse {
                    success: false,
                    message: String::from_str("Driver not found"),
                },
            )
        }
    }

    /// Judges a request for the record of a driver and answers it from the
    /// index; the distance of the description is zero.
    pub fn get_driver_location(&self, request: GetDriverLocationRequest) -> (outcome: Result<
        GetDriverLocationResponse,
        RequestError,
    >)
        ensures
            match id_fault(request.driver_id@) {
                Some(fault) => outcome == Err::<GetDriverLocationResponse, RequestError>(fault),
                None => outcome is Ok && outcome->Ok_0.found == self.index().table().contains_key(
                    request.driver_id@,
                ) && (match outcome->Ok_0.driver {
                    Some(location) => outcome->Ok_0.found && location@ == location_of(
                        self.index().table()[request.driver_id@],
                        Binary64 { bits: 0 },
                    ),
                    None => !outcome->Ok_0.found,
                }),
            },
    {
        if request.driver_id.as_str().is_empty() {
            return Err(RequestError::EmptyDriverId);
        }
        match self.geo_index.get_driver(request.driver_id.as_str()) {
            Some(driver) => Ok(
                GetDriverLocationResponse {
                    driver: Some(describe(&driver, Binary64::zero())),
                    found: true,
                },
            ),
            None => Ok(GetDriverLocationResponse { driver: None, found: false }),
        }
    }
}

} // verus!
