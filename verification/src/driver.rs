use vstd::prelude::*;
use crate::scalar::Binary64;
use crate::status::DriverStatus;

verus! {

/// The latest report of one driver, as the table keeps it.
///
/// `cell` is the identifier of the grid cell that the position falls in; the
/// caller supplies it with the position, and the index files the driver
/// under it.
#[derive(Debug)]
pub struct Driver {
    pub id: String,
    pub lat: Binary64,
    pub lng: Binary64,
    pub status: DriverStatus,
    pub last_update: u64,
    pub cell: String,
}

/// What a `Driver` holds, as mathematical values.
pub struct DriverView {
    pub id: Seq<char>,
    pub lat: Binary64,
    pub lng: Binary64,
    pub status: DriverStatus,
    pub last_update: u64,
    pub cell: Seq<char>,
}

impl View for Driver {
    type V = DriverView;

    open spec fn view(&self) -> DriverView {
        DriverView {
            id: self.id@,
            lat: self.lat,
            lng: self.lng,
            status: self.status,
            last_update: self.last_update,
            cell: self.cell@,
        }
    }
}

impl Clone for Driver {
    fn clone(&self) -> (copy: Driver)
        ensures
            copy == *self,
    {
        Driver {
            id: self.id.clone(),
            lat: self.lat,
            lng: self.lng,
            status: self.status,
            last_update: self.last_update,
            cell: self.cell.clone(),
        }
    }
}

impl DriverView {
    /// The driver occupies cell `cell` of the grid.
    pub open spec fn placed_in(self, cell: Seq<char>) -> bool {
        self.status.on_grid() && self.cell == cell
    }
}

/// A driver together with its measured distance from a query point, in
/// kilometres.
#[derive(Debug)]
pub struct DriverWithDistance {
    pub driver: Driver,
    pub distance_km: Binary64,
}

/// What a `DriverWithDistance` holds, as mathematical values.
pub struct MeasuredView {
    pub driver: DriverView,
    pub distance_km: Binary64,
}

impl View for DriverWithDistance {
    type V = MeasuredView;

    open spec fn view(&self) -> MeasuredView {
        MeasuredView { driver: self.driver@, distance_km: self.distance_km }
    }
}

impl Clone for DriverWithDistance {
    fn clone(&self) -> (copy: DriverWithDistance)
        ensures
            copy == *self,
    {
        DriverWithDistance { driver: self.driver.clone(), distance_km: self.distance_km }
    }
}

/// Counts taken from the index at one moment.
#[derive(Clone, Copy, Debug, PartialEq, Eq, Structural)]
pub struct IndexStats {
    pub total_drivers: usize,
    pub active_drivers: usize,
    pub available_drivers: usize,
    pub total_buckets: usize,
    pub precision: usize,
}

/// The views of a sequence of drivers, in order.
pub open spec fn driver_views(drivers: Seq<Driver>) -> Seq<DriverView> {
    drivers.map_values(|d: Driver| d@)
}

/// The views of a sequence of measured drivers, in order.
pub open spec fn measured_views(entries: Seq<DriverWithDistance>) -> Seq<MeasuredView> {
    entries.map_values(|e: DriverWithDistance| e@)
}

/// The views of a sequence of strings, in order.
pub open spec fn text_views(items: Seq<String>) -> Seq<Seq<char>> {
    items.map_values(|s: String| s@)
}

} // verus!
