use vstd::prelude::*;
use vstd::std_specs::convert::FromSpecImpl;

verus! {

/// Operational state that a driver reports.
///
/// Only an `Available` driver is offered by a search. A `Busy` or `EnRoute`
/// driver stays placed on the grid; an `Offline` driver is kept in the table
/// but occupies no cell.
#[derive(Clone, Copy, Debug, PartialEq, Eq, Structural)]
pub enum DriverStatus {
    Offline,
    Available,
    Busy,
    EnRoute,
}

/// The status that a wire code stands for; an unknown code reads as `Offline`.
pub open spec fn status_of_code(code: int) -> DriverStatus {
    if code == 1 {
        DriverStatus::Available
    } else if code == 2 {
        DriverStatus::Busy
    } else if code == 3 {
        DriverStatus::EnRoute
    } else {
        DriverStatus::Offline
    }
}

impl DriverStatus {
    /// The wire code of the status.
    pub open spec fn spec_code(self) -> int {
        match self {
            DriverStatus::Offline => 0,
            DriverStatus::Available => 1,
            DriverStatus::Busy => 2,
            DriverStatus::EnRoute => 3,
        }
    }

    pub fn code(self) -> (c: i32)
        ensures
            c == self.spec_code(),
    {
        match self {
            DriverStatus::Offline => 0,
            DriverStatus::Available => 1,
            DriverStatus::Busy => 2,
            DriverStatus::EnRoute => 3,
        }
    }

    pub fn from_code(code: i32) -> (s: DriverStatus)
        ensures
            s == status_of_code(code as int),
    {
        match code {
            0 => DriverStatus::Offline,
            1 => DriverStatus::Available,
            2 => DriverStatus::Busy,
            3 => DriverStatus::EnRoute,
            _ => DriverStatus::Offline,
        }
    }

    /// The driver occupies a cell of the grid.
    pub open spec fn on_grid(self) -> bool {
        self != DriverStatus::Offline
    }

    pub fn is_on_grid(self) -> (r: bool)
        ensures
            r == self.on_grid(),
    {
        match self {
            DriverStatus::Offline => false,
            _ => true,
        }
    }

    pub fn is_available(self) -> (r: bool)
        ensures
            r == (self == DriverStatus::Available),
    {
        match self {
            DriverStatus::Available => true,
            _ => false,
        }
    }
}

impl From<i32> for DriverStatus {
    fn from(value: i32) -> (s: DriverStatus) {
        DriverStatus::from_code(value)
    }
}

impl FromSpecImpl<i32> for DriverStatus {
    open spec fn obeys_from_spec() -> bool {
        true
    }

    open spec fn from_spec(value: i32) -> DriverStatus {
        status_of_code(value as int)
    }
}

/// Decoding the code of a status gives the status back.
pub proof fn lemma_status_round_trip(status: DriverStatus)
    ensures
        status_of_code(status.spec_code()) == status,
        0 <= status.spec_code() <= 3,
{
}

/// A code from 0 to 3 decodes to the status with that code; every other
/// code decodes to `Offline`.
pub proof fn lemma_code_round_trip(code: int)
    ensures
        0 <= code <= 3 ==> status_of_code(code).spec_code() == code,
        !(0 <= code <= 3) ==> status_of_code(code) == DriverStatus::Offline,
{
}

} // verus!
