//! An in-memory index of drivers by position, with its request-facing
//! service, verified with Verus.
//!
//! The index keeps a table of the latest report of each driver and a grid
//! that files every driver who is not offline under the cell of its
//! position. A search gathers the available drivers of the cells around the
//! query point, and, once their distances are measured, answers with the
//! nearest of them.
//!
//! The library does no floating-point arithmetic. It carries a coordinate
//! or a distance as a `Binary64`, the bit pattern of the number, which it
//! can compare; the caller computes the cell of a position and measures
//! distances.

pub mod cells;
pub mod clock;
pub mod driver;
pub mod exposition;
pub mod index;
pub mod laws;
pub mod metrics;
pub mod ranking;
pub mod scalar;
pub mod service;
pub mod status;
pub mod store;
pub mod text;

pub use driver::{Driver, DriverWithDistance, IndexStats};
pub use index::{GeoIndex, UpdateError};
pub use metrics::{GeoIndexMetrics, MetricsTimer};
pub use scalar::Binary64;
pub use service::GeoIndexGrpcService;
pub use status::DriverStatus;
