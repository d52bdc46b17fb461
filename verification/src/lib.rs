//! A time-series ingestion and aggregation engine for sensor telemetry.
//!
//! Producers submit timestamped scalar measurements for registered sensors;
//! consumers later request an aggregate (maximum, minimum, or average) over an
//! arbitrary time window.  Measurements are grouped into fixed-duration
//! buckets addressed by a fixed-width composite key, merged incrementally on
//! ingestion, and scanned in aligned ranges on query.

pub mod digest;
pub mod engine;
pub mod keys;
pub mod laws;
pub mod model;
pub mod store;
pub mod types;
