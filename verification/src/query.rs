//! What a pass query falls back on, and where it takes its ground location from.

use vstd::prelude::*;

verus! {

/// Minutes scanned when a query names no duration.
pub const DEFAULT_DURATION_MINUTES: i64 = 120;

/// Seconds between samples when a query names no step.
pub const DEFAULT_STEP_SECONDS: i64 = 15;

/// The duration of a scan, in minutes, when the query gives none.
pub fn default_duration() -> (minutes: i64)
    ensures
        minutes == DEFAULT_DURATION_MINUTES,
        minutes > 0,
{
    DEFAULT_DURATION_MINUTES
}

/// The sampling step, in seconds, when the query gives none.
pub fn default_step() -> (seconds: i64)
    ensures
        seconds == DEFAULT_STEP_SECONDS,
        seconds > 0,
{
    DEFAULT_STEP_SECONDS
}

/// Where the ground location of a query comes from.
#[derive(Clone, Copy, Debug, PartialEq, Eq, Structural)]
pub enum GroundSource {
    /// The stored station with this identifier.
    Station(i64),
    /// The latitude and longitude that the query itself carries.
    Coordinates,
    /// The query names no station and lacks a latitude or a longitude.
    Missing,
}

/// Decides where a query's ground location comes from: a station identifier
/// wins; without one, both coordinates must be there.
pub open spec fn ground_source_of(station_id: Option<i64>, has_lat: bool, has_lon: bool) -> GroundSource {
    match station_id {
        Some(id) => GroundSource::Station(id),
        None => if has_lat && has_lon {
            GroundSource::Coordinates
        } else {
            GroundSource::Missing
        },
    }
}

/// Decides where a query's ground location comes from.
pub fn ground_source(station_id: Option<i64>, has_lat: bool, has_lon: bool) -> (source: GroundSource)
    ensures
        source == ground_source_of(station_id, has_lat, has_lon),
{
    match station_id {
        Some(id) => GroundSource::Station(id),
        None => if has_lat && has_lon {
            GroundSource::Coordinates
        } else {
            GroundSource::Missing
        },
    }
}

} // verus!
