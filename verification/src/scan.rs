//! A prediction run from end to end: what is refused before any sampling,
//! and what becomes of the readings once they are taken.
//!
//! The caller samples between the two steps: `plan_scan` says at which
//! instants, the caller takes a reading at each and stops at the first that
//! fails, and `conclude_scan` turns what was taken into windows.

use vstd::prelude::*;
use crate::elevation::Elevation;
use crate::ground::GroundLocation;
use crate::passes::is_scan_admissible;
use crate::passes::predict_passes;
use crate::passes::sample_count;
use crate::passes::sample_instants;
use crate::passes::scan_admissible;
use crate::passes::scan_end;
use crate::passes::scan_instants;
use crate::passes::scan_samples;
use crate::passes::windows_of;
use crate::passes::PassWindow;
use crate::time::Instant;

verus! {

/// Why a prediction run gave no windows.
#[derive(Debug)]
pub enum PredictError {
    /// The latitude is outside [-90, 90], the longitude is outside
    /// [-180, 180], or one of them is not a number.
    GroundLocationOutOfRange,
    /// The duration or the step is not positive, or the scan would end
    /// beyond the instants that can be counted.
    InvalidScan,
    /// Every reading given was taken, but there is not one for each sampled instant.
    MissingReadings,
    /// The propagator failed at a sampled instant; the run is void.
    Propagation(sgp4::Error),
}

/// What taking one reading gave.
pub type Reading = Result<Elevation, sgp4::Error>;

/// Reading `k` failed and none before it did.
pub open spec fn first_failure_at(outcomes: Seq<Reading>, k: int) -> bool {
    &&& 0 <= k < outcomes.len()
    &&& outcomes[k] is Err
    &&& forall|j: int| 0 <= j < k ==> (#[trigger] outcomes[j]) is Ok
}

/// Every reading was taken.
pub open spec fn all_taken(outcomes: Seq<Reading>) -> bool {
    forall|j: int| 0 <= j < outcomes.len() ==> (#[trigger] outcomes[j]) is Ok
}

/// The elevations of the readings that were taken, in order.
pub open spec fn elevations_of(outcomes: Seq<Reading>) -> Seq<Elevation> {
    Seq::new(
        outcomes.len(),
        |k: int|
            match outcomes[k] {
                Ok(elevation) => elevation,
                Err(_) => Elevation { rank: 0 },
            },
    )
}

/// Checks a run before any sampling and lists the instants to sample.
///
/// A ground location out of range is refused first, then a scan that is not
/// well-posed; otherwise the instants are those of the scan, in order.
pub fn plan_scan(
    lat_bits: u64,
    lon_bits: u64,
    start: Instant,
    duration_minutes: i64,
    step_seconds: i64,
) -> (r: Result<Vec<Instant>, PredictError>)
    ensures
        match r {
            Ok(instants) => {
                &&& (GroundLocation { lat_bits, lon_bits }).in_range()
                &&& scan_admissible(start, duration_minutes, step_seconds)
                &&& instants@ == scan_instants(start, duration_minutes, step_seconds)
            },
            Err(PredictError::GroundLocationOutOfRange) => !(GroundLocation {
                lat_bits,
                lon_bits,
            }).in_range(),
            Err(PredictError::InvalidScan) => (GroundLocation { lat_bits, lon_bits }).in_range()
                && !scan_admissible(start, duration_minutes, step_seconds),
            Err(_) => false,
        },
{
    if GroundLocation::new(lat_bits, lon_bits).is_none() {
        return Err(PredictError::GroundLocationOutOfRange);
    }
    if !is_scan_admissible(start, duration_minutes, step_seconds) {
        return Err(PredictError::InvalidScan);
    }
    Ok(sample_instants(start, duration_minutes, step_seconds))
}

/// Turns the readings of a run into its windows.
///
/// `outcomes` holds what sampling gave at the first, second, ... instant of
/// the scan. One failed reading voids the run: the failure of the first such
/// reading is returned, whatever came after it. When all readings were taken
/// and there is one for each instant of the scan, the windows are those of
/// `predict_passes`.
pub fn conclude_scan(
    start: Instant,
    duration_minutes: i64,
    step_seconds: i64,
    min_elevation_deg: Elevation,
    outcomes: Vec<Reading>,
) -> (r: Result<Vec<PassWindow>, PredictError>)
    ensures
        match r {
            Ok(windows) => {
                &&& scan_admissible(start, duration_minutes, step_seconds)
                &&& all_taken(outcomes@)
                &&& outcomes.len() == sample_count(duration_minutes, step_seconds)
                &&& windows@ == windows_of(
                    scan_samples(start, step_seconds, elevations_of(outcomes@)),
                    min_elevation_deg,
                    scan_end(start, duration_minutes),
                )
            },
            Err(PredictError::InvalidScan) => !scan_admissible(
                start,
                duration_minutes,
                step_seconds,
            ),
            Err(PredictError::Propagation(error)) => {
                &&& scan_admissible(start, duration_minutes, step_seconds)
                &&& exists|k: int|
                    first_failure_at(outcomes@, k) && #[trigger] outcomes@[k] == Err::<
                        Elevation,
                        sgp4::Error,
                    >(error)
            },
            Err(PredictError::MissingReadings) => {
                &&& scan_admissible(start, duration_minutes, step_seconds)
                &&& all_taken(outcomes@)
                &&& outcomes.len() != sample_count(duration_minutes, step_seconds)
            },
            Err(PredictError::GroundLocationOutOfRange) => false,
        },
{
    if !is_scan_admissible(start, duration_minutes, step_seconds) {
        return Err(PredictError::InvalidScan);
    }
    let ghost all = outcomes@;
    let given = outcomes.len();
    let mut elevations: Vec<Elevation> = Vec::new();
    for outcome in it: outcomes
        invariant
            it.seq() == all,
            all == outcomes@,
            scan_admissible(start, duration_minutes, step_seconds),
            elevations.len() == it.index(),
            forall|j: int| 0 <= j < it.index() ==> (#[trigger] all[j]) is Ok,
            forall|j: int|
                0 <= j < it.index() ==> #[trigger] elevations[j] == elevations_of(all)[j],
    {
        match outcome {
            Ok(elevation) => {
                elevations.push(elevation);
            },
            Err(error) => {
                assert(all[it.index() as int] == Err::<Elevation, sgp4::Error>(error));
                assert(first_failure_at(all, it.index() as int));
                return Err(PredictError::Propagation(error));
            },
        }
    }
    assert(elevations@ =~= elevations_of(all));
    let expected: i128 = crate::passes::count_samples(duration_minutes, step_seconds);
    if given as i128 != expected {
        return Err(PredictError::MissingReadings);
    }
    Ok(predict_passes(start, duration_minutes, step_seconds, min_elevation_deg, &elevations))
}

} // verus!
