//! Visibility-pass detection over elevation samples.

use vstd::prelude::*;
use crate::elevation::Elevation;
use crate::time::Instant;
use crate::time::SECONDS_PER_MINUTE;

verus! {

/// One elevation reading.
#[derive(Clone, Copy, Debug, PartialEq, Eq, Structural)]
pub struct Sample {
    pub at: Instant,
    pub elevation: Elevation,
}

/// A closed interval of visibility and the highest elevation sampled within it.
#[derive(Clone, Copy, Debug, PartialEq, Eq, Structural)]
pub struct PassWindow {
    pub start: Instant,
    pub end: Instant,
    pub max_elevation_deg: Elevation,
}

/// Where the detector stands between two samples.
#[derive(Clone, Copy, Debug, PartialEq, Eq, Structural)]
pub enum SampleState {
    OutOfView,
    InView { started_at: Instant, running_max_elevation: Elevation },
}

/// A reading counts as visible when it reaches the threshold; equality suffices.
pub open spec fn visible(elevation: Elevation, min_elevation: Elevation) -> bool {
    elevation.rank >= min_elevation.rank
}

/// The higher of two elevations.
pub open spec fn higher(a: Elevation, b: Elevation) -> Elevation {
    if b.rank > a.rank {
        b
    } else {
        a
    }
}

impl SampleState {
    /// The state that follows `self` once `sample` has been read.
    pub open spec fn next(self, sample: Sample, min_elevation: Elevation) -> SampleState {
        if visible(sample.elevation, min_elevation) {
            match self {
                SampleState::OutOfView => SampleState::InView {
                    started_at: sample.at,
                    running_max_elevation: sample.elevation,
                },
                SampleState::InView { started_at, running_max_elevation } => SampleState::InView {
                    started_at,
                    running_max_elevation: higher(running_max_elevation, sample.elevation),
                },
            }
        } else {
            SampleState::OutOfView
        }
    }

    /// The window that reading `sample` in state `self` closes, if any.
    pub open spec fn emits(self, sample: Sample, min_elevation: Elevation) -> Option<PassWindow> {
        match self {
            SampleState::InView { started_at, running_max_elevation } => {
                if visible(sample.elevation, min_elevation) {
                    None
                } else {
                    Some(
                        PassWindow {
                            start: started_at,
                            end: sample.at,
                            max_elevation_deg: running_max_elevation,
                        },
                    )
                }
            },
            SampleState::OutOfView => None,
        }
    }

    /// The window that is still open in state `self` when the scan stops at `end`.
    pub open spec fn closes_at(self, end: Instant) -> Option<PassWindow> {
        match self {
            SampleState::InView { started_at, running_max_elevation } => Some(
                PassWindow { start: started_at, end, max_elevation_deg: running_max_elevation },
            ),
            SampleState::OutOfView => None,
        }
    }

    /// Reads one sample: returns the state that follows and the window this
    /// reading closed, if it closed one.
    pub fn advance(self, sample: Sample, min_elevation: Elevation) -> (r: (
        SampleState,
        Option<PassWindow>,
    ))
        ensures
            r.0 == self.next(sample, min_elevation),
            r.1 == self.emits(sample, min_elevation),
    {
        if sample.elevation.rank >= min_elevation.rank {
            match self {
                SampleState::OutOfView => (
                    SampleState::InView {
                        started_at: sample.at,
                        running_max_elevation: sample.elevation,
                    },
                    None,
                ),
                SampleState::InView { started_at, running_max_elevation } => {
                    if sample.elevation.rank > running_max_elevation.rank {
                        (
                            SampleState::InView {
                                started_at,
                                running_max_elevation: sample.elevation,
                            },
                            None,
                        )
                    } else {
                        (SampleState::InView { started_at, running_max_elevation }, None)
                    }
                },
            }
        } else {
            match self {
                SampleState::InView { started_at, running_max_elevation } => (
                    SampleState::OutOfView,
                    Some(
                        PassWindow {
                            start: started_at,
                            end: sample.at,
                            max_elevation_deg: running_max_elevation,
                        },
                    ),
                ),
                SampleState::OutOfView => (SampleState::OutOfView, None),
            }
        }
    }

    /// Ends the scan at `end`: a window that is still open is closed there
    /// rather than dropped.
    pub fn finish(self, end: Instant) -> (r: Option<PassWindow>)
        ensures
            r == self.closes_at(end),
    {
        match self {
            SampleState::InView { started_at, running_max_elevation } => Some(
                PassWindow { start: started_at, end, max_elevation_deg: running_max_elevation },
            ),
            SampleState::OutOfView => None,
        }
    }
}

/// The detector's state after all of `samples` have been read, starting out of view.
pub open spec fn state_after(samples: Seq<Sample>, min_elevation: Elevation) -> SampleState
    decreases samples.len(),
{
    if samples.len() == 0 {
        SampleState::OutOfView
    } else {
        state_after(samples.drop_last(), min_elevation).next(samples.last(), min_elevation)
    }
}

/// The windows that have been closed by the time all of `samples` have been read.
pub open spec fn closed_windows(samples: Seq<Sample>, min_elevation: Elevation) -> Seq<PassWindow>
    decreases samples.len(),
{
    if samples.len() == 0 {
        Seq::empty()
    } else {
        let earlier = closed_windows(samples.drop_last(), min_elevation);
        match state_after(samples.drop_last(), min_elevation).emits(samples.last(), min_elevation) {
            Some(window) => earlier.push(window),
            None => earlier,
        }
    }
}

/// All windows of a scan over `samples` that stops at `end`: those closed by a
/// reading below the threshold, then the one cut off by the end of the scan.
pub open spec fn windows_of(samples: Seq<Sample>, min_elevation: Elevation, end: Instant) -> Seq<
    PassWindow,
> {
    match state_after(samples, min_elevation).closes_at(end) {
        Some(window) => closed_windows(samples, min_elevation).push(window),
        None => closed_windows(samples, min_elevation),
    }
}

/// Runs the detector over `samples` and closes the scan at `end`.
pub fn detect_passes(samples: &Vec<Sample>, min_elevation: Elevation, end: Instant) -> (windows:
    Vec<PassWindow>)
    ensures
        windows@ == windows_of(samples@, min_elevation, end),
{
    let mut windows: Vec<PassWindow> = Vec::new();
    let mut state = SampleState::OutOfView;
    let mut i: usize = 0;
    while i < samples.len()
        invariant
            i <= samples.len(),
            state == state_after(samples@.take(i as int), min_elevation),
            windows@ == closed_windows(samples@.take(i as int), min_elevation),
        decreases samples.len() - i,
    {
        proof {
            let upto = samples@.take(i as int + 1);
            assert(upto.drop_last() == samples@.take(i as int));
            assert(upto.last() == samples@[i as int]);
        }
        let (next, closed) = state.advance(samples[i], min_elevation);
        match closed {
            Some(window) => windows.push(window),
            None => {},
        }
        state = next;
        i += 1;
    }
    proof {
        assert(samples@.take(i as int) == samples@);
    }
    match state.finish(end) {
        Some(window) => windows.push(window),
        None => {},
    }
    windows
}

/// A scan is well-posed when it runs for a positive time at a positive step and
/// its last instant can still be counted in seconds.
pub open spec fn scan_admissible(start: Instant, duration_minutes: i64, step_seconds: i64) -> bool {
    &&& duration_minutes > 0
    &&& step_seconds > 0
    &&& start.seconds + duration_minutes * SECONDS_PER_MINUTE <= i64::MAX
}

/// The instant at which a scan stops.
pub open spec fn scan_end(start: Instant, duration_minutes: i64) -> Instant {
    start.shifted(duration_minutes * SECONDS_PER_MINUTE)
}

/// How many instants a scan samples: one at the start and one per whole step
/// that fits before the end, the end itself included.
pub open spec fn sample_count(duration_minutes: i64, step_seconds: i64) -> int {
    (duration_minutes * SECONDS_PER_MINUTE) / (step_seconds as int) + 1
}

/// The `k`-th instant a scan samples, counting from zero.
pub open spec fn sample_instant(start: Instant, step_seconds: i64, k: int) -> Instant {
    start.shifted(k * step_seconds)
}

/// The instants of a scan, in the order in which they are sampled.
pub open spec fn scan_instants(start: Instant, duration_minutes: i64, step_seconds: i64) -> Seq<
    Instant,
> {
    Seq::new(
        sample_count(duration_minutes, step_seconds) as nat,
        |k: int| sample_instant(start, step_seconds, k),
    )
}

/// The readings of a scan: the `k`-th elevation paired with the `k`-th instant.
pub open spec fn scan_samples(start: Instant, step_seconds: i64, elevations: Seq<Elevation>) -> Seq<
    Sample,
> {
    Seq::new(
        elevations.len(),
        |k: int| Sample { at: sample_instant(start, step_seconds, k), elevation: elevations[k] },
    )
}

/// Every step counted by `sample_count` falls within the scan, and the next one falls after it.
pub proof fn lemma_sample_count_bounds(duration_minutes: i64, step_seconds: i64)
    requires
        duration_minutes > 0,
        step_seconds > 0,
    ensures
        sample_count(duration_minutes, step_seconds) >= 1,
        (sample_count(duration_minutes, step_seconds) - 1) * step_seconds <= duration_minutes
            * SECONDS_PER_MINUTE,
        sample_count(duration_minutes, step_seconds) * step_seconds > duration_minutes
            * SECONDS_PER_MINUTE,
        sample_count(duration_minutes, step_seconds) <= duration_minutes * SECONDS_PER_MINUTE + 1,
{
    let total = duration_minutes * SECONDS_PER_MINUTE;
    let step = step_seconds as int;
    let q = total / step;
    assert(total == step * q + total % step && 0 <= total % step < step) by {
        vstd::arithmetic::div_mod::lemma_fundamental_div_mod(total, step);
        vstd::arithmetic::div_mod::lemma_mod_bound(total, step);
    }
    assert(q >= 0 && q * step <= total && (q + 1) * step > total && q <= total) by (nonlinear_arith)
        requires
            total == step * q + total % step,
            0 <= total % step < step,
            total >= 0,
            step >= 1,
    ;
}

/// A step that falls within the scan is one of the counted ones.
pub proof fn lemma_step_within_scan(duration_minutes: i64, step_seconds: i64, k: int)
    requires
        duration_minutes > 0,
        step_seconds > 0,
        0 <= k,
    ensures
        k * step_seconds <= duration_minutes * SECONDS_PER_MINUTE <==> k < sample_count(
            duration_minutes,
            step_seconds,
        ),
{
    lemma_sample_count_bounds(duration_minutes, step_seconds);
    let n = sample_count(duration_minutes, step_seconds);
    let total = duration_minutes * SECONDS_PER_MINUTE;
    let step = step_seconds as int;
    assert(k < n ==> k * step <= (n - 1) * step) by (nonlinear_arith)
        requires
            step >= 1,
            k >= 0,
    ;
    assert(k >= n ==> k * step >= n * step) by (nonlinear_arith)
        requires
            step >= 1,
            n >= 1,
    ;
}

/// Lists the instants a scan samples: `start`, then every `step_seconds` up to
/// and including the end of the scan.
pub fn sample_instants(start: Instant, duration_minutes: i64, step_seconds: i64) -> (instants: Vec<
    Instant,
>)
    requires
        scan_admissible(start, duration_minutes, step_seconds),
    ensures
        instants@ == scan_instants(start, duration_minutes, step_seconds),
{
    assert(SECONDS_PER_MINUTE == 60);
    let total: i128 = (duration_minutes as i128) * (SECONDS_PER_MINUTE as i128);
    let mut instants: Vec<Instant> = Vec::new();
    let mut elapsed: i128 = 0;
    assert(instants.len() * step_seconds == 0) by (nonlinear_arith)
        requires
            instants.len() == 0,
    ;
    while elapsed <= total
        invariant
            scan_admissible(start, duration_minutes, step_seconds),
            total == duration_minutes * SECONDS_PER_MINUTE,
            elapsed == instants.len() * step_seconds,
            0 <= elapsed <= total + step_seconds,
            instants.len() <= sample_count(duration_minutes, step_seconds),
            forall|k: int|
                0 <= k < instants.len() ==> #[trigger] instants[k] == sample_instant(
                    start,
                    step_seconds,
                    k,
                ),
        decreases total + step_seconds - elapsed,
    {
        let ghost k = instants.len() as int;
        proof {
            lemma_step_within_scan(duration_minutes, step_seconds, k);
            lemma_step_within_scan(duration_minutes, step_seconds, k + 1);
            assert((k + 1) * step_seconds == k * step_seconds + step_seconds) by (nonlinear_arith);
        }
        let seconds: i64 = ((start.seconds as i128) + elapsed) as i64;
        instants.push(Instant { seconds, nanos: start.nanos });
        elapsed = elapsed + (step_seconds as i128);
    }
    proof {
        lemma_step_within_scan(duration_minutes, step_seconds, instants.len() as int);
        assert(instants@ =~= scan_instants(start, duration_minutes, step_seconds));
    }
    instants
}

/// Tells whether a scan is well-posed, so that a caller can test the
/// precondition of `predict_passes` before calling it.
pub fn is_scan_admissible(start: Instant, duration_minutes: i64, step_seconds: i64) -> (r: bool)
    ensures
        r == scan_admissible(start, duration_minutes, step_seconds),
{
    if duration_minutes <= 0 || step_seconds <= 0 {
        return false;
    }
    assert(0 < duration_minutes * SECONDS_PER_MINUTE <= i64::MAX * 60) by (nonlinear_arith)
        requires
            0 < duration_minutes <= i64::MAX,
            SECONDS_PER_MINUTE == 60,
    ;
    let total: i128 = (duration_minutes as i128) * (SECONDS_PER_MINUTE as i128);
    (start.seconds as i128) + total <= (i64::MAX as i128)
}

/// Counts the instants that a scan of positive duration and step samples.
pub fn count_samples(duration_minutes: i64, step_seconds: i64) -> (n: i128)
    requires
        duration_minutes > 0,
        step_seconds > 0,
    ensures
        n == sample_count(duration_minutes, step_seconds),
{
    assert(0 < duration_minutes * SECONDS_PER_MINUTE <= i64::MAX * 60) by (nonlinear_arith)
        requires
            0 < duration_minutes <= i64::MAX,
            SECONDS_PER_MINUTE == 60,
    ;
    let total: i128 = (duration_minutes as i128) * (SECONDS_PER_MINUTE as i128);
    proof {
        lemma_sample_count_bounds(duration_minutes, step_seconds);
    }
    let whole: i128 = total / (step_seconds as i128);
    whole + 1
}

/// Predicts the visibility passes of one scan.
///
/// The scan starts at `start`, lasts `duration_minutes` and reads the elevation
/// every `step_seconds`; `elevations` holds the reading taken at each sampled
/// instant, in order. A window opens at the first reading that reaches
/// `min_elevation_deg`, closes at the first reading below it, and is closed at
/// the end of the scan if it is still open there. Window bounds are sampled
/// instants: no crossing time is interpolated.
pub fn predict_passes(
    start: Instant,
    duration_minutes: i64,
    step_seconds: i64,
    min_elevation_deg: Elevation,
    elevations: &Vec<Elevation>,
) -> (windows: Vec<PassWindow>)
    requires
        scan_admissible(start, duration_minutes, step_seconds),
        elevations.len() == sample_count(duration_minutes, step_seconds),
    ensures
        windows@ == windows_of(
            scan_samples(start, step_seconds, elevations@),
            min_elevation_deg,
            scan_end(start, duration_minutes),
        ),
        crate::pass_laws::disjoint_ascending(windows@),
        windows.len() <= elevations.len(),
        forall|k: int|
            0 <= k < windows.len() ==> (#[trigger] windows[k]).start.at_or_before(windows[k].end)
                && visible(windows[k].max_elevation_deg, min_elevation_deg),
        visible(elevations@.last(), min_elevation_deg) ==> windows.len() > 0
            && windows@.last().end == scan_end(start, duration_minutes),
{
    let ghost samples = scan_samples(start, step_seconds, elevations@);
    proof {
        crate::pass_laws::lemma_prediction_laws(
            start,
            duration_minutes,
            step_seconds,
            min_elevation_deg,
            elevations@,
        );
    }
    assert(SECONDS_PER_MINUTE == 60);
    let total: i128 = (duration_minutes as i128) * (SECONDS_PER_MINUTE as i128);
    let end_seconds: i64 = ((start.seconds as i128) + total) as i64;
    let end = Instant { seconds: end_seconds, nanos: start.nanos };
    let mut windows: Vec<PassWindow> = Vec::new();
    let mut state = SampleState::OutOfView;
    let mut i: usize = 0;
    while i < elevations.len()
        invariant
            scan_admissible(start, duration_minutes, step_seconds),
            elevations.len() == sample_count(duration_minutes, step_seconds),
            samples == scan_samples(start, step_seconds, elevations@),
            i <= elevations.len(),
            state == state_after(samples.take(i as int), min_elevation_deg),
            windows@ == closed_windows(samples.take(i as int), min_elevation_deg),
        decreases elevations.len() - i,
    {
        proof {
            let upto = samples.take(i as int + 1);
            assert(upto.drop_last() == samples.take(i as int));
            assert(upto.last() == samples[i as int]);
            lemma_step_within_scan(duration_minutes, step_seconds, i as int);
            assert(0 <= i * step_seconds) by (nonlinear_arith)
                requires
                    i >= 0,
                    step_seconds > 0,
            ;
        }
        let seconds: i64 = ((start.seconds as i128) + (i as i128) * (step_seconds as i128)) as i64;
        let sample = Sample {
            at: Instant { seconds, nanos: start.nanos },
            elevation: elevations[i],
        };
        let (next, closed) = state.advance(sample, min_elevation_deg);
        match closed {
            Some(window) => windows.push(window),
            None => {},
        }
        state = next;
        i += 1;
    }
    proof {
        assert(samples.take(i as int) == samples);
    }
    match state.finish(end) {
        Some(window) => windows.push(window),
        None => {},
    }
    windows
}

} // verus!
