//! What holds of every scan: the order of its windows, their bounds and their number.

use vstd::prelude::*;
use crate::time::Instant;
use crate::time::SECONDS_PER_MINUTE;
use crate::passes::closed_windows;
use crate::passes::lemma_sample_count_bounds;
use crate::passes::lemma_step_within_scan;
use crate::passes::sample_count;
use crate::passes::scan_admissible;
use crate::passes::scan_end;
use crate::passes::scan_samples;
use crate::passes::state_after;
use crate::passes::visible;
use crate::passes::windows_of;
use crate::elevation::Elevation;
use crate::passes::PassWindow;
use crate::passes::Sample;
use crate::passes::SampleState;

verus! {

/// Each reading is taken later than the one before it.
pub open spec fn chronological(samples: Seq<Sample>) -> bool {
    forall|i: int, j: int|
        0 <= i < j < samples.len() ==> (#[trigger] samples[i]).at.before((#[trigger] samples[j]).at)
}

/// No reading is taken after `end`.
pub open spec fn taken_by(samples: Seq<Sample>, end: Instant) -> bool {
    forall|i: int| 0 <= i < samples.len() ==> (#[trigger] samples[i]).at.at_or_before(end)
}

/// Windows follow one another without touching: each ends before the next
/// starts, so their starts strictly increase.
pub open spec fn disjoint_ascending(windows: Seq<PassWindow>) -> bool {
    forall|i: int, j: int|
        0 <= i < j < windows.len() ==> {
            &&& (#[trigger] windows[i]).end.before((#[trigger] windows[j]).start)
            &&& windows[i].start.before(windows[j].start)
        }
}

/// How many windows a scan has opened so far, the one still open included.
pub open spec fn opened(samples: Seq<Sample>, min_elevation: Elevation) -> int {
    closed_windows(samples, min_elevation).len() + if state_after(samples, min_elevation)
        is InView {
        1int
    } else {
        0int
    }
}

/// A reading that equals the threshold is visible.
pub proof fn lemma_threshold_is_inclusive(elevation: Elevation, min_elevation: Elevation)
    requires
        elevation == min_elevation,
    ensures
        visible(elevation, min_elevation),
{
}

/// A reading that equals the threshold puts or keeps the detector in view,
/// whatever its state was, and closes no window.
pub proof fn lemma_threshold_reading_is_in_view(
    state: SampleState,
    sample: Sample,
    min_elevation: Elevation,
)
    requires
        sample.elevation == min_elevation,
    ensures
        state.next(sample, min_elevation) is InView,
        state.emits(sample, min_elevation).is_none(),
{
}

/// The shape of a scan in progress over chronological readings.
///
/// Closed windows are disjoint and ascending, each starts before it ends, ends
/// no later than the last reading and peaks at or above the threshold. An open
/// window started after every closed one ended, no later than the last
/// reading, and its running peak is at or above the threshold. The detector is
/// in view exactly when the last reading was visible.
pub proof fn lemma_scan_shape(samples: Seq<Sample>, min_elevation: Elevation)
    requires
        chronological(samples),
    ensures
        disjoint_ascending(closed_windows(samples, min_elevation)),
        forall|k: int|
            0 <= k < closed_windows(samples, min_elevation).len() ==> {
                let w = #[trigger] closed_windows(samples, min_elevation)[k];
                &&& w.start.before(w.end)
                &&& visible(w.max_elevation_deg, min_elevation)
                &&& samples.len() > 0
                &&& w.end.at_or_before(samples.last().at)
            },
        state_after(samples, min_elevation) is InView <==> samples.len() > 0 && visible(
            samples.last().elevation,
            min_elevation,
        ),
        match state_after(samples, min_elevation) {
            SampleState::InView { started_at, running_max_elevation } => {
                &&& samples.len() > 0
                &&& started_at.at_or_before(samples.last().at)
                &&& visible(running_max_elevation, min_elevation)
                &&& forall|k: int|
                    0 <= k < closed_windows(samples, min_elevation).len() ==> (
                    #[trigger] closed_windows(samples, min_elevation)[k]).end.before(started_at)
            },
            SampleState::OutOfView => true,
        },
        opened(samples, min_elevation) <= samples.len(),
    decreases samples.len(),
{
    if samples.len() > 0 {
        let earlier = samples.drop_last();
        assert(chronological(earlier)) by {
            assert forall|i: int, j: int| 0 <= i < j < earlier.len() implies (
            #[trigger] earlier[i]).at.before((#[trigger] earlier[j]).at) by {
                assert(earlier[i] == samples[i]);
                assert(earlier[j] == samples[j]);
            }
        }
        lemma_scan_shape(earlier, min_elevation);
        if earlier.len() > 0 {
            assert(earlier.last() == samples[earlier.len() - 1]);
            assert(samples[earlier.len() - 1].at.before(samples[samples.len() - 1].at));
        }
    }
}

/// Window ordering: the windows of a scan over chronological readings, none
/// taken after the end of the scan, are disjoint and strictly ascending in
/// their start, and none ends before it starts.
pub proof fn lemma_windows_ordered(samples: Seq<Sample>, min_elevation: Elevation, end: Instant)
    requires
        chronological(samples),
        taken_by(samples, end),
    ensures
        disjoint_ascending(windows_of(samples, min_elevation, end)),
        forall|k: int|
            0 <= k < windows_of(samples, min_elevation, end).len() ==> (#[trigger] windows_of(
                samples,
                min_elevation,
                end,
            )[k]).start.at_or_before(windows_of(samples, min_elevation, end)[k].end),
{
    lemma_scan_shape(samples, min_elevation);
    let closed = closed_windows(samples, min_elevation);
    let all = windows_of(samples, min_elevation, end);
    match state_after(samples, min_elevation) {
        SampleState::InView { started_at, running_max_elevation } => {
            assert(all == closed.push(
                PassWindow { start: started_at, end, max_elevation_deg: running_max_elevation },
            ));
            assert(samples.last().at.at_or_before(end));
            assert forall|i: int, j: int| 0 <= i < j < all.len() implies {
                &&& (#[trigger] all[i]).end.before((#[trigger] all[j]).start)
                &&& all[i].start.before(all[j].start)
            } by {
                assert(all[i] == closed[i]);
                if j < closed.len() {
                    assert(all[j] == closed[j]);
                }
            }
            assert forall|k: int| 0 <= k < all.len() implies (#[trigger] all[k]).start.at_or_before(
                all[k].end,
            ) by {
                if k < closed.len() {
                    assert(all[k] == closed[k]);
                }
            }
        },
        SampleState::OutOfView => {
            assert(all == closed);
        },
    }
}

/// Every window has an extent, its start before its end, when the last
/// reading is taken before the end of the scan. (A window that the very last
/// reading opens at the end of the scan starts and ends there.)
pub proof fn lemma_windows_have_extent(samples: Seq<Sample>, min_elevation: Elevation, end: Instant)
    requires
        chronological(samples),
        samples.len() > 0 ==> samples.last().at.before(end),
    ensures
        forall|k: int|
            0 <= k < windows_of(samples, min_elevation, end).len() ==> (#[trigger] windows_of(
                samples,
                min_elevation,
                end,
            )[k]).start.before(windows_of(samples, min_elevation, end)[k].end),
{
    lemma_scan_shape(samples, min_elevation);
    let closed = closed_windows(samples, min_elevation);
    let all = windows_of(samples, min_elevation, end);
    assert forall|k: int| 0 <= k < all.len() implies (#[trigger] all[k]).start.before(
        all[k].end,
    ) by {
        if k < closed.len() {
            assert(all[k] == closed[k]);
        }
    }
}

/// Every window of a scan peaks at or above the threshold that produced it.
pub proof fn lemma_windows_reach_threshold(
    samples: Seq<Sample>,
    min_elevation: Elevation,
    end: Instant,
)
    requires
        chronological(samples),
    ensures
        forall|k: int|
            0 <= k < windows_of(samples, min_elevation, end).len() ==> visible(
                (#[trigger] windows_of(samples, min_elevation, end)[k]).max_elevation_deg,
                min_elevation,
            ),
{
    lemma_scan_shape(samples, min_elevation);
    let closed = closed_windows(samples, min_elevation);
    let all = windows_of(samples, min_elevation, end);
    assert forall|k: int| 0 <= k < all.len() implies visible(
        (#[trigger] all[k]).max_elevation_deg,
        min_elevation,
    ) by {
        if k < closed.len() {
            assert(all[k] == closed[k]);
        }
    }
}

/// Boundary closure: when the last reading of a scan is visible, the scan
/// reports a final window and that window ends at the end of the scan.
pub proof fn lemma_open_window_closed_at_end(
    samples: Seq<Sample>,
    min_elevation: Elevation,
    end: Instant,
)
    requires
        samples.len() > 0,
        visible(samples.last().elevation, min_elevation),
    ensures
        windows_of(samples, min_elevation, end).len() > 0,
        windows_of(samples, min_elevation, end).last().end == end,
{
}

/// A scan never reports more windows than it took readings.
pub proof fn lemma_window_count_bounded(
    samples: Seq<Sample>,
    min_elevation: Elevation,
    end: Instant,
)
    requires
        chronological(samples),
    ensures
        windows_of(samples, min_elevation, end).len() <= samples.len(),
{
    lemma_scan_shape(samples, min_elevation);
}

/// The readings of a fixed-step scan are chronological and none is taken after
/// the end of the scan; the last one is taken at the end exactly when the step
/// divides the duration.
pub proof fn lemma_fixed_step_scan_is_chronological(
    start: Instant,
    duration_minutes: i64,
    step_seconds: i64,
    elevations: Seq<Elevation>,
)
    requires
        scan_admissible(start, duration_minutes, step_seconds),
        elevations.len() == sample_count(duration_minutes, step_seconds),
    ensures
        chronological(scan_samples(start, step_seconds, elevations)),
        taken_by(scan_samples(start, step_seconds, elevations), scan_end(start, duration_minutes)),
{
    let samples = scan_samples(start, step_seconds, elevations);
    let total = duration_minutes * SECONDS_PER_MINUTE;
    assert forall|k: int| 0 <= k < samples.len() implies 0 <= #[trigger] (k * step_seconds)
        <= total by {
        lemma_step_within_scan(duration_minutes, step_seconds, k);
        assert(0 <= k * step_seconds) by (nonlinear_arith)
            requires
                k >= 0,
                step_seconds > 0,
        ;
    }
    assert forall|i: int, j: int| 0 <= i < j < samples.len() implies (#[trigger] samples[i]).at.before(
        (#[trigger] samples[j]).at,
    ) by {
        assert(0 <= i * step_seconds <= total);
        assert(0 <= j * step_seconds <= total);
        assert(i * step_seconds < j * step_seconds) by (nonlinear_arith)
            requires
                i < j,
                step_seconds > 0,
        ;
    }
    assert forall|i: int| 0 <= i < samples.len() implies (#[trigger] samples[i]).at.at_or_before(
        scan_end(start, duration_minutes),
    ) by {
        assert(0 <= i * step_seconds <= total);
    }
}

/// The laws of a scan, stated of `predict_passes`: over any readings of a
/// well-posed scan its windows are disjoint and strictly ascending, none ends
/// before it starts, each peaks at or above the threshold, and there are no
/// more windows than sampled instants.
pub proof fn lemma_prediction_laws(
    start: Instant,
    duration_minutes: i64,
    step_seconds: i64,
    min_elevation: Elevation,
    elevations: Seq<Elevation>,
)
    requires
        scan_admissible(start, duration_minutes, step_seconds),
        elevations.len() == sample_count(duration_minutes, step_seconds),
    ensures
        ({
            let windows = windows_of(
                scan_samples(start, step_seconds, elevations),
                min_elevation,
                scan_end(start, duration_minutes),
            );
            &&& disjoint_ascending(windows)
            &&& windows.len() <= sample_count(duration_minutes, step_seconds)
            &&& forall|k: int|
                0 <= k < windows.len() ==> (#[trigger] windows[k]).start.at_or_before(
                    windows[k].end,
                ) && visible(windows[k].max_elevation_deg, min_elevation)
            &&& visible(elevations.last(), min_elevation) ==> windows.len() > 0
                && windows.last().end == scan_end(start, duration_minutes)
        }),
{
    let samples = scan_samples(start, step_seconds, elevations);
    let end = scan_end(start, duration_minutes);
    lemma_sample_count_bounds(duration_minutes, step_seconds);
    lemma_fixed_step_scan_is_chronological(start, duration_minutes, step_seconds, elevations);
    lemma_windows_ordered(samples, min_elevation, end);
    lemma_windows_reach_threshold(samples, min_elevation, end);
    lemma_window_count_bounded(samples, min_elevation, end);
    if visible(elevations.last(), min_elevation) {
        assert(samples.last().elevation == elevations.last());
        lemma_open_window_closed_at_end(samples, min_elevation, end);
    }
}

} // verus!
