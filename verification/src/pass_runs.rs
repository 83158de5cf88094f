//! The windows of a scan are its runs of visible readings.
//!
//! A run is a stretch of consecutive visible readings that cannot be extended
//! on either side. Each run gives one window: it starts with the first reading
//! of the run, ends with the reading that follows the run, or with the scan
//! where none follows, and peaks at the highest elevation read within the run.

use vstd::prelude::*;
use crate::time::Instant;
use crate::passes::closed_windows;
use crate::passes::higher;
use crate::passes::state_after;
use crate::passes::visible;
use crate::passes::windows_of;
use crate::elevation::Elevation;
use crate::passes::PassWindow;
use crate::passes::Sample;
use crate::passes::SampleState;

verus! {

/// The readings `from..to` are all visible.
pub open spec fn all_visible(samples: Seq<Sample>, min_elevation: Elevation, from: int, to: int) -> bool {
    forall|k: int| from <= k < to ==> visible((#[trigger] samples[k]).elevation, min_elevation)
}

/// The readings `from..to` are a run: all visible, with no visible reading
/// directly before or after them.
pub open spec fn is_run(samples: Seq<Sample>, min_elevation: Elevation, from: int, to: int) -> bool {
    &&& 0 <= from < to <= samples.len()
    &&& all_visible(samples, min_elevation, from, to)
    &&& from > 0 ==> !visible(samples[from - 1].elevation, min_elevation)
    &&& to < samples.len() ==> !visible(samples[to].elevation, min_elevation)
}

/// The highest elevation among the readings `from..to`.
pub open spec fn peak(samples: Seq<Sample>, from: int, to: int) -> Elevation
    decreases to - from,
{
    if to <= from + 1 {
        samples[from].elevation
    } else {
        higher(peak(samples, from, to - 1), samples[to - 1].elevation)
    }
}

/// The window of the run `from..to` in a scan that stops at `end`.
pub open spec fn window_of_run(samples: Seq<Sample>, from: int, to: int, end: Instant) -> PassWindow {
    PassWindow {
        start: samples[from].at,
        end: if to < samples.len() {
            samples[to].at
        } else {
            end
        },
        max_elevation_deg: peak(samples, from, to),
    }
}

/// Where the visible readings that end just before reading `n` begin; `n`
/// itself when the reading before it is not visible.
pub open spec fn run_start(samples: Seq<Sample>, min_elevation: Elevation, n: int) -> int
    decreases n,
{
    if n > 0 && visible(samples[n - 1].elevation, min_elevation) {
        run_start(samples, min_elevation, n - 1)
    } else {
        n
    }
}

/// The peak of a stretch is read within the stretch and no reading of the
/// stretch is higher.
pub proof fn lemma_peak_is_highest(samples: Seq<Sample>, from: int, to: int)
    requires
        0 <= from < to <= samples.len(),
    ensures
        exists|k: int| from <= k < to && (#[trigger] samples[k]).elevation == peak(samples, from, to),
        forall|k: int|
            from <= k < to ==> (#[trigger] samples[k]).elevation.rank <= peak(
                samples,
                from,
                to,
            ).rank,
    decreases to - from,
{
    if to <= from + 1 {
        assert(samples[from].elevation == peak(samples, from, to));
    } else {
        lemma_peak_is_highest(samples, from, to - 1);
        let k = choose|k: int|
            from <= k < to - 1 && (#[trigger] samples[k]).elevation == peak(samples, from, to - 1);
        if samples[to - 1].elevation.rank > peak(samples, from, to - 1).rank {
            assert(samples[to - 1].elevation == peak(samples, from, to));
        } else {
            assert(samples[k].elevation == peak(samples, from, to));
        }
    }
}

/// `run_start` marks the beginning of the visible readings before reading `n`.
pub proof fn lemma_run_start(samples: Seq<Sample>, min_elevation: Elevation, n: int)
    requires
        0 <= n <= samples.len(),
    ensures
        0 <= run_start(samples, min_elevation, n) <= n,
        all_visible(samples, min_elevation, run_start(samples, min_elevation, n), n),
        run_start(samples, min_elevation, n) > 0 ==> !visible(
            samples[run_start(samples, min_elevation, n) - 1].elevation,
            min_elevation,
        ),
        run_start(samples, min_elevation, n) < n <==> n > 0 && visible(
            samples[n - 1].elevation,
            min_elevation,
        ),
    decreases n,
{
    if n > 0 && visible(samples[n - 1].elevation, min_elevation) {
        lemma_run_start(samples, min_elevation, n - 1);
    }
}

/// Visible readings `from..to` with no visible reading before them begin
/// where `run_start` says.
pub proof fn lemma_run_start_unique(
    samples: Seq<Sample>,
    min_elevation: Elevation,
    from: int,
    to: int,
)
    requires
        0 <= from <= to <= samples.len(),
        all_visible(samples, min_elevation, from, to),
        from > 0 ==> !visible(samples[from - 1].elevation, min_elevation),
    ensures
        run_start(samples, min_elevation, to) == from,
    decreases to - from,
{
    if from < to {
        assert(visible(samples[to - 1].elevation, min_elevation));
        lemma_run_start_unique(samples, min_elevation, from, to - 1);
    }
}

/// The scan after `n` readings, told by runs: the detector is in view exactly
/// when reading `n - 1` is visible, and then holds the start and the peak of
/// the visible readings that end there; the closed windows are those of the
/// runs that a reading before `n` ends.
pub proof fn lemma_scan_by_runs(samples: Seq<Sample>, min_elevation: Elevation, n: int)
    requires
        0 <= n <= samples.len(),
    ensures
        state_after(samples.take(n), min_elevation) == if n > 0 && visible(
            samples[n - 1].elevation,
            min_elevation,
        ) {
            SampleState::InView {
                started_at: samples[run_start(samples, min_elevation, n)].at,
                running_max_elevation: peak(samples, run_start(samples, min_elevation, n), n),
            }
        } else {
            SampleState::OutOfView
        },
        forall|k: int|
            0 <= k < closed_windows(samples.take(n), min_elevation).len() ==> closes_a_run(
                samples,
                min_elevation,
                n,
                #[trigger] closed_windows(samples.take(n), min_elevation)[k],
            ),
        forall|to: int|
            0 < to < n && is_run(samples, min_elevation, run_start(samples, min_elevation, to), to)
                ==> closed_windows(samples.take(n), min_elevation).contains(
                #[trigger] closed_window_at(samples, min_elevation, to),
            ),
    decreases n,
{
    if n > 0 {
        let upto = samples.take(n);
        let earlier = samples.take(n - 1);
        assert(upto.drop_last() == earlier);
        assert(upto.last() == samples[n - 1]);
        lemma_scan_by_runs(samples, min_elevation, n - 1);
        lemma_run_start(samples, min_elevation, n - 1);
        lemma_run_start(samples, min_elevation, n);
        let before = closed_windows(earlier, min_elevation);
        let now = closed_windows(upto, min_elevation);
        let closes = n - 1 > 0 && visible(samples[n - 2].elevation, min_elevation) && !visible(
            samples[n - 1].elevation,
            min_elevation,
        );
        if closes {
            let to = n - 1;
            let from = run_start(samples, min_elevation, to);
            assert(is_run(samples, min_elevation, from, to));
            assert(now == before.push(closed_window_at(samples, min_elevation, to)));
            assert(now[before.len() as int] == closed_window_at(samples, min_elevation, to));
            assert forall|k: int| 0 <= k < now.len() implies closes_a_run(
                samples,
                min_elevation,
                n,
                #[trigger] now[k],
            ) by {
                if k < before.len() {
                    assert(now[k] == before[k]);
                    lemma_closes_a_run_later(samples, min_elevation, n - 1, before[k]);
                } else {
                    assert(now[k] == closed_window_at(samples, min_elevation, to));
                }
            }
            assert forall|t: int|
                0 < t < n && is_run(
                    samples,
                    min_elevation,
                    run_start(samples, min_elevation, t),
                    t,
                ) implies now.contains(#[trigger] closed_window_at(samples, min_elevation, t)) by {
                if t < n - 1 {
                    let k = choose|k: int|
                        0 <= k < before.len() && before[k] == closed_window_at(
                            samples,
                            min_elevation,
                            t,
                        );
                    assert(now[k] == closed_window_at(samples, min_elevation, t));
                }
            }
        } else {
            assert(now == before);
            assert forall|k: int| 0 <= k < now.len() implies closes_a_run(
                samples,
                min_elevation,
                n,
                #[trigger] now[k],
            ) by {
                lemma_closes_a_run_later(samples, min_elevation, n - 1, before[k]);
            }
            assert forall|t: int|
                0 < t < n && is_run(
                    samples,
                    min_elevation,
                    run_start(samples, min_elevation, t),
                    t,
                ) implies now.contains(#[trigger] closed_window_at(samples, min_elevation, t)) by {
                if t == n - 1 {
                    assert(visible(samples[t - 1].elevation, min_elevation));
                }
            }
        }
    }
}

/// `window` is the window of a run that a reading before `n` ends.
pub open spec fn closes_a_run(
    samples: Seq<Sample>,
    min_elevation: Elevation,
    n: int,
    window: PassWindow,
) -> bool {
    exists|to: int|
        {
            &&& 0 < to < n
            &&& is_run(samples, min_elevation, run_start(samples, min_elevation, to), to)
            &&& window == #[trigger] closed_window_at(samples, min_elevation, to)
        }
}

/// `window` is the window of a run of a scan that stops at `end`.
pub open spec fn is_window_of_a_run(
    samples: Seq<Sample>,
    min_elevation: Elevation,
    end: Instant,
    window: PassWindow,
) -> bool {
    exists|from: int, to: int|
        {
            &&& is_run(samples, min_elevation, from, to)
            &&& window == #[trigger] window_of_run(samples, from, to, end)
        }
}

/// A run that a reading before `n` ends is ended by a reading before `n + 1`.
proof fn lemma_closes_a_run_later(
    samples: Seq<Sample>,
    min_elevation: Elevation,
    n: int,
    window: PassWindow,
)
    requires
        closes_a_run(samples, min_elevation, n, window),
    ensures
        closes_a_run(samples, min_elevation, n + 1, window),
{
    let to = choose|to: int|
        {
            &&& 0 < to < n
            &&& is_run(samples, min_elevation, run_start(samples, min_elevation, to), to)
            &&& window == #[trigger] closed_window_at(samples, min_elevation, to)
        };
    assert(0 < to < n + 1);
}

/// The window that the reading `to` closes when it ends a run.
pub open spec fn closed_window_at(samples: Seq<Sample>, min_elevation: Elevation, to: int) -> PassWindow {
    PassWindow {
        start: samples[run_start(samples, min_elevation, to)].at,
        end: samples[to].at,
        max_elevation_deg: peak(samples, run_start(samples, min_elevation, to), to),
    }
}

/// The windows of a scan are the windows of its runs: every window is that of
/// a run, and every run has its window among them.
pub proof fn lemma_windows_are_the_runs(samples: Seq<Sample>, min_elevation: Elevation, end: Instant)
    ensures
        forall|k: int|
            0 <= k < windows_of(samples, min_elevation, end).len() ==> is_window_of_a_run(
                samples,
                min_elevation,
                end,
                #[trigger] windows_of(samples, min_elevation, end)[k],
            ),
        forall|from: int, to: int|
            is_run(samples, min_elevation, from, to) ==> windows_of(
                samples,
                min_elevation,
                end,
            ).contains(#[trigger] window_of_run(samples, from, to, end)),
{
    let n = samples.len() as int;
    let all = windows_of(samples, min_elevation, end);
    let closed = closed_windows(samples, min_elevation);
    assert(samples.take(n) == samples);
    lemma_scan_by_runs(samples, min_elevation, n);
    lemma_run_start(samples, min_elevation, n);
    let open = n > 0 && visible(samples[n - 1].elevation, min_elevation);
    let last_from = run_start(samples, min_elevation, n);
    if open {
        assert(all == closed.push(window_of_run(samples, last_from, n, end)));
        assert(is_run(samples, min_elevation, last_from, n));
    } else {
        assert(all == closed);
    }
    assert forall|k: int| 0 <= k < all.len() implies is_window_of_a_run(
        samples,
        min_elevation,
        end,
        #[trigger] all[k],
    ) by {
        if k < closed.len() {
            assert(all[k] == closed[k]);
            assert(closes_a_run(samples, min_elevation, n, closed[k]));
            let to = choose|to: int|
                {
                    &&& 0 < to < n
                    &&& is_run(samples, min_elevation, run_start(samples, min_elevation, to), to)
                    &&& closed[k] == #[trigger] closed_window_at(samples, min_elevation, to)
                };
            let from = run_start(samples, min_elevation, to);
            assert(all[k] == window_of_run(samples, from, to, end));
        } else {
            assert(all[k] == window_of_run(samples, last_from, n, end));
        }
    }
    assert forall|from: int, to: int| is_run(samples, min_elevation, from, to) implies all.contains(
        #[trigger] window_of_run(samples, from, to, end),
    ) by {
        lemma_run_start_unique(samples, min_elevation, from, to);
        if to < n {
            assert(closed.contains(closed_window_at(samples, min_elevation, to)));
            let k = choose|k: int|
                0 <= k < closed.len() && closed[k] == closed_window_at(samples, min_elevation, to);
            assert(all[k] == window_of_run(samples, from, to, end));
        } else {
            assert(all[closed.len() as int] == window_of_run(samples, from, to, end));
        }
    }
}

/// Every visible reading of a scan falls within one of its windows: at or
/// after the start of the window and at or before its end.
pub proof fn lemma_visible_readings_are_covered(
    samples: Seq<Sample>,
    min_elevation: Elevation,
    end: Instant,
    k: int,
)
    requires
        crate::pass_laws::chronological(samples),
        crate::pass_laws::taken_by(samples, end),
        0 <= k < samples.len(),
        visible(samples[k].elevation, min_elevation),
    ensures
        exists|i: int|
            {
                &&& 0 <= i < windows_of(samples, min_elevation, end).len()
                &&& (#[trigger] windows_of(samples, min_elevation, end)[i]).start.at_or_before(
                    samples[k].at,
                )
                &&& samples[k].at.at_or_before(windows_of(samples, min_elevation, end)[i].end)
                &&& samples[k].elevation.rank <= windows_of(
                    samples,
                    min_elevation,
                    end,
                )[i].max_elevation_deg.rank
            },
{
    let n = samples.len() as int;
    let to = run_end(samples, min_elevation, k + 1);
    lemma_run_end(samples, min_elevation, k + 1);
    lemma_run_start(samples, min_elevation, k + 1);
    let from = run_start(samples, min_elevation, k + 1);
    assert(is_run(samples, min_elevation, from, to));
    lemma_windows_are_the_runs(samples, min_elevation, end);
    let all = windows_of(samples, min_elevation, end);
    assert(all.contains(window_of_run(samples, from, to, end)));
    let i = choose|i: int| 0 <= i < all.len() && all[i] == window_of_run(samples, from, to, end);
    lemma_peak_is_highest(samples, from, to);
    if from < k {
        assert(samples[from].at.before(samples[k].at));
    }
    if to < n {
        assert(samples[k].at.before(samples[to].at));
    } else {
        assert(samples[k].at.at_or_before(end));
    }
    assert(all[i].start.at_or_before(samples[k].at));
}

/// Where the visible readings that begin at or before reading `n - 1` and
/// include it end: the index of the first reading from `n` on that is not
/// visible, or the number of readings when there is none.
pub open spec fn run_end(samples: Seq<Sample>, min_elevation: Elevation, n: int) -> int
    decreases samples.len() - n,
{
    if n < samples.len() && visible(samples[n].elevation, min_elevation) {
        run_end(samples, min_elevation, n + 1)
    } else {
        n
    }
}

/// `run_end` marks the end of the visible readings from reading `n` on.
pub proof fn lemma_run_end(samples: Seq<Sample>, min_elevation: Elevation, n: int)
    requires
        0 <= n <= samples.len(),
    ensures
        n <= run_end(samples, min_elevation, n) <= samples.len(),
        all_visible(samples, min_elevation, n, run_end(samples, min_elevation, n)),
        run_end(samples, min_elevation, n) < samples.len() ==> !visible(
            samples[run_end(samples, min_elevation, n)].elevation,
            min_elevation,
        ),
    decreases samples.len() - n,
{
    if n < samples.len() && visible(samples[n].elevation, min_elevation) {
        lemma_run_end(samples, min_elevation, n + 1);
    }
}

} // verus!
