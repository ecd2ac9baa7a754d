//! Continuous-silence ledger of one playout path: tick by tick it tracks the
//! current run of silent ticks and books a run as a segment when it ends, so
//! that "the longest gap" can be told apart from "how much silence in total".
//!
//! Whether a tick is silent (its PCM peak against a threshold) is decided by
//! the caller; this ledger books the durations.
use vstd::prelude::*;

verus! {

/// A run must last at least this long to count as a segment (ms).
pub const MIN_SILENCE_MS: u64 = 200;

/// A run of silent ticks: where it started and how it splits between silent content and
/// silence the engine filled in.
#[derive(Debug, Clone, Copy, PartialEq, Eq, Structural)]
pub struct SilenceRun {
    /// Start of the run (ms since playout start).
    pub start_ms: u64,
    /// Length of the run (ms).
    pub duration_ms: u64,
    /// Part where real frames carried silent content (ms).
    pub content_ms: u64,
    /// Part where the engine filled silence in (ms).
    pub synthetic_ms: u64,
}

/// Snapshot of the ledger.
#[derive(Debug, Clone, Copy, PartialEq, Eq, Structural)]
pub struct SilenceSnapshot {
    /// Observed tick time (ms): the denominator of the silence share.
    pub planned_ms: u64,
    /// Silent time in total (ms), the running run included.
    pub silent_ms: u64,
    /// Longest run so far (ms), the running run included.
    pub longest_ms: u64,
    /// Length of the running run (ms; 0 = not silent now).
    pub current_ms: u64,
    /// Runs booked as segments.
    pub segments: u32,
}

impl Default for SilenceSnapshot {
    fn default() -> (r: Self)
        ensures
            r == (SilenceSnapshot { planned_ms: 0, silent_ms: 0, longest_ms: 0, current_ms: 0, segments: 0 }),
    {
        SilenceSnapshot { planned_ms: 0, silent_ms: 0, longest_ms: 0, current_ms: 0, segments: 0 }
    }
}

/// Tick-by-tick silence ledger.
#[derive(Debug, Clone, Copy, PartialEq, Eq, Structural)]
pub struct SilenceTracker {
    /// Shortest run booked as a segment (ms).
    pub min_ms: u64,
    /// Time since playout start (ms).
    pub elapsed_ms: u64,
    pub planned_ms: u64,
    pub silent_ms: u64,
    pub longest_ms: u64,
    pub segments: u32,
    /// The running run, if the last tick was silent.
    pub run: Option<SilenceRun>,
}

/// Saturating `u64` addition.
pub open spec fn add_u64(a: u64, b: u64) -> u64 {
    if a + b > u64::MAX { u64::MAX } else { (a + b) as u64 }
}

/// Saturating `u32` increment.
pub open spec fn inc_segments(x: u32) -> u32 {
    if x == u32::MAX { u32::MAX } else { (x + 1) as u32 }
}

/// Closing the running run: the ledger without it, and the run when it is long enough to be
/// a segment.
pub open spec fn closed(t: SilenceTracker) -> (SilenceTracker, Option<SilenceRun>) {
    match t.run {
        None => (t, None),
        Some(run) => if run.duration_ms < t.min_ms {
            (SilenceTracker { run: None, ..t }, None)
        } else {
            (SilenceTracker { run: None, segments: inc_segments(t.segments), ..t }, Some(run))
        },
    }
}

/// One tick of `frame_ms`: silent ticks extend (or open) the run, a sounding tick closes it.
pub open spec fn ticked(t: SilenceTracker, silent: bool, frame_ms: u32, synthetic: bool) -> (
    SilenceTracker,
    Option<SilenceRun>,
) {
    let t1 = SilenceTracker {
        elapsed_ms: add_u64(t.elapsed_ms, frame_ms as u64),
        planned_ms: add_u64(t.planned_ms, frame_ms as u64),
        ..t
    };
    if !silent {
        closed(t1)
    } else {
        let run0 = match t.run {
            Some(r) => r,
            None => SilenceRun { start_ms: t.elapsed_ms, duration_ms: 0, content_ms: 0, synthetic_ms: 0 },
        };
        let run1 = SilenceRun {
            duration_ms: add_u64(run0.duration_ms, frame_ms as u64),
            content_ms: if synthetic { run0.content_ms } else { add_u64(run0.content_ms, frame_ms as u64) },
            synthetic_ms: if synthetic { add_u64(run0.synthetic_ms, frame_ms as u64) } else { run0.synthetic_ms },
            ..run0
        };
        (
            SilenceTracker {
                silent_ms: add_u64(t.silent_ms, frame_ms as u64),
                longest_ms: if run1.duration_ms > t.longest_ms { run1.duration_ms } else { t.longest_ms },
                run: Some(run1),
                ..t1
            },
            None,
        )
    }
}

/// The snapshot of a ledger.
pub open spec fn snapshot_of(t: SilenceTracker) -> SilenceSnapshot {
    SilenceSnapshot {
        planned_ms: t.planned_ms,
        silent_ms: t.silent_ms,
        longest_ms: t.longest_ms,
        current_ms: match t.run {
            Some(r) => r.duration_ms,
            None => 0,
        },
        segments: t.segments,
    }
}

/// The totals of a ledger are consistent: silence never exceeds the observed time, the
/// running run fits in the silence and in the longest run, and its two parts cover it.
pub open spec fn silence_consistent(t: SilenceTracker) -> bool {
    &&& t.silent_ms <= t.planned_ms
    &&& (t.run matches Some(r) ==> {
        &&& r.duration_ms <= t.silent_ms
        &&& r.duration_ms <= t.longest_ms
        &&& r.content_ms <= r.duration_ms
        &&& r.synthetic_ms <= r.duration_ms
        &&& r.duration_ms <= r.content_ms + r.synthetic_ms
    })
}

impl SilenceTracker {
    /// An empty ledger booking runs of at least `min_ms` as segments.
    pub fn new(min_ms: u64) -> (r: Self)
        ensures
            r == (SilenceTracker {
                min_ms,
                elapsed_ms: 0,
                planned_ms: 0,
                silent_ms: 0,
                longest_ms: 0,
                segments: 0,
                run: None,
            }),
    {
        SilenceTracker { min_ms, elapsed_ms: 0, planned_ms: 0, silent_ms: 0, longest_ms: 0, segments: 0, run: None }
    }

    /// Observe one tick of `frame_ms`; `silent` tells whether it was silent, `synthetic`
    /// whether the engine filled it in. Returns the segment this tick ended, if any.
    pub fn observe(&mut self, silent: bool, frame_ms: u32, synthetic: bool) -> (r: Option<SilenceRun>)
        ensures
            (*final(self), r) == ticked(*old(self), silent, frame_ms, synthetic),
    {
        let frame = frame_ms as u64;
        let start_ms = self.elapsed_ms;
        self.elapsed_ms = self.elapsed_ms.saturating_add(frame);
        self.planned_ms = self.planned_ms.saturating_add(frame);
        if !silent {
            return self.close_run();
        }
        self.silent_ms = self.silent_ms.saturating_add(frame);
        let mut run = match self.run {
            Some(r) => r,
            None => SilenceRun { start_ms, duration_ms: 0, content_ms: 0, synthetic_ms: 0 },
        };
        run.duration_ms = run.duration_ms.saturating_add(frame);
        if synthetic {
            run.synthetic_ms = run.synthetic_ms.saturating_add(frame);
        } else {
            run.content_ms = run.content_ms.saturating_add(frame);
        }
        if run.duration_ms > self.longest_ms {
            self.longest_ms = run.duration_ms;
        }
        self.run = Some(run);
        None
    }

    /// Book the running run (session or stream closing) so the last silence is not lost.
    pub fn finish(&mut self) -> (r: Option<SilenceRun>)
        ensures
            (*final(self), r) == closed(*old(self)),
    {
        self.close_run()
    }

    fn close_run(&mut self) -> (r: Option<SilenceRun>)
        ensures
            (*final(self), r) == closed(*old(self)),
    {
        let run = match self.run {
            Some(r) => r,
            None => {
                return None;
            },
        };
        self.run = None;
        if run.duration_ms < self.min_ms {
            return None;
        }
        self.segments = self.segments.saturating_add(1);
        Some(run)
    }

    /// Current snapshot (the running run counts into `longest_ms` and `current_ms`).
    pub fn snapshot(&self) -> (r: SilenceSnapshot)
        ensures
            r == snapshot_of(*self),
    {
        SilenceSnapshot {
            planned_ms: self.planned_ms,
            silent_ms: self.silent_ms,
            longest_ms: self.longest_ms,
            current_ms: match self.run {
                Some(r) => r.duration_ms,
                None => 0,
            },
            segments: self.segments,
        }
    }

    /// Clear every total (session rebuild); the segment threshold stays.
    pub fn reset(&mut self)
        ensures
            *final(self) == (SilenceTracker {
                min_ms: old(self).min_ms,
                elapsed_ms: 0,
                planned_ms: 0,
                silent_ms: 0,
                longest_ms: 0,
                segments: 0,
                run: None,
            }),
    {
        self.elapsed_ms = 0;
        self.planned_ms = 0;
        self.silent_ms = 0;
        self.longest_ms = 0;
        self.segments = 0;
        self.run = None;
    }
}

impl Default for SilenceTracker {
    fn default() -> (r: Self)
        ensures
            r == SilenceTracker::new_spec(MIN_SILENCE_MS),
    {
        SilenceTracker::new(MIN_SILENCE_MS)
    }
}

impl SilenceTracker {
    /// The empty ledger with threshold `min_ms`.
    pub open spec fn new_spec(min_ms: u64) -> SilenceTracker {
        SilenceTracker {
            min_ms,
            elapsed_ms: 0,
            planned_ms: 0,
            silent_ms: 0,
            longest_ms: 0,
            segments: 0,
            run: None,
        }
    }
}

/// Every tick keeps the totals consistent (silence within the observed time, the running
/// run within the silence and the longest run, split into content and filled-in parts).
pub proof fn law_silence_totals_stay_consistent(t: SilenceTracker, silent: bool, frame_ms: u32, synthetic: bool)
    requires
        silence_consistent(t),
    ensures
        silence_consistent(ticked(t, silent, frame_ms, synthetic).0),
        silence_consistent(closed(t).0),
        silence_consistent(SilenceTracker::new_spec(t.min_ms)),
{
}

/// A segment is reported only when a run of at least `min_ms` ends, exactly once: the
/// ledger has no running run afterwards, and a run shorter than `min_ms` is never a segment
/// (but still counts into the longest run).
pub proof fn law_segments_are_long_runs_reported_once(t: SilenceTracker, silent: bool, frame_ms: u32, synthetic: bool)
    ensures
        ({
            let (n, seg) = ticked(t, silent, frame_ms, synthetic);
            &&& (silent ==> seg is None)
            &&& (seg matches Some(run) ==> run.duration_ms >= t.min_ms && t.run == Some(run) && n.run is None
                && n.segments == inc_segments(t.segments))
            &&& (!silent && (t.run matches Some(run) && run.duration_ms < t.min_ms) ==> seg is None
                && n.segments == t.segments)
        }),
        closed(closed(t).0).1 is None,
{
}

} // verus!
