//! Pacing of the playout thread: the local clock decides when a tick is written,
//! data only decides what is written. Ticks lost to a stalled backend are skipped
//! rather than caught up, the first tick lands on the frame grid (or on the first
//! frame's scheduled target), and a group schedule is never shifted by an
//! inserted silent tick.
use vstd::prelude::*;

use crate::arith::{sat_i64, seq_add, seq_inc};
use crate::jitter::{clamp_depth, clamp_to, max_frames, min_frames, PlayoutDepthAction};

verus! {

/// Pacing after waking up for a tick.
#[derive(Debug, Clone, Copy, PartialEq, Eq)]
pub struct TickPace {
    /// Whole ticks that passed while the thread was late (counted as underruns).
    pub missed: u32,
    /// When the tick after this one is due (µs).
    pub next_write_us: u64,
    /// The playout cursor, moved past the missed ticks.
    pub cursor: Option<u32>,
}

/// Ticks missed when waking at `now_us` for the tick due at `next_write_us`.
pub open spec fn missed_of(primed: bool, now_us: u64, next_write_us: u64, period_us: u64) -> int {
    if primed && now_us > next_write_us {
        let m = (now_us - next_write_us) / (period_us as int);
        if m > u32::MAX { u32::MAX as int } else { m }
    } else {
        0
    }
}

/// Account for the tick due at `next_write_us` when the thread wakes at `now_us`:
/// whole periods that already passed are skipped (the cursor moves past them) and the
/// clock phase is kept, so a stall never turns into a burst of late writes.
pub fn catch_up(primed: bool, now_us: u64, next_write_us: u64, period_us: u64, cursor: Option<u32>) -> (r: TickPace)
    requires
        period_us > 0,
        next_write_us + period_us <= u64::MAX,
        now_us + period_us <= u64::MAX,
    ensures
        r.missed == missed_of(primed, now_us, next_write_us, period_us),
        r.next_write_us == next_write_us + (r.missed as int) * (period_us as int) + period_us,
        r.cursor == (match cursor {
            Some(c) => Some(seq_add(c, r.missed as int)),
            None => None::<u32>,
        }),
{
    let mut missed: u32 = 0;
    if primed && now_us > next_write_us {
        let whole: u64 = (now_us - next_write_us) / period_us;
        missed = if whole > 4_294_967_295 { u32::MAX } else { whole as u32 };
    }
    proof {
        assert((missed as int) * (period_us as int) <= now_us - next_write_us || missed == 0) by (nonlinear_arith)
            requires
                primed && now_us > next_write_us ==> (missed as int) <= (now_us - next_write_us) / (period_us as int),
                !(primed && now_us > next_write_us) ==> missed == 0,
                period_us > 0,
        {
            if primed && now_us > next_write_us {
                let q = (now_us - next_write_us) / (period_us as int);
                assert(q * (period_us as int) <= now_us - next_write_us);
                assert((missed as int) * (period_us as int) <= q * (period_us as int));
            }
        }
    }
    let skipped: u64 = (missed as u64) * period_us;
    assert(next_write_us + skipped + period_us <= u64::MAX) by {
        if missed != 0 {
            assert(next_write_us + skipped <= now_us);
        }
    }
    let next = next_write_us + skipped + period_us;
    let moved = match cursor {
        Some(c) => Some(seq_inc(c, missed)),
        None => None,
    };
    TickPace { missed, next_write_us: next, cursor: moved }
}

/// Depth the queue must reach before playout starts: the requested depth within the
/// bounds of `frame_ms`.
pub fn prime_target(requested: usize, frame_ms: u32) -> (r: usize)
    ensures
        r == clamp_to(requested as int, min_frames(frame_ms), max_frames(frame_ms)),
{
    clamp_depth(requested, frame_ms)
}

/// Wait before the first tick (µs), see [`start_wait_us`].
pub open spec fn start_wait_of(anchor_us: i64, schedule_frame_us: i64, now_us: u64, period_us: u64) -> int {
    if schedule_frame_us > 0 {
        let now = if now_us > i64::MAX { i64::MAX as int } else { now_us as int };
        let w = sat_i64(anchor_us - now);
        if w < 0 { 0 } else { w }
    } else {
        let f = if period_us > i64::MAX { 20_000 } else if period_us == 0 { 1 } else { period_us as int };
        f - (now_us as int) % f
    }
}

/// Wait before the first tick (µs): with a schedule, until the first frame's target
/// (`anchor_us`, from [`crate::playout::playout_start_anchor`]); without one, until
/// the next multiple of the frame period.
pub fn start_wait_us(anchor_us: i64, schedule_frame_us: i64, now_us: u64, period_us: u64) -> (r: u64)
    ensures
        r == start_wait_of(anchor_us, schedule_frame_us, now_us, period_us),
{
    if schedule_frame_us > 0 {
        let now: i64 = if now_us > 9_223_372_036_854_775_807 { i64::MAX } else { now_us as i64 };
        let wide: i128 = anchor_us as i128 - now as i128;
        let wait: i64 = if wide > 9_223_372_036_854_775_807 {
            i64::MAX
        } else if wide < -9_223_372_036_854_775_808 {
            i64::MIN
        } else {
            wide as i64
        };
        if wait < 0 { 0 } else { wait as u64 }
    } else {
        let frame: u64 = if period_us > 9_223_372_036_854_775_807 {
            20_000
        } else if period_us == 0 {
            1
        } else {
            period_us
        };
        frame - now_us % frame
    }
}

/// The depth plan as applied on a tick: with a group schedule the timeline belongs to
/// the epoch, so a hold (silence without advancing) is not taken.
pub open spec fn effective_action(action: PlayoutDepthAction, scheduled: bool) -> PlayoutDepthAction {
    if scheduled && action == PlayoutDepthAction::Hold { PlayoutDepthAction::Play } else { action }
}

/// The depth plan as applied on a tick, see [`effective_action`].
pub fn depth_action_for(action: PlayoutDepthAction, scheduled: bool) -> (r: PlayoutDepthAction)
    ensures
        r == effective_action(action, scheduled),
{
    match action {
        PlayoutDepthAction::Hold => {
            if scheduled { PlayoutDepthAction::Play } else { PlayoutDepthAction::Hold }
        },
        other => other,
    }
}

/// Shared jitter depth after an underrun, and whether the queue must be refilled: one
/// frame deeper (up to the bound of `frame_ms`) without a schedule, unchanged with one.
pub open spec fn underrun_depth(depth: usize, scheduled: bool, frame_ms: u32) -> (int, bool) {
    if scheduled {
        (depth as int, false)
    } else {
        let up = depth + 1;
        (if up < max_frames(frame_ms) { up } else { max_frames(frame_ms) }, true)
    }
}

/// Shared jitter depth after an underrun, see [`underrun_depth`].
pub fn after_underrun(depth: usize, scheduled: bool, frame_ms: u32) -> (r: (usize, bool))
    ensures
        (r.0 as int, r.1) == underrun_depth(depth, scheduled, frame_ms),
{
    if scheduled {
        return (depth, false);
    }
    let ceiling = clamp_depth(usize::MAX, frame_ms);
    let up: usize = if depth >= ceiling { ceiling } else { depth + 1 };
    (up, true)
}

/// A late wake-up skips whole ticks: the next write is the first tick boundary after
/// `now_us` on the unchanged phase, never a tick already in the past.
pub proof fn law_no_catch_up_burst(now_us: u64, next_write_us: u64, period_us: u64)
    requires
        period_us > 0,
        now_us > next_write_us,
        (now_us - next_write_us) / (period_us as int) <= u32::MAX,
    ensures
        ({
            let m = missed_of(true, now_us, next_write_us, period_us);
            let next = next_write_us + m * period_us + period_us;
            &&& now_us < next
            &&& next - period_us <= now_us
            &&& (next - next_write_us) % (period_us as int) == 0
        }),
{
    let d = now_us - next_write_us;
    let p = period_us as int;
    let m = d / p;
    assert(m * p <= d < m * p + p) by (nonlinear_arith)
        requires
            p > 0,
            m == d / p,
    ;
    assert((m * p + p) % p == 0) by (nonlinear_arith)
        requires
            p > 0,
    {
        assert(m * p + p == (m + 1) * p);
        vstd::arithmetic::div_mod::lemma_mod_multiples_basic(m + 1, p);
    }
}

/// Without a schedule the first tick lands on the frame grid, at most one period away.
pub proof fn law_start_on_the_frame_grid(now_us: u64, period_us: u64)
    requires
        0 < period_us <= i64::MAX,
    ensures
        0 < start_wait_of(0, 0, now_us, period_us) <= period_us,
        (now_us + start_wait_of(0, 0, now_us, period_us)) % (period_us as int) == 0,
{
    let f = period_us as int;
    let n = now_us as int;
    let r = n % f;
    assert(0 <= r < f);
    assert(n == (n / f) * f + r) by {
        vstd::arithmetic::div_mod::lemma_fundamental_div_mod(n, f);
    }
    assert((n + (f - r)) % f == 0) by {
        assert(n + (f - r) == (n / f + 1) * f) by (nonlinear_arith)
            requires
                n == (n / f) * f + r,
        ;
        vstd::arithmetic::div_mod::lemma_mod_multiples_basic(n / f + 1, f);
    }
}

/// With a group schedule the playout never holds a tick, and an underrun leaves the
/// shared depth alone: the timeline stays on the epoch.
pub proof fn law_scheduled_playout_keeps_the_timeline(action: PlayoutDepthAction, depth: usize, frame_ms: u32)
    ensures
        effective_action(action, true) != PlayoutDepthAction::Hold,
        underrun_depth(depth, true, frame_ms) == (depth as int, false),
        action != PlayoutDepthAction::Hold ==> effective_action(action, true) == action,
        effective_action(action, false) == action,
{
}

} // verus!
