//! Playout watchdog: the link still delivers audio but the device has taken no
//! frame for a full window → rebuild the sink; failed rebuilds back off exponentially.
use vstd::prelude::*;

verus! {

/// "No output" window (µs).
pub const OUTPUT_STALL_WINDOW_US: u64 = 2_000_000;

/// First backoff after a failed rebuild (µs).
pub const REBUILD_BACKOFF_START_US: u64 = 2_000_000;

/// Backoff ceiling (µs).
pub const REBUILD_BACKOFF_MAX_US: u64 = 30_000_000;

/// Why a rebuild is due.
#[derive(Debug, Clone, Copy, PartialEq, Eq)]
pub struct OutputStall {
    /// Time since the last audible output (µs).
    pub silent_for_us: u64,
    /// The link kept delivering real frames meanwhile (always `true` when reported).
    pub link_fed_frames: bool,
}

/// The watchdog state.
#[derive(Debug)]
pub struct SinkWatchdog {
    last_output_us: u64,
    last_ready_us: u64,
    next_attempt_us: u64,
    backoff_us: u64,
    rebuilds: u32,
    attempts: u32,
}

/// Abstract watchdog state.
pub struct WatchdogModel {
    pub last_output_us: u64,
    pub last_ready_us: u64,
    pub next_attempt_us: u64,
    pub backoff_us: u64,
    pub rebuilds: int,
    pub attempts: int,
}

impl View for SinkWatchdog {
    type V = WatchdogModel;

    closed spec fn view(&self) -> WatchdogModel {
        WatchdogModel {
            last_output_us: self.last_output_us,
            last_ready_us: self.last_ready_us,
            next_attempt_us: self.next_attempt_us,
            backoff_us: self.backoff_us,
            rebuilds: self.rebuilds as int,
            attempts: self.attempts as int,
        }
    }
}

/// `now - then`, 0 when `then` is later.
pub open spec fn since(now: u64, then: u64) -> int {
    if now >= then { now - then } else { 0 }
}

/// The verdict of a poll at `now`.
pub open spec fn stall_at(m: WatchdogModel, now: u64) -> Option<OutputStall> {
    if now < m.next_attempt_us {
        None
    } else if since(now, m.last_output_us) < OUTPUT_STALL_WINDOW_US {
        None
    } else if since(now, m.last_ready_us) >= OUTPUT_STALL_WINDOW_US {
        None
    } else {
        Some(OutputStall { silent_for_us: since(now, m.last_output_us) as u64, link_fed_frames: true })
    }
}

/// Saturating `u32` increment.
pub open spec fn inc_u32(x: int) -> int {
    if x + 1 > u32::MAX { u32::MAX as int } else { x + 1 }
}

impl SinkWatchdog {
    /// Invariant: the backoff stays within its bounds.
    pub closed spec fn wf(&self) -> bool {
        REBUILD_BACKOFF_START_US <= self.backoff_us <= REBUILD_BACKOFF_MAX_US
    }

    /// A watchdog started at `now_us` (playout start; nothing fires before a full window).
    pub fn new(now_us: u64) -> (r: Self)
        ensures
            r.wf(),
            r@ == (WatchdogModel {
                last_output_us: now_us,
                last_ready_us: now_us,
                next_attempt_us: now_us,
                backoff_us: REBUILD_BACKOFF_START_US,
                rebuilds: 0,
                attempts: 0,
            }),
    {
        SinkWatchdog {
            last_output_us: now_us,
            last_ready_us: now_us,
            next_attempt_us: now_us,
            backoff_us: REBUILD_BACKOFF_START_US,
            rebuilds: 0,
            attempts: 0,
        }
    }

    /// The link delivered a real audio frame.
    pub fn note_ready_frame(&mut self, now_us: u64)
        requires
            old(self).wf(),
        ensures
            final(self).wf(),
            final(self)@ == (WatchdogModel { last_ready_us: now_us, ..old(self)@ }),
    {
        self.last_ready_us = now_us;
    }

    /// A real audio frame was submitted; `frames_delta` is how much the sink's ledger grew.
    pub fn note_audible_submit(&mut self, now_us: u64, frames_delta: u64)
        requires
            old(self).wf(),
        ensures
            final(self).wf(),
            final(self)@ == (if frames_delta > 0 {
                WatchdogModel { last_output_us: now_us, ..old(self)@ }
            } else {
                old(self)@
            }),
    {
        if frames_delta > 0 {
            self.last_output_us = now_us;
        }
    }

    /// Is a rebuild due? `Some` when no audible output for a full window while the link
    /// kept feeding frames, outside the backoff period.
    pub fn poll(&mut self, now_us: u64) -> (r: Option<OutputStall>)
        requires
            old(self).wf(),
        ensures
            final(self).wf(),
            final(self)@ == old(self)@,
            r == stall_at(old(self)@, now_us),
    {
        if now_us < self.next_attempt_us {
            return None;
        }
        let silent_for = now_us.saturating_sub(self.last_output_us);
        if silent_for < OUTPUT_STALL_WINDOW_US {
            return None;
        }
        if now_us.saturating_sub(self.last_ready_us) >= OUTPUT_STALL_WINDOW_US {
            return None;
        }
        Some(OutputStall { silent_for_us: silent_for, link_fed_frames: true })
    }

    /// Outcome of a rebuild attempt: success restarts the clock with a full window, failure
    /// waits the current backoff and doubles it (up to the ceiling).
    pub fn note_rebuild_attempt(&mut self, now_us: u64, rebuilt: bool)
        requires
            old(self).wf(),
            now_us <= u64::MAX - REBUILD_BACKOFF_MAX_US,
        ensures
            final(self).wf(),
            final(self)@.attempts == inc_u32(old(self)@.attempts),
            final(self)@.last_ready_us == old(self)@.last_ready_us,
            rebuilt ==> {
                &&& final(self)@.rebuilds == inc_u32(old(self)@.rebuilds)
                &&& final(self)@.backoff_us == REBUILD_BACKOFF_START_US
                &&& final(self)@.last_output_us == now_us
                &&& final(self)@.next_attempt_us == now_us + OUTPUT_STALL_WINDOW_US
            },
            !rebuilt ==> {
                &&& final(self)@.rebuilds == old(self)@.rebuilds
                &&& final(self)@.last_output_us == old(self)@.last_output_us
                &&& final(self)@.next_attempt_us == now_us + old(self)@.backoff_us
                &&& final(self)@.backoff_us == (if old(self)@.backoff_us * 2 > REBUILD_BACKOFF_MAX_US {
                    REBUILD_BACKOFF_MAX_US as int
                } else {
                    old(self)@.backoff_us * 2
                })
            },
    {
        self.attempts = self.attempts.saturating_add(1);
        if rebuilt {
            self.rebuilds = self.rebuilds.saturating_add(1);
            self.backoff_us = REBUILD_BACKOFF_START_US;
            self.last_output_us = now_us;
            self.next_attempt_us = now_us + OUTPUT_STALL_WINDOW_US;
        } else {
            self.next_attempt_us = now_us + self.backoff_us;
            let doubled = self.backoff_us * 2;
            self.backoff_us = if doubled > REBUILD_BACKOFF_MAX_US { REBUILD_BACKOFF_MAX_US } else { doubled };
        }
    }

    /// Successful rebuilds.
    pub fn rebuilds(&self) -> (r: u32)
        ensures
            r == self@.rebuilds,
    {
        self.rebuilds
    }

    /// Rebuild attempts, failed ones included.
    pub fn attempts(&self) -> (r: u32)
        ensures
            r == self@.attempts,
    {
        self.attempts
    }
}

/// A rebuild is only reported when the sink took no audible frame for a full window while
/// the link kept delivering real frames within that window, and never inside the backoff.
pub proof fn law_stall_needs_a_silent_sink_and_a_fed_link(m: WatchdogModel, now: u64)
    ensures
        stall_at(m, now) is Some ==> {
            &&& since(now, m.last_output_us) >= OUTPUT_STALL_WINDOW_US
            &&& since(now, m.last_ready_us) < OUTPUT_STALL_WINDOW_US
            &&& now >= m.next_attempt_us
            &&& stall_at(m, now)->0.silent_for_us == since(now, m.last_output_us)
            &&& stall_at(m, now)->0.link_fed_frames
        },
{
}

/// Any audible output restarts the window: for a full window after it no stall is reported.
pub proof fn law_audible_output_resets_the_window(m: WatchdogModel, output_at: u64, now: u64)
    requires
        output_at <= now < output_at + OUTPUT_STALL_WINDOW_US,
    ensures
        stall_at(WatchdogModel { last_output_us: output_at, ..m }, now) is None,
{
}

/// The rebuild backoff stays between `REBUILD_BACKOFF_START_US` and `REBUILD_BACKOFF_MAX_US`.
pub proof fn law_backoff_is_bounded(watchdog: &SinkWatchdog)
    requires
        watchdog.wf(),
    ensures
        REBUILD_BACKOFF_START_US <= watchdog@.backoff_us <= REBUILD_BACKOFF_MAX_US,
{
}

} // verus!
