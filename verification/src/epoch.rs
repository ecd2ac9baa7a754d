//! Scheduled playout on the receiving side: mapping a packet's first sample onto
//! the local clock axis and deciding wait / play / drop for one tick.
use vstd::prelude::*;

use crate::arith::{add_sat_i64, sat_i64};

verus! {

/// Locked protocol sample rate (48 kHz).
pub const SAMPLE_RATE_HZ: u64 = 48_000;

/// A frame later than its target by more than this is dropped (ms).
pub const LATE_LIMIT_MS: u64 = 20;

/// A frame this close to its target counts as due (µs).
pub const EARLY_TOLERANCE_US: i64 = 2_000;

/// Length of a frame of `frame_samples` samples, in µs (0 samples counts as 1).
pub open spec fn frame_us_of(frame_samples: u32) -> int {
    (if frame_samples == 0 { 1int } else { frame_samples as int }) * 1_000_000 / 48_000
}

/// Microseconds per frame of `frame_samples` samples at 48 kHz.
pub fn frame_us(frame_samples: u32) -> (r: i64)
    ensures
        r == frame_us_of(frame_samples),
        r >= 0,
        frame_samples <= 1 ==> r == 20,
        frame_samples >= 1 ==> r >= 20,
{
    let samples: u32 = if frame_samples == 0 { 1 } else { frame_samples };
    let wide: i64 = samples as i64;
    proof {
        assert(wide * 1_000_000 <= 4_294_967_295 * 1_000_000) by (nonlinear_arith)
            requires 0 <= wide <= 4_294_967_295;
        assert(wide * 1_000_000 / 48_000 >= 20) by (nonlinear_arith)
            requires wide >= 1;
    }
    wide * 1_000_000 / 48_000
}

/// Group epoch announced by the sender.
#[derive(Debug, Clone, Copy, PartialEq, Eq)]
pub struct EpochSchedule {
    /// Identifier of the group epoch; a rebuilt session gets a new one.
    pub epoch_id: u64,
    /// Instant of the epoch on the sender's monotonic clock (µs).
    pub epoch_local_us: u64,
    /// Scheduling lead (ms).
    pub lead_ms: u32,
}

/// What to do with a frame on this tick.
#[derive(Debug, Clone, Copy, PartialEq, Eq)]
pub enum PlayoutAction {
    /// Target not reached: fill this tick with silence and keep the cursor.
    Wait {
        /// How long until the target (µs).
        wait_us: u64,
    },
    /// Due: hand the frame to the player.
    Play,
    /// More than the late limit behind the target: drop it.
    Drop {
        /// How late the frame is (µs).
        late_us: u64,
    },
}

/// Local epoch before the sample offset: `epoch_local_us - offset_us`.
pub open spec fn local_epoch_of(s: EpochSchedule, offset_us: i64) -> int {
    (s.epoch_local_us as i64) - offset_us
}

/// Offset of sample `i` from the epoch, in µs.
pub open spec fn sample_offset_us(sample_index: u32) -> int {
    (sample_index as int) * 1_000_000 / 48_000
}

/// Target instant of a frame on the local axis (µs), saturating at the `i64` bounds.
pub open spec fn target_of(s: EpochSchedule, sample_index: u32, offset_us: i64) -> int {
    sat_i64(
        sat_i64(local_epoch_of(s, offset_us) + sample_offset_us(sample_index)) + (s.lead_ms as int)
            * 1000,
    )
}

/// The epoch mapped to the local axis fits in `i64`.
pub open spec fn schedule_fits(s: EpochSchedule, offset_us: i64) -> bool {
    i64::MIN <= local_epoch_of(s, offset_us) <= i64::MAX
}

/// The decision of the scheduler for a frame whose target is `target`.
pub open spec fn action_of(now_local_us: i64, target: int) -> PlayoutAction {
    if sat_i64(now_local_us + EARLY_TOLERANCE_US) < target {
        PlayoutAction::Wait { wait_us: (target - now_local_us) as u64 }
    } else if now_local_us - target > LATE_LIMIT_MS * 1000 {
        PlayoutAction::Drop { late_us: (now_local_us - target) as u64 }
    } else {
        PlayoutAction::Play
    }
}

impl EpochSchedule {
    pub fn new(epoch_id: u64, epoch_local_us: u64, lead_ms: u32) -> (r: Self)
        ensures
            r == (EpochSchedule { epoch_id, epoch_local_us, lead_ms }),
    {
        EpochSchedule { epoch_id, epoch_local_us, lead_ms }
    }

    /// Target instant (local clock, µs) of the frame whose first sample is `sample_index`;
    /// `offset_us` is the clock estimate "peer minus local".
    pub fn local_target_us(&self, sample_index: u32, offset_us: i64) -> (r: i64)
        requires
            schedule_fits(*self, offset_us),
        ensures
            r == target_of(*self, sample_index, offset_us),
    {
        let local_epoch_us: i64 = (self.epoch_local_us as i64) - offset_us;
        let wide: i64 = sample_index as i64;
        proof {
            assert(wide * 1_000_000 <= 4_294_967_295 * 1_000_000) by (nonlinear_arith)
                requires 0 <= wide <= 4_294_967_295;
            assert(wide * 1_000_000 >= 0) by (nonlinear_arith)
                requires 0 <= wide;
        }
        let sample_offset: i64 = wide * 1_000_000 / 48_000;
        let lead: i64 = (self.lead_ms as i64) * 1_000;
        add_sat_i64(add_sat_i64(local_epoch_us, sample_offset), lead)
    }

    /// Same instant as `local_target_us`, without any grid alignment.
    pub fn target_us(&self, sample_index: u32, offset_us: i64) -> (r: i64)
        requires
            schedule_fits(*self, offset_us),
        ensures
            r == target_of(*self, sample_index, offset_us),
    {
        self.local_target_us(sample_index, offset_us)
    }

    /// Phase of the frame's target on the frame grid (Euclidean remainder).
    pub fn phase_us(&self, sample_index: u32, offset_us: i64, frame_samples: u32) -> (r: i64)
        requires
            schedule_fits(*self, offset_us),
        ensures
            r == target_of(*self, sample_index, offset_us) % frame_us_of(frame_samples),
            0 <= r < frame_us_of(frame_samples),
    {
        let frame = frame_us(frame_samples);
        let target = self.target_us(sample_index, offset_us);
        match target.checked_rem_euclid(frame) {
            Some(v) => v,
            None => 0,
        }
    }

    /// Wait / play / drop decision for a frame at local time `now_local_us`.
    pub fn action(&self, now_local_us: i64, sample_index: u32, offset_us: i64) -> (r: PlayoutAction)
        requires
            schedule_fits(*self, offset_us),
            -(i64::MAX as int) <= target_of(*self, sample_index, offset_us) - now_local_us
                <= i64::MAX,
        ensures
            r == action_of(now_local_us, target_of(*self, sample_index, offset_us)),
    {
        let target = self.target_us(sample_index, offset_us);
        let now_within_tolerance = add_sat_i64(now_local_us, EARLY_TOLERANCE_US);
        if now_within_tolerance < target {
            return PlayoutAction::Wait { wait_us: (target - now_local_us) as u64 };
        }
        let behind_us = now_local_us - target;
        if behind_us > (LATE_LIMIT_MS as i64) * 1_000 {
            return PlayoutAction::Drop { late_us: behind_us as u64 };
        }
        PlayoutAction::Play
    }
}

/// A later sample is never scheduled earlier: targets grow with the sample index.
pub proof fn law_target_is_monotone(s: EpochSchedule, i: u32, j: u32, offset_us: i64)
    requires
        i <= j,
    ensures
        target_of(s, i, offset_us) <= target_of(s, j, offset_us),
{
    assert(sample_offset_us(i) <= sample_offset_us(j)) by (nonlinear_arith)
        requires
            i <= j,
            sample_offset_us(i) == (i as int) * 1_000_000 / 48_000,
            sample_offset_us(j) == (j as int) * 1_000_000 / 48_000,
    ;
}

/// Without saturation the target is the documented formula
/// `epoch_local_us - offset_us + sample_index / 48 kHz + lead_ms`, so a peer clock ahead by
/// `d` more moves every target `d` earlier on the local axis.
pub proof fn law_offset_shifts_target(s: EpochSchedule, i: u32, offset_a: i64, offset_b: i64)
    requires
        i64::MIN <= local_epoch_of(s, offset_a) + sample_offset_us(i) + (s.lead_ms as int) * 1000
            <= i64::MAX,
        i64::MIN <= local_epoch_of(s, offset_b) + sample_offset_us(i) + (s.lead_ms as int) * 1000
            <= i64::MAX,
        schedule_fits(s, offset_a),
        schedule_fits(s, offset_b),
    ensures
        target_of(s, i, offset_a) == local_epoch_of(s, offset_a) + sample_offset_us(i) + (
        s.lead_ms as int) * 1000,
        target_of(s, i, offset_b) - target_of(s, i, offset_a) == offset_a - offset_b,
{
    assert(sample_offset_us(i) >= 0) by (nonlinear_arith)
        requires
            sample_offset_us(i) == (i as int) * 1_000_000 / 48_000,
    ;
    assert((s.lead_ms as int) * 1000 >= 0);
}

/// The phase places the target on the frame grid: the target minus its phase is a whole
/// number of frames.
pub proof fn law_target_lies_on_its_phase_grid(target: int, frame_samples: u32)
    ensures
        (target - target % frame_us_of(frame_samples)) % frame_us_of(frame_samples) == 0,
{
    let f = frame_us_of(frame_samples);
    assert(f >= 20) by (nonlinear_arith)
        requires
            f == (if frame_samples == 0 { 1int } else { frame_samples as int }) * 1_000_000 / 48_000,
    ;
    vstd::arithmetic::div_mod::lemma_fundamental_div_mod(target, f);
    vstd::arithmetic::div_mod::lemma_mod_multiples_basic(target / f, f);
    assert(target - target % f == f * (target / f));
    assert((target / f) * f == f * (target / f)) by (nonlinear_arith);
}

/// The three windows of the scheduler: more than the early tolerance before the target
/// waits, more than the late limit after it drops, everything in between plays.
pub proof fn law_action_windows(now_local_us: i64, target: int)
    requires
        now_local_us + EARLY_TOLERANCE_US <= i64::MAX,
    ensures
        action_of(now_local_us, target) is Wait <==> now_local_us + EARLY_TOLERANCE_US < target,
        action_of(now_local_us, target) is Drop <==> (target <= now_local_us + EARLY_TOLERANCE_US
            && now_local_us - target > LATE_LIMIT_MS * 1000),
        action_of(now_local_us, target) is Play <==> (target - EARLY_TOLERANCE_US <= now_local_us
            && now_local_us - target <= LATE_LIMIT_MS * 1000),
{
}

} // verus!
