//! Sustained playout backlog recovery: the engine queue and the output device's
//! queue are judged together, and only a surplus that outlasts a full window is
//! worked off, one frame per window; a burst of arrivals is not an overload.
use vstd::prelude::*;

use crate::arith::{sat_u32, sat_u64};

verus! {

/// How long a surplus must last before one frame is recovered (µs).
pub const EXCESS_WINDOW_US: u64 = 500_000;

/// Fill level reported by the output device.
#[derive(Debug, Clone, Copy, PartialEq, Eq)]
pub struct PlayoutBufferState {
    /// Frames (samples per channel) queued in the output.
    pub queued_frames: u32,
    /// Frames the output aims to keep queued.
    pub target_frames: u32,
}

/// What the playout tick does about the backlog.
#[derive(Debug, Clone, Copy, PartialEq, Eq)]
pub enum BacklogAction {
    /// Play normally.
    Play,
    /// Drop one old queued packet and play the next one, lowering the engine queue.
    DropQueued,
    /// Consume one old packet without writing the device this tick, letting the output's
    /// own backlog play out.
    DrainOutput,
}

/// Backlog observer: when the current surplus was first seen.
#[derive(Debug, Clone, Copy, Default)]
pub struct PlayoutBacklog {
    excess_since_us: Option<u64>,
}

/// One observation: the new "surplus since" and the action.
pub open spec fn backlog_step(
    since: Option<u64>,
    now_us: u64,
    queued_packets: usize,
    target_packets: usize,
    packet_frames: u32,
    output: Option<PlayoutBufferState>,
) -> (Option<u64>, BacklogAction) {
    match output {
        None => (None, BacklogAction::Play),
        Some(out) => if out.target_frames == 0 {
            (None, BacklogAction::Play)
        } else {
            let total = sat_u64(sat_u64(queued_packets * packet_frames) + out.queued_frames);
            let budget = sat_u64(sat_u64(target_packets * packet_frames) + out.target_frames);
            let action = if out.queued_frames >= sat_u32(out.target_frames + packet_frames)
                && queued_packets > 0 {
                BacklogAction::DrainOutput
            } else if queued_packets > target_packets {
                BacklogAction::DropQueued
            } else {
                BacklogAction::Play
            };
            if packet_frames == 0 || total < sat_u64(budget + packet_frames) || action is Play {
                (None, BacklogAction::Play)
            } else {
                let start = match since {
                    Some(t) => t,
                    None => now_us,
                };
                if (if now_us >= start { now_us - start } else { 0 }) < EXCESS_WINDOW_US {
                    (Some(start), BacklogAction::Play)
                } else {
                    (None, action)
                }
            }
        },
    }
}

impl PlayoutBacklog {
    /// An observer without a running surplus.
    pub fn new() -> (r: Self)
        ensures
            r.excess_since_us() is None,
    {
        PlayoutBacklog { excess_since_us: None }
    }

    /// When the current surplus was first seen (`None` = no surplus running).
    pub closed spec fn excess_since_us(&self) -> Option<u64> {
        self.excess_since_us
    }

    /// Forget the running surplus.
    pub fn reset(&mut self)
        ensures
            final(self).excess_since_us() is None,
    {
        self.excess_since_us = None;
    }

    /// One playout tick of a single, unscheduled source: `queued_packets` of
    /// `packet_frames` frames wait in the engine against `target_packets`, `output` is the
    /// device's fill level (`None` = unknown, which never takes part in the decision).
    pub fn observe(
        &mut self,
        now_us: u64,
        queued_packets: usize,
        target_packets: usize,
        packet_frames: u32,
        output: Option<PlayoutBufferState>,
    ) -> (r: BacklogAction)
        ensures
            (final(self).excess_since_us(), r) == backlog_step(
                old(self).excess_since_us(),
                now_us,
                queued_packets,
                target_packets,
                packet_frames,
                output,
            ),
    {
        let out = match output {
            Some(state) => state,
            None => {
                self.reset();
                return BacklogAction::Play;
            },
        };
        if out.target_frames == 0 {
            self.reset();
            return BacklogAction::Play;
        }
        let engine_frames = crate::arith::mul_sat_u64(queued_packets as u64, packet_frames as u64);
        let total = engine_frames.saturating_add(out.queued_frames as u64);
        let target_frames = crate::arith::mul_sat_u64(target_packets as u64, packet_frames as u64);
        let budget = target_frames.saturating_add(out.target_frames as u64);
        let action = if out.queued_frames >= out.target_frames.saturating_add(packet_frames)
            && queued_packets > 0 {
            BacklogAction::DrainOutput
        } else if queued_packets > target_packets {
            BacklogAction::DropQueued
        } else {
            BacklogAction::Play
        };
        let is_play = match action {
            BacklogAction::Play => true,
            _ => false,
        };
        if packet_frames == 0 || total < budget.saturating_add(packet_frames as u64) || is_play {
            self.reset();
            return BacklogAction::Play;
        }
        let start = match self.excess_since_us {
            Some(t) => t,
            None => now_us,
        };
        self.excess_since_us = Some(start);
        if now_us.saturating_sub(start) < EXCESS_WINDOW_US {
            return BacklogAction::Play;
        }
        self.reset();
        action
    }
}

/// A surplus seen for the first time is never acted upon: recovery needs the surplus to
/// have been running for a full window, and after one recovery the window starts over, so
/// at most one frame is recovered per window.
pub proof fn law_backlog_recovers_only_sustained_surplus(
    since: Option<u64>,
    now_us: u64,
    queued_packets: usize,
    target_packets: usize,
    packet_frames: u32,
    output: Option<PlayoutBufferState>,
)
    ensures
        backlog_step(None, now_us, queued_packets, target_packets, packet_frames, output).1 is Play,
        ({
            let (next, action) = backlog_step(
                since,
                now_us,
                queued_packets,
                target_packets,
                packet_frames,
                output,
            );
            !(action is Play) ==> {
                &&& next is None
                &&& since matches Some(t) && now_us >= t + EXCESS_WINDOW_US
            }
        }),
{
}

/// Unknown output feedback never recovers anything and clears the running surplus; the
/// output is only drained while the engine holds a packet and the device holds at least
/// one packet of frames beyond its own target (saturating at `u32::MAX`); a queued packet is
/// only dropped while the engine holds more than its target.
pub proof fn law_backlog_never_drains_dry(
    since: Option<u64>,
    now_us: u64,
    queued_packets: usize,
    target_packets: usize,
    packet_frames: u32,
    output: Option<PlayoutBufferState>,
)
    ensures
        output is None ==> backlog_step(
            since,
            now_us,
            queued_packets,
            target_packets,
            packet_frames,
            output,
        ) == (None::<u64>, BacklogAction::Play),
        backlog_step(since, now_us, queued_packets, target_packets, packet_frames, output).1 is DrainOutput
            ==> {
            &&& queued_packets > 0
            &&& output->0.queued_frames >= sat_u32(output->0.target_frames + packet_frames)
        },
        backlog_step(since, now_us, queued_packets, target_packets, packet_frames, output).1 is DropQueued
            ==> queued_packets > target_packets,
{
}

} // verus!
