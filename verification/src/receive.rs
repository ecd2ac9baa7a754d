//! Sequence decisions of the receive path: how a decoded stream treats a gap
//! before an arriving packet (conceal, give up, rebuild the timeline), what
//! the receive report counts, and how the playout tick takes the frame that
//! is due (a late frame is dropped, a future one waits for its own tick).
//!
//! Decoding, concealment and the frame queue itself stay with the caller; the
//! decisions here take their results as plain values.
use vstd::prelude::*;

use crate::arith::{seq_add, seq_dist};

verus! {

/// A forward jump of this many frames or more rebuilds the timeline instead of concealing.
pub const TIMELINE_REBUILD_FRAMES: u32 = 1_000;

/// What to do with an arriving packet `seq`.
#[derive(Debug, Clone, Copy, PartialEq, Eq, Structural)]
pub struct ReceivePlan {
    /// The packet is behind the cursor: count one late drop, decode nothing.
    pub stale: bool,
    /// The jump is too large to conceal: reset decoder and concealer first.
    pub rebuild: bool,
    /// Frames missing before the packet.
    pub gap: u32,
    /// Frames to conceal before the packet (at most the concealment fade).
    pub conceal_frames: u32,
    /// The gap outlasts the concealment: rebuild the decoder after concealing.
    pub reset_decoder_after_conceal: bool,
    /// The cursor after this packet.
    pub next_expected: Option<u32>,
}

/// The plan for packet `seq` with cursor `expected`.
pub open spec fn receive_plan_of(expected: Option<u32>, seq: u32, max_conceal_frames: u32) -> ReceivePlan {
    match expected {
        Some(e) if seq_dist(seq, e) >= 0x8000_0000 => ReceivePlan {
            stale: true,
            rebuild: false,
            gap: 0,
            conceal_frames: 0,
            reset_decoder_after_conceal: false,
            next_expected: expected,
        },
        _ => {
            let forward = match expected {
                Some(e) => seq_dist(seq, e),
                None => 0,
            };
            let rebuild = forward >= TIMELINE_REBUILD_FRAMES;
            let gap = if rebuild { 0 } else { forward };
            let conceal = if gap < max_conceal_frames { gap } else { max_conceal_frames as int };
            ReceivePlan {
                stale: false,
                rebuild,
                gap: gap as u32,
                conceal_frames: conceal as u32,
                reset_decoder_after_conceal: gap > conceal,
                next_expected: Some(seq_add(seq, 1)),
            }
        },
    }
}

/// Plan the reception of packet `seq` with the cursor `expected` and a concealment fade of
/// `max_conceal_frames` frames.
pub fn plan_receive(expected: Option<u32>, seq: u32, max_conceal_frames: u32) -> (r: ReceivePlan)
    ensures
        r == receive_plan_of(expected, seq, max_conceal_frames),
{
    let forward: u32 = match expected {
        None => 0,
        Some(e) => seq.wrapping_sub(e),
    };
    if expected.is_some() && forward >= 0x8000_0000 {
        return ReceivePlan {
            stale: true,
            rebuild: false,
            gap: 0,
            conceal_frames: 0,
            reset_decoder_after_conceal: false,
            next_expected: expected,
        };
    }
    let rebuild = forward >= TIMELINE_REBUILD_FRAMES;
    let gap = if rebuild { 0 } else { forward };
    let conceal = if gap < max_conceal_frames { gap } else { max_conceal_frames };
    ReceivePlan {
        stale: false,
        rebuild,
        gap,
        conceal_frames: conceal,
        reset_decoder_after_conceal: gap > conceal,
        next_expected: Some(seq.wrapping_add(1)),
    }
}

/// Sequence number of the `index`-th concealed frame before `seq` (the oldest first).
pub fn concealed_seq(seq: u32, gap: u32, index: u32) -> (r: u32)
    requires
        index < gap,
    ensures
        r == seq_add(seq, -((gap - index) as int)),
{
    let back = gap - index;
    let r = seq.wrapping_sub(back);
    proof {
        assert(seq_add(seq, -((gap - index) as int)) == r) by {
            if seq >= back {
                assert((seq - back) % 0x1_0000_0000 == seq - back);
            } else {
                assert((seq - back) % 0x1_0000_0000 == seq - back + 0x1_0000_0000);
            }
        }
    }
    r
}

/// Counts of one reception, for telemetry.
#[derive(Debug, Clone, Copy, PartialEq, Eq, Structural)]
pub struct ReceiveReport {
    /// Frames that should have arrived (the gap plus the packet).
    pub expected: u32,
    /// Frames lost before the packet.
    pub lost: u32,
    /// Concealed frames, including a packet that failed to decode (saturating).
    pub plc: u32,
    /// Frames refused by playout, or the stale packet itself.
    pub late_drops: u32,
}

/// The report of a reception planned as `plan`, where playout refused `refused` frames and
/// the packet itself `decode_failed` to decode.
pub open spec fn report_of(plan: ReceivePlan, refused: u32, decode_failed: bool) -> ReceiveReport {
    if plan.stale {
        ReceiveReport { expected: 0, lost: 0, plc: 0, late_drops: 1 }
    } else {
        ReceiveReport {
            expected: if plan.gap == u32::MAX { u32::MAX } else { (plan.gap + 1) as u32 },
            lost: plan.gap,
            plc: if decode_failed && plan.conceal_frames < u32::MAX {
                (plan.conceal_frames + 1) as u32
            } else {
                plan.conceal_frames
            },
            late_drops: refused,
        }
    }
}

/// Count a reception.
pub fn receive_report(plan: ReceivePlan, refused: u32, decode_failed: bool) -> (r: ReceiveReport)
    ensures
        r == report_of(plan, refused, decode_failed),
{
    if plan.stale {
        return ReceiveReport { expected: 0, lost: 0, plc: 0, late_drops: 1 };
    }
    ReceiveReport {
        expected: plan.gap.saturating_add(1),
        lost: plan.gap,
        plc: if decode_failed { plan.conceal_frames.saturating_add(1) } else { plan.conceal_frames },
        late_drops: refused,
    }
}

/// What the playout queue offered on this tick.
pub enum Supply<T> {
    /// The next queued frame and its sequence number.
    Frame(u32, T),
    /// The queue is empty.
    Empty,
    /// The producer is gone.
    Disconnected,
}

/// The frame decision of a playout tick.
pub enum DueStep<T> {
    /// Play this frame.
    Ready(T),
    /// Nothing is due: play silence (the cursor advanced).
    Missing,
    /// The producer is gone.
    Disconnected,
    /// The frame was behind the cursor and is dropped; ask the queue again.
    Late,
}

/// The cursor and waiting frame after one decision, with the decision.
pub open spec fn due_of<T>(expected: Option<u32>, pending: Option<(u32, T)>, supply: Supply<T>) -> (
    Option<u32>,
    Option<(u32, T)>,
    DueStep<T>,
) {
    let offered = match pending {
        Some(p) => Supply::Frame(p.0, p.1),
        None => supply,
    };
    match offered {
        Supply::Empty => (
            match expected {
                Some(e) => Some(seq_add(e, 1)),
                None => None,
            },
            None,
            DueStep::Missing,
        ),
        Supply::Disconnected => (expected, None, DueStep::Disconnected),
        Supply::Frame(seq, frame) => match expected {
            None => (Some(seq_add(seq, 1)), None, DueStep::Ready(frame)),
            Some(e) => if seq == e {
                (Some(seq_add(e, 1)), None, DueStep::Ready(frame))
            } else if seq_dist(seq, e) < 0x8000_0000 {
                (Some(seq_add(e, 1)), Some((seq, frame)), DueStep::Missing)
            } else {
                (expected, None, DueStep::Late)
            },
        },
    }
}

/// One decision of the playout tick: the waiting frame, or else what the queue offered,
/// against the cursor `expected` (the sequence number this tick plays). `supply` is only
/// looked at when no frame is waiting, so the queue is asked only then. A due frame plays,
/// a future frame waits for its own tick while this one plays silence, a frame behind the
/// cursor is dropped. The cursor advances once per tick that plays something or silence.
pub fn due_step<T>(expected: &mut Option<u32>, pending: &mut Option<(u32, T)>, supply: Supply<T>) -> (r: DueStep<T>)
    ensures
        (*final(expected), *final(pending), r) == due_of(*old(expected), *old(pending), supply),
{
    let offered = match pending.take() {
        Some((seq, frame)) => Supply::Frame(seq, frame),
        None => supply,
    };
    match offered {
        Supply::Empty => {
            if let Some(e) = *expected {
                *expected = Some(e.wrapping_add(1));
            }
            DueStep::Missing
        },
        Supply::Disconnected => DueStep::Disconnected,
        Supply::Frame(seq, frame) => {
            match *expected {
                None => {
                    *expected = Some(seq.wrapping_add(1));
                    DueStep::Ready(frame)
                },
                Some(e) => {
                    let distance = seq.wrapping_sub(e);
                    if distance == 0 {
                        *expected = Some(e.wrapping_add(1));
                        DueStep::Ready(frame)
                    } else if distance < 0x8000_0000 {
                        *pending = Some((seq, frame));
                        *expected = Some(e.wrapping_add(1));
                        DueStep::Missing
                    } else {
                        DueStep::Late
                    }
                },
            }
        },
    }
}

/// A packet behind the cursor is never decoded nor moves the cursor; any other packet
/// moves the cursor just past itself, and at most the concealment fade is concealed, the
/// rest of a gap being left to the playout cursor.
pub proof fn law_receive_cursor(expected: Option<u32>, seq: u32, max_conceal_frames: u32)
    ensures
        ({
            let plan = receive_plan_of(expected, seq, max_conceal_frames);
            &&& (plan.stale ==> plan.next_expected == expected && plan.conceal_frames == 0)
            &&& (!plan.stale ==> plan.next_expected == Some(seq_add(seq, 1)))
            &&& plan.conceal_frames <= plan.gap
            &&& plan.conceal_frames <= max_conceal_frames
            &&& plan.gap < TIMELINE_REBUILD_FRAMES
            &&& (plan.reset_decoder_after_conceal <==> plan.gap > plan.conceal_frames)
        }),
{
}

/// The playout cursor: a frame behind the cursor is never played, a played frame is the one
/// the cursor points at (or the first of the stream), and every tick that plays a frame or
/// silence advances the cursor by exactly one.
pub proof fn law_playout_cursor<T>(expected: Option<u32>, pending: Option<(u32, T)>, supply: Supply<T>)
    ensures
        ({
            let (next, _waiting, step) = due_of(expected, pending, supply);
            let offered_seq = match pending {
                Some(p) => Some(p.0),
                None => match supply {
                    Supply::Frame(s, _) => Some(s),
                    _ => None,
                },
            };
            &&& (step is Ready ==> (expected is None || offered_seq == expected))
            &&& (step is Late ==> next == expected && expected is Some)
            &&& ((step is Ready || step is Missing) && expected is Some ==> next == Some(
                seq_add(expected->0, 1),
            ))
        }),
{
}

/// Look at the next frame without consuming it: a waiting frame is shown again; otherwise
/// a frame from `supply` (consulted only when nothing waits) becomes the waiting frame.
/// Returns the sequence number of the waiting frame, if any.
pub fn peek_seq<T>(pending: &mut Option<(u32, T)>, supply: Supply<T>) -> (r: Option<u32>)
    ensures
        match *old(pending) {
            Some(p) => *final(pending) == Some(p) && r == Some(p.0),
            None => match supply {
                Supply::Frame(seq, frame) => *final(pending) == Some((seq, frame)) && r == Some(seq),
                _ => *final(pending) is None && r is None,
            },
        },
{
    if pending.is_none() {
        if let Supply::Frame(seq, frame) = supply {
            *pending = Some((seq, frame));
        }
    }
    match pending {
        Some(p) => Some(p.0),
        None => None,
    }
}

} // verus!
