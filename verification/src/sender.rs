//! Decisions of a running session that are not tied to one message: starting and closing
//! the outbound stream (one capture at a time; a new stream forgets the holes and copies of
//! the last one), the 1 Hz depth tick, and the link-stall report that fires once.
use vstd::prelude::*;

use crate::jitter::{
    clamp_to, depth_observed, depth_raised, max_frames, min_frames, publish_target, AdaptiveJitterDepth,
};
use crate::nack::{MissingTracker, RetransmitBuffer};
use crate::reconnect::stalled;

verus! {

/// Id the sender gives its stream until the receiver answers with its own.
pub const FIRST_STREAM_ID: u32 = 1;

/// Outbound-stream state of a session.
#[derive(Debug, Clone, Copy, PartialEq, Eq, Structural)]
pub struct SenderState {
    /// A capture pipeline runs for this session.
    pub capturing: bool,
    /// Id of the outbound stream, once opened.
    pub stream_id: Option<u32>,
    /// The link stall was reported already (a reconnect is under way).
    pub stall_reported: bool,
    /// Underruns counted up to the last tick.
    pub last_underruns: u32,
}

/// Answer to a request to start sending.
#[derive(Debug, Clone, Copy, PartialEq, Eq, Structural)]
pub enum StartSendPlan {
    /// A capture already runs: refuse with BUSY.
    Busy,
    /// Start the capture pipeline, then open the stream.
    Start,
}

impl SenderState {
    /// A session that sends nothing yet.
    pub fn new() -> (r: Self)
        ensures
            r == (SenderState { capturing: false, stream_id: None, stall_reported: false, last_underruns: 0 }),
    {
        SenderState { capturing: false, stream_id: None, stall_reported: false, last_underruns: 0 }
    }

    /// A request to start sending: one capture per session.
    pub fn start_send_plan(&self) -> (r: StartSendPlan)
        ensures
            r == (if self.capturing { StartSendPlan::Busy } else { StartSendPlan::Start }),
    {
        if self.capturing {
            StartSendPlan::Busy
        } else {
            StartSendPlan::Start
        }
    }

    /// The capture pipeline started: the stream takes the first id, and the holes and copies
    /// of the previous stream are forgotten (the retransmission window means nothing across
    /// streams).
    pub fn stream_started(&mut self, missing: &mut MissingTracker, retransmit: &mut RetransmitBuffer)
        ensures
            *final(self) == (SenderState { capturing: true, stream_id: Some(FIRST_STREAM_ID), ..*old(self) }),
            final(missing).wf(),
            final(missing)@.entries.len() == 0,
            final(missing)@.expected is None,
            final(retransmit).wf(),
            final(retransmit)@.frames.len() == 0,
            final(retransmit)@.window_us == old(retransmit)@.window_us,
    {
        self.capturing = true;
        self.stream_id = Some(FIRST_STREAM_ID);
        missing.clear();
        retransmit.clear();
    }

    /// Opening the stream failed after the capture started: the capture stops and no stream
    /// is current.
    pub fn open_failed(&mut self)
        ensures
            *final(self) == (SenderState { capturing: false, stream_id: None, ..*old(self) }),
    {
        self.capturing = false;
        self.stream_id = None;
    }

    /// The stream is closed locally: returns the id to announce in CLOSE_STREAM (if one was
    /// open); the capture stops and the holes and copies are forgotten.
    pub fn close_stream(&mut self, missing: &mut MissingTracker, retransmit: &mut RetransmitBuffer) -> (r: Option<
        u32,
    >)
        ensures
            r == old(self).stream_id,
            *final(self) == (SenderState { capturing: false, stream_id: None, ..*old(self) }),
            final(missing).wf(),
            final(missing)@.entries.len() == 0,
            final(retransmit).wf(),
            final(retransmit)@.frames.len() == 0,
            final(retransmit)@.window_us == old(retransmit)@.window_us,
    {
        let id = self.stream_id;
        self.stream_id = None;
        self.capturing = false;
        missing.clear();
        retransmit.clear();
        id
    }

    /// The link-stall check of a tick: reports once, only for the initiator while it
    /// streams, after the stall threshold without hearing the peer.
    pub fn stall_check(&mut self, initiator: bool, silent_ms: u64) -> (r: bool)
        ensures
            r == stalled(old(self).stall_reported, old(self).stream_id is Some, initiator, silent_ms as int),
            *final(self) == (SenderState { stall_reported: old(self).stall_reported || r, ..*old(self) }),
    {
        let streaming = self.stream_id.is_some();
        let fire = crate::reconnect::link_stalled(self.stall_reported, streaming, initiator, silent_ms);
        if fire {
            self.stall_reported = true;
        }
        fire
    }
}

/// What the 1 Hz depth tick did.
#[derive(Debug, Clone, Copy, PartialEq, Eq)]
pub struct DepthTick {
    /// Underruns since the previous tick.
    pub new_underruns: u32,
    /// The controller's decision.
    pub desired: usize,
    /// The depth in effect after publishing.
    pub target: usize,
}

/// The 1 Hz depth tick: count the underruns since the last tick, take over a raise the
/// playout thread published (`observed`, read from the shared target), run the controller,
/// publish its decision unless the playout thread raised meanwhile, and take over what is
/// in effect.
pub fn depth_tick(
    state: &mut SenderState,
    depth: &mut AdaptiveJitterDepth,
    shared: &std::sync::atomic::AtomicUsize,
    observed: usize,
    snapshot_underruns: u32,
    jitter_p95_us: Option<u32>,
    frame_us: u32,
) -> (r: DepthTick)
    requires
        old(depth).wf(),
    ensures
        final(depth).wf(),
        r.new_underruns == (if snapshot_underruns >= old(state).last_underruns {
            snapshot_underruns - old(state).last_underruns
        } else {
            0
        }),
        *final(state) == (SenderState { last_underruns: snapshot_underruns, ..*old(state) }),
        ({
            let raised = depth_raised(old(depth)@, observed);
            let decided = depth_observed(raised, jitter_p95_us, r.new_underruns, frame_us);
            &&& r.desired == decided.target_frames
            &&& (r.target == r.desired || exists|c: usize|
                c != observed && r.target == clamp_to(
                    c as int,
                    min_frames(old(depth)@.frame_ms),
                    max_frames(old(depth)@.frame_ms),
                ))
            &&& final(depth)@ == depth_raised(decided, r.target)
        }),
{
    let new_underruns: u32 = if snapshot_underruns >= state.last_underruns {
        snapshot_underruns - state.last_underruns
    } else {
        0
    };
    state.last_underruns = snapshot_underruns;
    depth.raise_to(observed);
    let desired = depth.observe(jitter_p95_us, new_underruns, frame_us);
    let frame_ms = depth.frame_ms();
    let target = publish_target(shared, observed, desired, frame_ms);
    depth.raise_to(target);
    DepthTick { new_underruns, desired, target }
}

} // verus!
