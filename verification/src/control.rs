//! Stream bookkeeping of a session's control channel: which stream is open,
//! which id the next one gets, and the group schedule that arrived before the
//! stream it applies to.
use vstd::prelude::*;

use crate::arith::sat_i64;
use crate::epoch::EpochSchedule;
use crate::payload::STREAM_ID_ALL;

verus! {

/// Answer to an OPEN_STREAM.
#[derive(Debug, Clone, Copy, PartialEq, Eq)]
pub enum OpenStreamPlan {
    /// A stream is already playing: answer CLOSE_STREAM with this id and keep it.
    Refuse { stream_id: u32 },
    /// Start the playout for a new stream with this id, then acknowledge it.
    Accept { stream_id: u32 },
}

/// Control-side state of one session's stream.
#[derive(Debug, Clone, Copy, PartialEq, Eq)]
pub struct StreamControl {
    /// Whether a playout runs for the current stream.
    pub playback_open: bool,
    /// Id of the current stream, if one was negotiated.
    pub stream_id: Option<u32>,
    /// Id the next accepted stream gets.
    pub next_stream_id: u32,
    /// Group schedule that arrived while no playout ran.
    pub pending: Option<EpochSchedule>,
}

/// State and answer after an OPEN_STREAM.
pub open spec fn open_step(s: StreamControl) -> (StreamControl, OpenStreamPlan) {
    if s.playback_open {
        (s, OpenStreamPlan::Refuse { stream_id: if let Some(id) = s.stream_id { id } else { 0 } })
    } else {
        (
            StreamControl {
                stream_id: Some(s.next_stream_id),
                next_stream_id: if s.next_stream_id == u32::MAX { u32::MAX } else { (s.next_stream_id + 1) as u32 },
                ..s
            },
            OpenStreamPlan::Accept { stream_id: s.next_stream_id },
        )
    }
}

/// State after the playout of an accepted stream started, and the pending schedule to apply now.
pub open spec fn started_step(s: StreamControl) -> (StreamControl, Option<EpochSchedule>) {
    (StreamControl { playback_open: true, pending: None, ..s }, s.pending)
}

/// State after a group schedule arrived, and whether to apply it to the running playout now
/// (otherwise it waits as the pending schedule, replacing any earlier one).
pub open spec fn schedule_step(s: StreamControl, schedule: EpochSchedule) -> (StreamControl, bool) {
    if s.playback_open {
        (s, true)
    } else {
        (StreamControl { pending: Some(schedule), ..s }, false)
    }
}

/// Whether a SET_GAIN / SET_MUTE aimed at `target` concerns the current stream.
pub open spec fn targets_stream(target: u32, current: Option<u32>) -> bool {
    target == STREAM_ID_ALL || current == Some(target)
}

/// Where a receiver's common epoch lands on the local clock (µs): the remote instant
/// (capped at `i64::MAX`) minus the clock offset, saturating.
pub open spec fn local_epoch_of_remote(remote_epoch_us: u64, offset_us: i64) -> int {
    sat_i64((if remote_epoch_us > i64::MAX { i64::MAX as int } else { remote_epoch_us as int }) - offset_us)
}

impl StreamControl {
    /// No stream yet; the first accepted stream gets id 1.
    pub fn new() -> (r: Self)
        ensures
            r == (StreamControl { playback_open: false, stream_id: None, next_stream_id: 1, pending: None }),
    {
        StreamControl { playback_open: false, stream_id: None, next_stream_id: 1, pending: None }
    }

    /// OPEN_STREAM from the sender: one stream per peer, so a second one is refused;
    /// otherwise the next id is taken.
    pub fn open_stream(&mut self) -> (r: OpenStreamPlan)
        ensures
            (*final(self), r) == open_step(*old(self)),
    {
        if self.playback_open {
            let id = match self.stream_id {
                Some(id) => id,
                None => 0,
            };
            return OpenStreamPlan::Refuse { stream_id: id };
        }
        let id = self.next_stream_id;
        self.next_stream_id = id.saturating_add(1);
        self.stream_id = Some(id);
        OpenStreamPlan::Accept { stream_id: id }
    }

    /// The playout of an accepted stream is running: the schedule that waited for it is
    /// handed out (once).
    pub fn playout_started(&mut self) -> (r: Option<EpochSchedule>)
        ensures
            (*final(self), r) == started_step(*old(self)),
    {
        self.playback_open = true;
        let pending = self.pending;
        self.pending = None;
        pending
    }

    /// A group schedule arrived (GROUP_CREATE, GROUP_EPOCH or the local API): apply it now
    /// when a playout runs (`true`), else keep it for the stream to come.
    pub fn deliver_schedule(&mut self, schedule: EpochSchedule) -> (r: bool)
        ensures
            (*final(self), r) == schedule_step(*old(self), schedule),
    {
        if self.playback_open {
            return true;
        }
        self.pending = Some(schedule);
        false
    }

    /// The schedule was withdrawn: nothing waits any more. Returns whether a running
    /// playout must drop its schedule too.
    pub fn clear_schedule(&mut self) -> (r: bool)
        ensures
            *final(self) == (StreamControl { pending: None, ..*old(self) }),
            r == old(self).playback_open,
    {
        self.pending = None;
        self.playback_open
    }

    /// OPEN_STREAM_ACK: the sender adopts the id the receiver gave.
    pub fn stream_acked(&mut self, stream_id: u32)
        ensures
            *final(self) == (StreamControl { stream_id: Some(stream_id), ..*old(self) }),
    {
        self.stream_id = Some(stream_id);
    }

    /// CLOSE_STREAM: the playout stops and no stream is current.
    pub fn close_stream(&mut self)
        ensures
            *final(self) == (StreamControl { playback_open: false, stream_id: None, ..*old(self) }),
    {
        self.playback_open = false;
        self.stream_id = None;
    }

    /// Whether a SET_GAIN / SET_MUTE aimed at `target` concerns this session's stream.
    pub fn targets(&self, target: u32) -> (r: bool)
        ensures
            r == targets_stream(target, self.stream_id),
    {
        if target == STREAM_ID_ALL {
            return true;
        }
        match self.stream_id {
            Some(id) => id == target,
            None => false,
        }
    }
}

/// RECEIVER_EPOCH on a sender: the local instant of the receiver's common epoch (for the
/// log) and the value the capture hub is aligned to (0 when it lies before the origin).
pub fn receiver_local_epoch_us(remote_epoch_us: u64, offset_us: i64) -> (r: (i64, u64))
    ensures
        r.0 == local_epoch_of_remote(remote_epoch_us, offset_us),
        r.1 == (if r.0 < 0 { 0 } else { r.0 as int }),
{
    let remote: i64 = if remote_epoch_us > 9_223_372_036_854_775_807 {
        i64::MAX
    } else {
        remote_epoch_us as i64
    };
    let wide: i128 = remote as i128 - offset_us as i128;
    let local: i64 = if wide > 9_223_372_036_854_775_807 {
        i64::MAX
    } else if wide < -9_223_372_036_854_775_808 {
        i64::MIN
    } else {
        wide as i64
    };
    let applied: u64 = if local < 0 { 0 } else { local as u64 };
    (local, applied)
}

/// Samples per playout frame for a schedule: 48 per ms, at least one ms.
pub fn schedule_frame_samples(frame_ms: u32) -> (r: u32)
    requires
        frame_ms <= u32::MAX / 48,
    ensures
        r == (if frame_ms == 0 { 1 } else { frame_ms as int }) * 48,
{
    let ms: u32 = if frame_ms == 0 { 1 } else { frame_ms };
    ms * 48
}

/// A schedule that arrives before the stream is stashed and applied as soon as the
/// playout of the next accepted stream starts; a newer schedule replaces a stashed one.
pub proof fn law_early_schedule_is_applied_on_open(s: StreamControl, first: EpochSchedule, second: EpochSchedule)
    requires
        !s.playback_open,
    ensures
        !schedule_step(s, first).1,
        open_step(schedule_step(s, first).0).1 is Accept,
        started_step(open_step(schedule_step(s, first).0).0).1 == Some(first),
        started_step(open_step(schedule_step(schedule_step(s, first).0, second).0).0).1 == Some(second),
        started_step(started_step(open_step(schedule_step(s, first).0).0).0).1 is None,
{
}

/// While a playout runs, a second OPEN_STREAM changes nothing and names the running stream.
pub proof fn law_one_stream_per_peer(s: StreamControl)
    requires
        s.playback_open,
    ensures
        open_step(s).0 == s,
        open_step(s).1 == (OpenStreamPlan::Refuse { stream_id: if let Some(id) = s.stream_id { id } else { 0 } }),
{
}

/// Accepted streams get strictly increasing ids until the counter saturates.
pub proof fn law_stream_ids_increase(s: StreamControl)
    requires
        !s.playback_open,
        s.next_stream_id < u32::MAX,
    ensures
        open_step(s).1 == (OpenStreamPlan::Accept { stream_id: s.next_stream_id }),
        open_step(s).0.next_stream_id == s.next_stream_id + 1,
        open_step(s).0.stream_id == Some(s.next_stream_id),
{
}

} // verus!
