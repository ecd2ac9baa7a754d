//! Timeline helpers of the send and receive pipelines: the capture hub's frame
//! numbering, sample-index mapping of received sequence numbers, the playout
//! anchor, stream axis observation and negotiated capabilities.
use vstd::prelude::*;

use crate::arith::{seq_add, seq_dist, seq_inc, seq_sub};
use crate::epoch::{action_of, frame_us, frame_us_of, schedule_fits, target_of, EpochSchedule, PlayoutAction};

verus! {

/// Frame numbering shared by every session fed from one capture hub.
#[derive(Debug, Clone, Copy, Default)]
pub struct HubClock {
    /// Next sequence number.
    pub seq: u32,
    /// Sample index of the next frame.
    pub sample_index: u32,
    /// Common zero point on the local monotonic clock (µs); `None` = not aligned.
    pub start_at_us: Option<u64>,
}

/// One numbering step of the hub clock at `now_us`: the clock after it and the
/// `(seq, sample_index)` handed out, `None` before the aligned start.
pub open spec fn hub_step(h: HubClock, frame_samples: u32, now_us: u64) -> (HubClock, Option<(u32, u32)>) {
    match h.start_at_us {
        Some(start) if now_us < start => (h, None),
        _ => (
            HubClock {
                seq: seq_add(h.seq, 1),
                sample_index: seq_add(h.sample_index, frame_samples as int),
                start_at_us: None,
            },
            Some((h.seq, h.sample_index)),
        ),
    }
}

impl HubClock {
    /// A clock at sequence 0, sample 0, not aligned.
    pub fn new() -> (r: Self)
        ensures
            r.seq == 0 && r.sample_index == 0 && r.start_at_us is None,
    {
        HubClock { seq: 0, sample_index: 0, start_at_us: None }
    }

    /// Pin the zero point of the sample index to `start_at_us` (a common time base).
    pub fn align_epoch(&mut self, start_at_us: u64)
        ensures
            final(self).start_at_us == Some(start_at_us),
            final(self).sample_index == 0,
            final(self).seq == old(self).seq,
    {
        self.start_at_us = Some(start_at_us);
        self.sample_index = 0;
    }

    /// Number the next frame: `(seq, sample_index)`, advancing both (wrapping). `None`
    /// while the common start has not been reached (that frame must not be sent).
    pub fn next(&mut self, frame_samples: u32, now_us: u64) -> (r: Option<(u32, u32)>)
        ensures
            (*final(self), r) == hub_step(*old(self), frame_samples, now_us),
    {
        if let Some(start) = self.start_at_us {
            if now_us < start {
                return None;
            }
            self.start_at_us = None;
        }
        let current = (self.seq, self.sample_index);
        self.seq = seq_inc(self.seq, 1);
        self.sample_index = seq_inc(self.sample_index, frame_samples);
        Some(current)
    }
}

/// Receive side scheduling state: group epoch, clock offset and the stream's first packet.
#[derive(Debug, Clone, Copy, Default)]
pub struct PlayoutSync {
    /// Group epoch; `None` = no scheduled playout.
    pub schedule: Option<EpochSchedule>,
    /// Clock offset "peer minus local" when the schedule was set (µs).
    pub offset_us: i64,
    /// Samples per frame.
    pub frame_samples: u32,
    /// `(seq, sample_index)` of the stream's first datagram.
    pub base: Option<(u32, u32)>,
}

/// Sample index of the payload with sequence number `seq`, counted from the base.
pub open spec fn sample_index_from(base: (u32, u32), frame_samples: u32, seq: u32) -> u32 {
    let frames = seq_dist(seq, base.0);
    let advance = frames * frame_samples;
    let advance = if advance > u64::MAX { u64::MAX as int } else { advance };
    seq_add(base.1, advance % 0x1_0000_0000)
}

impl PlayoutSync {
    /// First sample index of the payload with `seq` (the sender advances it by
    /// `frame_samples` per frame); `None` without a base.
    pub fn sample_index_of(&self, seq: u32) -> (r: Option<u32>)
        ensures
            match self.base {
                None => r is None,
                Some(base) => r == Some(sample_index_from(base, self.frame_samples, seq)),
            },
    {
        let (base_seq, base_sample) = match self.base {
            Some(b) => b,
            None => {
                return None;
            },
        };
        let frames = seq_sub(seq, base_seq) as u64;
        let advance = crate::arith::mul_sat_u64(frames, self.frame_samples as u64);
        let low = (advance % 0x1_0000_0000) as u32;
        Some(seq_inc(base_sample, low))
    }
}

/// The anchor of the playout tick grid: `(target of the stream's first frame, frame length)`
/// when a schedule and a base exist, `(0, 0)` otherwise.
pub fn playout_start_anchor(sync: &PlayoutSync) -> (r: (i64, i64))
    requires
        sync.schedule matches Some(s) ==> schedule_fits(s, sync.offset_us),
    ensures
        match (sync.schedule, sync.base) {
            (Some(s), Some(base)) => r == (
                target_of(s, base.1, sync.offset_us) as i64,
                frame_us_of(sync.frame_samples) as i64,
            ),
            _ => r == (0i64, 0i64),
        },
{
    let schedule = match sync.schedule {
        Some(s) => s,
        None => {
            return (0, 0);
        },
    };
    let base_sample = match sync.base {
        Some((_seq, sample)) => sample,
        None => {
            return (0, 0);
        },
    };
    let frame = frame_us(sync.frame_samples);
    if frame <= 0 {
        return (0, 0);
    }
    (schedule.target_us(base_sample, sync.offset_us), frame)
}

/// Scheduling decision for the frame with sequence number `seq` at local time `now_us`:
/// `Some((action, sample_index))` when a schedule exists and the frame maps to a sample index.
pub fn schedule_action_at(sync: &PlayoutSync, seq: Option<u32>, now_us: i64) -> (r: Option<(PlayoutAction, u32)>)
    requires
        sync.schedule matches Some(s) ==> schedule_fits(s, sync.offset_us),
        match (sync.schedule, seq, sync.base) {
            (Some(s), Some(q), Some(base)) => -(i64::MAX as int) <= target_of(
                s,
                sample_index_from(base, sync.frame_samples, q),
                sync.offset_us,
            ) - now_us <= i64::MAX,
            _ => true,
        },
    ensures
        match (sync.schedule, seq, sync.base) {
            (Some(s), Some(q), Some(base)) => {
                let i = sample_index_from(base, sync.frame_samples, q);
                r == Some((action_of(now_us, target_of(s, i, sync.offset_us)), i))
            },
            _ => r is None,
        },
{
    let schedule = match sync.schedule {
        Some(s) => s,
        None => {
            return None;
        },
    };
    let q = match seq {
        Some(q) => q,
        None => {
            return None;
        },
    };
    let sample_index = match sync.sample_index_of(q) {
        Some(i) => i,
        None => {
            return None;
        },
    };
    proof {
        assert(-(i64::MAX as int) <= target_of(schedule, sample_index, sync.offset_us) - now_us <= i64::MAX);
    }
    Some((schedule.action(now_us, sample_index, sync.offset_us), sample_index))
}

/// Capability negotiation result of one peer (bitmaps).
#[derive(Debug, Clone, Copy, PartialEq, Eq)]
pub struct PeerCapabilities {
    /// Declared locally.
    pub local: u32,
    /// Declared by the peer.
    pub peer: u32,
    /// Intersection (what both can use).
    pub agreed: u32,
}

impl PeerCapabilities {
    /// Capabilities the peer lacks while this side has them.
    pub fn missing_on_peer(&self) -> (r: u32)
        ensures
            r == self.local & !self.peer,
    {
        self.local & !self.peer
    }
}

/// Latest frame of a stream: its sample index and local arrival time.
#[derive(Debug, Clone, Copy, PartialEq, Eq)]
pub struct StreamAxis {
    /// Peer identity (certificate fingerprint).
    pub peer: [u8; 32],
    /// Sample index of the latest frame; `None` before the first datagram.
    pub sample_index: Option<u32>,
    /// When that frame arrived (local monotonic ms).
    pub at_ms: u32,
}

impl StreamAxis {
    /// Sample index projected to `now_ms` at 48 samples per ms (wrapping).
    pub fn index_at(&self, now_ms: u32) -> (r: Option<u32>)
        ensures
            match self.sample_index {
                None => r is None,
                Some(i) => {
                    let elapsed = if now_ms >= self.at_ms { now_ms - self.at_ms } else { 0 };
                    let step = if elapsed * 48 > u32::MAX { u32::MAX as int } else { elapsed * 48 };
                    r == Some(seq_add(i, step))
                },
            },
    {
        let index = match self.sample_index {
            Some(i) => i,
            None => {
                return None;
            },
        };
        let elapsed_ms = now_ms.saturating_sub(self.at_ms);
        let step: u32 = match elapsed_ms.checked_mul(48) {
            Some(v) => v,
            None => u32::MAX,
        };
        Some(seq_inc(index, step))
    }
}

/// Arrival register of a stream before its first frame.
pub const NO_AXIS: u64 = 0xFFFF_FFFF_FFFF_FFFF;

/// Local monotonic milliseconds of `now_us`, saturating at `u32::MAX`.
pub open spec fn axis_ms(now_us: u64) -> u32 {
    if now_us / 1000 > u32::MAX { u32::MAX } else { (now_us / 1000) as u32 }
}

/// The arrival register as one 64-bit word: milliseconds in the high half, sample index
/// in the low half, so a reader never sees a new index with an old time.
pub open spec fn packed_axis(now_us: u64, sample_index: u32) -> int {
    (axis_ms(now_us) as int) * 0x1_0000_0000 + sample_index as int
}

/// `(sample index, arrival ms)` read back from an arrival register.
pub open spec fn unpacked_axis(packed: u64) -> (Option<u32>, u32) {
    (
        if packed == NO_AXIS { None } else { Some((packed % 0x1_0000_0000) as u32) },
        (packed / 0x1_0000_0000) as u32,
    )
}

/// Record that the frame with `sample_index` arrived at `now_us`, see [`packed_axis`].
pub fn pack_rx_axis(now_us: u64, sample_index: u32) -> (r: u64)
    ensures
        r == packed_axis(now_us, sample_index),
{
    let ms: u64 = now_us / 1000;
    let at_ms: u64 = if ms > 4_294_967_295 { 4_294_967_295 } else { ms };
    proof {
        assert(at_ms * 0x1_0000_0000 + sample_index as int <= u64::MAX) by (nonlinear_arith)
            requires
                at_ms <= 4_294_967_295,
                sample_index <= 4_294_967_295,
        ;
    }
    at_ms * 0x1_0000_0000 + sample_index as u64
}

impl StreamAxis {
    /// The latest frame of `peer`'s stream, read from its arrival register.
    pub fn from_packed(peer: [u8; 32], packed: u64) -> (r: StreamAxis)
        ensures
            r.peer == peer,
            (r.sample_index, r.at_ms) == unpacked_axis(packed),
    {
        let high: u64 = packed / 0x1_0000_0000;
        let low: u64 = packed % 0x1_0000_0000;
        StreamAxis {
            peer,
            sample_index: if packed == NO_AXIS { None } else { Some(low as u32) },
            at_ms: high as u32,
        }
    }
}

/// Reading the register gives back what was written, except for the one word that
/// coincides with the empty register (index `u32::MAX` written at or after
/// `u32::MAX` ms), which reads as "no frame yet".
pub proof fn law_axis_round_trip(now_us: u64, sample_index: u32)
    requires
        !(axis_ms(now_us) == u32::MAX && sample_index == u32::MAX),
    ensures
        unpacked_axis(packed_axis(now_us, sample_index) as u64) == (Some(sample_index), axis_ms(now_us)),
{
    let a = axis_ms(now_us) as int;
    let b = sample_index as int;
    let w = a * 0x1_0000_0000 + b;
    assert(w / 0x1_0000_0000 == a && w % 0x1_0000_0000 == b) by (nonlinear_arith)
        requires
            0 <= a <= 4_294_967_295,
            0 <= b <= 4_294_967_295,
            w == a * 0x1_0000_0000 + b,
    ;
    assert(w <= u64::MAX) by (nonlinear_arith)
        requires
            0 <= a <= 4_294_967_295,
            0 <= b <= 4_294_967_295,
            w == a * 0x1_0000_0000 + b,
    ;
    assert(w != NO_AXIS) by (nonlinear_arith)
        requires
            0 <= a <= 4_294_967_295,
            0 <= b <= 4_294_967_295,
            w == a * 0x1_0000_0000 + b,
            !(a == 4_294_967_295 && b == 4_294_967_295),
    ;
}

/// A duration (µs) as the millisecond field of the transport configuration (saturating).
pub fn quic_ms(value_us: u64) -> (r: u32)
    ensures
        r == (if value_us / 1000 > u32::MAX { u32::MAX as int } else { (value_us / 1000) as int }),
{
    let ms = value_us / 1000;
    if ms > u32::MAX as u64 { u32::MAX } else { ms as u32 }
}

/// Frames leave the hub numbered consecutively: two successive numbered frames differ by
/// one sequence number and by exactly one frame of samples (on the 32-bit circle), and no
/// frame is numbered before the aligned start.
pub proof fn law_hub_numbers_consecutively(h: HubClock, frame_samples: u32, t1: u64, t2: u64)
    ensures
        (h.start_at_us matches Some(start) && t1 < start) ==> hub_step(h, frame_samples, t1).1 is None,
        ({
            let (h1, a) = hub_step(h, frame_samples, t1);
            let (_h2, b) = hub_step(h1, frame_samples, t2);
            (a is Some && b is Some) ==> {
                let (s1, i1) = a->0;
                let (s2, i2) = b->0;
                s2 == seq_add(s1, 1) && i2 == seq_add(i1, frame_samples as int)
            }
        }),
{
}

/// What the receiver computes of what the sender numbered: the frame `k` sequence numbers
/// after the stream's first datagram starts `k` frames of samples after it (on the 32-bit
/// circle).
pub proof fn law_receiver_recovers_sample_index(base: (u32, u32), frame_samples: u32, k: int)
    requires
        0 <= k < 0x1_0000_0000,
    ensures
        sample_index_from(base, frame_samples, seq_add(base.0, k)) == seq_add(
            base.1,
            (k * frame_samples) % 0x1_0000_0000,
        ),
{
    let q = seq_add(base.0, k);
    assert(seq_dist(q, base.0) == k) by {
        if base.0 + k < 0x1_0000_0000 {
            assert((base.0 + k) % 0x1_0000_0000 == base.0 + k);
        } else {
            assert((base.0 + k) % 0x1_0000_0000 == base.0 + k - 0x1_0000_0000);
        }
    }
    assert(k * frame_samples <= u64::MAX) by (nonlinear_arith)
        requires
            0 <= k < 0x1_0000_0000,
            0 <= frame_samples < 0x1_0000_0000,
    ;
}

} // verus!
