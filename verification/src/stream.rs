//! Per-stream frame-length bookkeeping: the 10 ms frame flag carried by every audio
//! copy and checked on receipt, the values derived from the frame length, whether the
//! shared mixer can serve a frame length, and how playout ticks without a frame are
//! filled across a gap.
use vstd::prelude::*;

verus! {

/// Audio datagram flags that describe the stream.
#[derive(Debug, Clone, Copy, PartialEq, Eq, Structural)]
pub struct StreamFlags {
    /// The stream uses 10 ms frames.
    pub frame_10ms: bool,
    /// This copy is the redundant copy of a frame.
    pub fec_redundant: bool,
}

/// Which copy of a frame is sent.
#[derive(Debug, Clone, Copy, PartialEq, Eq, Structural)]
pub enum AudioCopy {
    /// The frame itself (also used for NACK retransmissions).
    Primary,
    /// The redundant copy sent with the next frame.
    Redundant,
}

/// Flags of every copy of a stream with frames of `frame_ms`: the 10 ms bit describes the
/// stream, so it is set exactly for 10 ms frames.
pub open spec fn stream_flags_of(frame_ms: u32) -> StreamFlags {
    StreamFlags { frame_10ms: frame_ms == 10, fec_redundant: false }
}

/// The flags of one copy: a redundant copy adds its own bit and keeps the stream's.
pub open spec fn copy_flags(flags: StreamFlags, copy: AudioCopy) -> StreamFlags {
    match copy {
        AudioCopy::Primary => flags,
        AudioCopy::Redundant => StreamFlags { fec_redundant: true, ..flags },
    }
}

/// Flags of every copy of a stream with frames of `frame_ms`, see [`stream_flags_of`].
pub fn stream_flags(frame_ms: u32) -> (r: StreamFlags)
    ensures
        r == stream_flags_of(frame_ms),
{
    StreamFlags { frame_10ms: frame_ms == 10, fec_redundant: false }
}

/// The flags of one copy, see [`copy_flags`].
pub fn with_copy(flags: StreamFlags, copy: AudioCopy) -> (r: StreamFlags)
    ensures
        r == copy_flags(flags, copy),
{
    match copy {
        AudioCopy::Primary => flags,
        AudioCopy::Redundant => StreamFlags { fec_redundant: true, ..flags },
    }
}

/// Frame length with 0 read as 1 ms.
pub open spec fn effective_ms(frame_ms: u32) -> u32 {
    if frame_ms == 0 { 1 } else { frame_ms }
}

/// Receive-side values derived from the stream's frame length.
#[derive(Debug, Clone, Copy, PartialEq, Eq)]
pub struct StreamRxState {
    /// Effective frame length (ms).
    pub frame_ms: u32,
    /// Frame length in µs (saturating), the unit of the adaptive jitter controller.
    pub frame_us: u32,
    /// Frame period of the reorder window (µs).
    pub frame_period_us: u64,
    /// Datagrams whose 10 ms bit disagreed with the frame length.
    pub flag_mismatches: u64,
}

/// The derived values for frames of `frame_ms` (mismatch count left to the caller).
pub open spec fn derived(frame_ms: u32, flag_mismatches: u64) -> StreamRxState {
    let ms = effective_ms(frame_ms);
    StreamRxState {
        frame_ms: ms,
        frame_us: if ms * 1000 > u32::MAX { u32::MAX } else { (ms * 1000) as u32 },
        frame_period_us: (ms * 1000) as u64,
        flag_mismatches,
    }
}

/// The derived values for frames of `frame_ms`.
fn derive(frame_ms: u32, flag_mismatches: u64) -> (r: StreamRxState)
    ensures
        r == derived(frame_ms, flag_mismatches),
{
    let ms: u32 = if frame_ms == 0 { 1 } else { frame_ms };
    let us: u64 = (ms as u64) * 1000;
    let frame_us: u32 = if us > 4_294_967_295 { u32::MAX } else { us as u32 };
    StreamRxState { frame_ms: ms, frame_us, frame_period_us: us, flag_mismatches }
}

impl StreamRxState {
    /// State for a stream with frames of `frame_ms`, no mismatch seen.
    pub fn new(frame_ms: u32) -> (r: Self)
        ensures
            r == derived(frame_ms, 0),
    {
        derive(frame_ms, 0)
    }

    /// A new frame length was negotiated: every derived value changes together, and only
    /// when the length really changed. Returns whether it changed (the decoder must then be
    /// rebuilt).
    pub fn retarget(&mut self, frame_ms: u32) -> (r: bool)
        ensures
            r == (effective_ms(frame_ms) != old(self).frame_ms),
            r ==> *final(self) == derived(frame_ms, old(self).flag_mismatches),
            !r ==> *final(self) == *old(self),
    {
        let ms: u32 = if frame_ms == 0 { 1 } else { frame_ms };
        if ms == self.frame_ms {
            return false;
        }
        *self = derive(ms, self.flag_mismatches);
        true
    }

    /// Cross-check the 10 ms bit of a received datagram against the frame length: a
    /// disagreement is only counted (saturating), never fatal. Returns whether they agree.
    pub fn observe_frame_flag(&mut self, flags: StreamFlags) -> (r: bool)
        ensures
            r == (flags.frame_10ms == (old(self).frame_ms == 10)),
            r ==> *final(self) == *old(self),
            !r ==> *final(self) == (StreamRxState {
                flag_mismatches: if old(self).flag_mismatches == u64::MAX {
                    u64::MAX
                } else {
                    (old(self).flag_mismatches + 1) as u64
                },
                ..*old(self)
            }),
    {
        let agree = flags.frame_10ms == (self.frame_ms == 10);
        if !agree {
            self.flag_mismatches = self.flag_mismatches.saturating_add(1);
        }
        agree
    }
}

/// What to do with the shared mixer for a stream of `frame_samples` per frame.
#[derive(Debug, Clone, Copy, PartialEq, Eq, Structural)]
pub enum MixerSlotPlan {
    /// The current mixer already mixes frames of this length.
    Reuse,
    /// Build a new mixer (none yet, or the current one is idle with another length).
    Build,
    /// The current mixer has sources at another frame length: refuse.
    Busy,
}

/// Mixer decision given the current mixer `(frame_samples, sources)`, if any.
pub fn mixer_slot_plan(current: Option<(u32, usize)>, frame_samples: u32) -> (r: MixerSlotPlan)
    ensures
        r == match current {
            None => MixerSlotPlan::Build,
            Some((f, n)) => if f == frame_samples {
                MixerSlotPlan::Reuse
            } else if n == 0 {
                MixerSlotPlan::Build
            } else {
                MixerSlotPlan::Busy
            },
        },
{
    match current {
        None => MixerSlotPlan::Build,
        Some((f, n)) => {
            if f == frame_samples {
                MixerSlotPlan::Reuse
            } else if n == 0 {
                MixerSlotPlan::Build
            } else {
                MixerSlotPlan::Busy
            }
        },
    }
}

/// Ticks covered by the concealment fade of `fade_ms` with frames of `frame_ms`
/// (rounded up).
pub open spec fn fade_ticks(fade_ms: u32, frame_ms: u32) -> int {
    let f = effective_ms(frame_ms) as int;
    (fade_ms as int + f - 1) / f
}

/// Level (thousandths) of the `missed`-th (0-based) tick in a row without a frame: the
/// concealment fades linearly from the last sound to silence over the fade, nothing
/// after it (old audio is never looped), all scaled by the current gain so a mute
/// reaches concealed audio too.
pub open spec fn gap_level(missed: u32, fade_ms: u32, frame_ms: u32, gain_x1000: u32) -> int {
    let n = fade_ticks(fade_ms, frame_ms);
    if missed >= n {
        0
    } else {
        ((n - missed) * 1000 / n) * (gain_x1000 as int) / 1000
    }
}

/// Level (thousandths) of a tick in a gap, see [`gap_level`].
pub fn gap_level_x1000(missed: u32, fade_ms: u32, frame_ms: u32, gain_x1000: u32) -> (r: u64)
    ensures
        r == gap_level(missed, fade_ms, frame_ms, gain_x1000),
{
    let f: u64 = if frame_ms == 0 { 1 } else { frame_ms as u64 };
    let n: u64 = (fade_ms as u64 + f - 1) / f;
    if (missed as u64) >= n {
        return 0;
    }
    let envelope: u64 = (n - missed as u64) * 1000 / n;
    proof {
        assert((n - missed) * 1000 / (n as int) <= 1000) by (nonlinear_arith)
            requires n > missed, missed >= 0;
        assert(envelope * gain_x1000 <= 1000 * 4_294_967_295) by (nonlinear_arith)
            requires envelope <= 1000, gain_x1000 <= 4_294_967_295;
    }
    envelope * (gain_x1000 as u64) / 1000
}

/// Across a gap the level never rises, is zero from the end of the fade on, and is zero
/// at every tick while the gain is 0.
pub proof fn law_gap_fades_out(a: u32, b: u32, fade_ms: u32, frame_ms: u32, gain_x1000: u32)
    requires
        a <= b,
    ensures
        gap_level(b, fade_ms, frame_ms, gain_x1000) <= gap_level(a, fade_ms, frame_ms, gain_x1000),
        b >= fade_ticks(fade_ms, frame_ms) ==> gap_level(b, fade_ms, frame_ms, gain_x1000) == 0,
        gap_level(a, fade_ms, frame_ms, 0) == 0,
        gap_level(a, fade_ms, frame_ms, gain_x1000) >= 0,
{
    let n = fade_ticks(fade_ms, frame_ms);
    let g = gain_x1000 as int;
    if b < n {
        let ea = (n - a) * 1000 / n;
        let eb = (n - b) * 1000 / n;
        assert(eb <= ea) by (nonlinear_arith)
            requires n > b, b >= a, a >= 0, ea == (n - a) * 1000 / n, eb == (n - b) * 1000 / n;
        assert(eb >= 0) by (nonlinear_arith)
            requires n > b, b >= 0, eb == (n - b) * 1000 / n;
        assert(eb * g / 1000 <= ea * g / 1000) by (nonlinear_arith)
            requires 0 <= eb <= ea, g >= 0;
    } else if a < n {
        let ea = (n - a) * 1000 / n;
        assert(ea >= 0) by (nonlinear_arith)
            requires n > a, a >= 0, ea == (n - a) * 1000 / n;
        assert(ea * g / 1000 >= 0) by (nonlinear_arith)
            requires ea >= 0, g >= 0;
    }
    if a < n {
        let ea = (n - a) * 1000 / n;
        assert(ea >= 0) by (nonlinear_arith)
            requires n > a, a >= 0, ea == (n - a) * 1000 / n;
        assert(ea * g / 1000 >= 0) by (nonlinear_arith)
            requires ea >= 0, g >= 0;
    }
}

/// Every copy of a 10 ms stream carries the 10 ms bit and no copy of another stream does;
/// a receiver with the same frame length never counts a mismatch for them.
pub proof fn law_frame_flag_round_trip(frame_ms: u32, copy: AudioCopy)
    ensures
        copy_flags(stream_flags_of(frame_ms), copy).frame_10ms == (derived(frame_ms, 0).frame_ms == 10),
        copy_flags(stream_flags_of(frame_ms), copy).fec_redundant == (copy == AudioCopy::Redundant),
{
}

} // verus!
