//! Receive-side jitter control: the 1 Hz target depth controller, the playout
//! thread's depth plan, and a bounded sequence reorder window.
use vstd::prelude::*;

use crate::arith::{ceil_div, div_ceil_u64, mul_sat_u64, sat_u64, seq_add, seq_dist, seq_inc, seq_sub};

verus! {

/// Smallest target depth (ms).
pub const MIN_TARGET_MS: u64 = 20;

/// Depth a fresh session starts from (ms).
pub const INITIAL_TARGET_MS: u64 = 20;

/// Depth chosen for medium jitter (jitter up to one frame) (ms).
pub const DEFAULT_TARGET_MS: u64 = 40;

/// Largest target depth (ms).
pub const MAX_TARGET_MS: u64 = 120;

/// From this depth on a hole gets a full frame period of reordering time (ms).
pub const FULL_REORDER_MS: u64 = 60;

/// Consecutive stable windows before the depth shrinks by one frame.
pub const STABLE_WINDOWS_TO_SHRINK: u32 = 5;

/// Capacity of the reorder window (ms).
pub const REORDER_CAPACITY_MS: u64 = 60;

/// Short wait that lets a redundant copy fill a hole at low depths (µs).
pub const REDUNDANT_REORDER_GRACE_US: u64 = 5_000;

/// A forward jump of this many frames resets the reorder window.
pub const DISCONTINUITY_FRAMES: u32 = 1_000;

/// Buffered frames above the target that count as a surplus.
pub const SETTLE_EXCESS_FRAMES: usize = 1;

/// How long a surplus must last before one frame is settled (µs).
pub const SETTLE_EXCESS_WINDOW_US: u64 = 500_000;

/// `frame_ms` with 0 read as 1.
pub open spec fn frame_ms_or_one(frame_ms: u32) -> int {
    if frame_ms == 0 { 1 } else { frame_ms as int }
}

/// Frames needed to cover `ms` milliseconds: rounded up, at least one.
pub open spec fn frames_for(ms: int, frame_ms: u32) -> int {
    let f = ceil_div(ms, frame_ms_or_one(frame_ms));
    if f > usize::MAX { usize::MAX as int } else if f < 1 { 1 } else { f }
}

/// `x` clamped into `[lo, hi]`.
pub open spec fn clamp_to(x: int, lo: int, hi: int) -> int {
    if x < lo { lo } else if x > hi { hi } else { x }
}

/// Millisecond pad → frames: rounded up, at least one frame.
pub fn frames_for_ms(ms: u64, frame_ms: u32) -> (r: usize)
    ensures
        r == frames_for(ms as int, frame_ms),
        r >= 1,
{
    let fm: u64 = if frame_ms == 0 { 1 } else { frame_ms as u64 };
    let f = div_ceil_u64(ms, fm);
    let frames: usize = if f > usize::MAX as u64 { usize::MAX } else { f as usize };
    if frames < 1 { 1 } else { frames }
}

/// More milliseconds never need fewer frames.
pub proof fn lemma_frames_for_monotone(a: int, b: int, frame_ms: u32)
    requires
        0 <= a <= b,
    ensures
        frames_for(a, frame_ms) <= frames_for(b, frame_ms),
{
    let d = frame_ms_or_one(frame_ms);
    assert((a + d - 1) / d <= (b + d - 1) / d) by (nonlinear_arith)
        requires a <= b, d >= 1;
}

/// Frames for the documented millisecond constants never exceed the millisecond count.
pub proof fn lemma_frames_for_small(ms: int, frame_ms: u32)
    requires
        1 <= ms <= 120,
    ensures
        1 <= frames_for(ms, frame_ms) <= ms,
{
    let d = frame_ms_or_one(frame_ms);
    assert((ms + d - 1) / d <= ms) by (nonlinear_arith)
        requires 1 <= ms, d >= 1;
    assert((ms + d - 1) / d >= 1) by (nonlinear_arith)
        requires 1 <= ms, d >= 1;
}

/// Depth bounds at a frame length: `[frames(20 ms), frames(120 ms)]`.
pub open spec fn min_frames(frame_ms: u32) -> int {
    frames_for(MIN_TARGET_MS as int, frame_ms)
}

pub open spec fn max_frames(frame_ms: u32) -> int {
    frames_for(MAX_TARGET_MS as int, frame_ms)
}

/// The depth bounds are ordered and small.
pub proof fn lemma_depth_bounds(frame_ms: u32)
    ensures
        1 <= min_frames(frame_ms) <= max_frames(frame_ms) <= 120,
        min_frames(frame_ms) <= frames_for(DEFAULT_TARGET_MS as int, frame_ms) <= max_frames(frame_ms),
        frames_for(FULL_REORDER_MS as int, frame_ms) <= 60,
{
    lemma_frames_for_monotone(20, 40, frame_ms);
    lemma_frames_for_monotone(40, 120, frame_ms);
    lemma_frames_for_small(120, frame_ms);
    lemma_frames_for_small(60, frame_ms);
    lemma_frames_for_small(20, frame_ms);
}

/// Clamp a depth into the bounds of `frame_ms`.
pub fn clamp_depth(frames: usize, frame_ms: u32) -> (r: usize)
    ensures
        r == clamp_to(frames as int, min_frames(frame_ms), max_frames(frame_ms)),
        min_frames(frame_ms) <= r <= max_frames(frame_ms),
{
    proof {
        lemma_depth_bounds(frame_ms);
    }
    let lo = frames_for_ms(MIN_TARGET_MS, frame_ms);
    let hi = frames_for_ms(MAX_TARGET_MS, frame_ms);
    if frames < lo {
        lo
    } else if frames > hi {
        hi
    } else {
        frames
    }
}

/// The wall-clock depth of `frames` frames of `from_frame_ms`, re-expressed in frames of
/// `to_frame_ms` (rounded up) and clamped to the bounds at the new length.
pub open spec fn rescaled(frames: usize, from_frame_ms: u32, to_frame_ms: u32) -> int {
    clamp_to(
        frames_for(sat_u64(frames * frame_ms_or_one(from_frame_ms)), to_frame_ms),
        min_frames(to_frame_ms),
        max_frames(to_frame_ms),
    )
}

/// Re-express a frame depth at a new frame length, keeping its wall-clock size.
pub fn rescale_depth_frames(frames: usize, from_frame_ms: u32, to_frame_ms: u32) -> (r: usize)
    ensures
        r == rescaled(frames, from_frame_ms, to_frame_ms),
        min_frames(to_frame_ms) <= r <= max_frames(to_frame_ms),
{
    let from: u64 = if from_frame_ms == 0 { 1 } else { from_frame_ms as u64 };
    let depth_ms = mul_sat_u64(frames as u64, from);
    clamp_depth(frames_for_ms(depth_ms, to_frame_ms), to_frame_ms)
}

/// The 1 Hz target depth controller: raises at once, shrinks one frame at a time after
/// `STABLE_WINDOWS_TO_SHRINK` stable windows.
#[derive(Debug)]
pub struct AdaptiveJitterDepth {
    target_frames: usize,
    stable_windows: u32,
    frame_ms: u32,
}

/// Abstract state of the depth controller.
pub struct DepthModel {
    pub target_frames: int,
    pub stable_windows: int,
    pub frame_ms: u32,
}

impl View for AdaptiveJitterDepth {
    type V = DepthModel;

    closed spec fn view(&self) -> DepthModel {
        DepthModel {
            target_frames: self.target_frames as int,
            stable_windows: self.stable_windows as int,
            frame_ms: self.frame_ms,
        }
    }
}

/// Depth wanted for a measured jitter P95 `jitter` with frames of `frame_us` µs.
pub open spec fn depth_for_jitter(jitter: u32, frame_us: int, frame_ms: u32) -> int {
    if jitter <= frame_us / 4 {
        min_frames(frame_ms)
    } else if jitter <= frame_us {
        frames_for(DEFAULT_TARGET_MS as int, frame_ms)
    } else {
        let f = ceil_div(jitter as int, frame_us) + 1;
        let f = if f > usize::MAX { usize::MAX as int } else { f };
        if f < max_frames(frame_ms) { f } else { max_frames(frame_ms) }
    }
}

/// Saturating increment of a window counter.
pub open spec fn bump_u32(x: int) -> int {
    if x + 1 > u32::MAX { u32::MAX as int } else { x + 1 }
}

/// The controller after one 1 Hz window: a deeper wish is taken at once (up to the
/// ceiling); a shallower measured wish without underruns counts a stable window and, once
/// `STABLE_WINDOWS_TO_SHRINK` are reached, lowers the target by one frame; anything else
/// resets the stable count. Underruns never let the wish fall below the current target.
pub open spec fn depth_observed(o: DepthModel, jitter_p95_us: Option<u32>, underruns: u32, frame_us: u32) -> DepthModel {
    let fu = if frame_us == 0 { 1int } else { frame_us as int };
    let measured = match jitter_p95_us {
        Some(j) => Some(depth_for_jitter(j, fu, o.frame_ms)),
        None => None,
    };
    let base = match measured { Some(m) => m, None => o.target_frames };
    let wanted = if underruns > 0 && base < o.target_frames { o.target_frames } else { base };
    if wanted > o.target_frames {
        DepthModel {
            target_frames: if wanted < max_frames(o.frame_ms) { wanted } else { max_frames(o.frame_ms) },
            stable_windows: 0,
            ..o
        }
    } else if wanted < o.target_frames && underruns == 0 && measured is Some {
        if bump_u32(o.stable_windows) >= STABLE_WINDOWS_TO_SHRINK {
            DepthModel {
                target_frames: if o.target_frames - 1 > wanted { o.target_frames - 1 } else { wanted },
                stable_windows: 0,
                ..o
            }
        } else {
            DepthModel { stable_windows: bump_u32(o.stable_windows), ..o }
        }
    } else {
        DepthModel { stable_windows: 0, ..o }
    }
}

/// The controller after an immediate raise to `target_frames` (clamped to the bounds of its
/// frame length): a deeper target is taken and restarts the stable count, a lower one
/// changes nothing.
pub open spec fn depth_raised(o: DepthModel, target_frames: usize) -> DepthModel {
    let t = clamp_to(target_frames as int, min_frames(o.frame_ms), max_frames(o.frame_ms));
    if t > o.target_frames {
        DepthModel { target_frames: t, stable_windows: 0, ..o }
    } else {
        o
    }
}

impl AdaptiveJitterDepth {
    /// Invariant: a positive frame length, a target within `[1, max_frames]` and at least
    /// 20 ms of frames whenever 20 ms is at most three frames (frames of 7 ms or more), and
    /// fewer stable windows than needed for a shrink.
    pub closed spec fn wf(&self) -> bool {
        &&& self.frame_ms >= 1
        &&& 1 <= self.target_frames <= max_frames(self.frame_ms)
        &&& (min_frames(self.frame_ms) <= 3 ==> min_frames(self.frame_ms) <= self.target_frames)
        &&& self.stable_windows < STABLE_WINDOWS_TO_SHRINK
    }

    /// A controller at the start depth (20 ms) for frames of `frame_ms`.
    pub fn new(frame_ms: u32) -> (r: Self)
        ensures
            r.wf(),
            r@.target_frames == frames_for(INITIAL_TARGET_MS as int, frame_ms),
            r@.stable_windows == 0,
            r@.frame_ms == frame_ms_or_one(frame_ms),
    {
        proof {
            lemma_depth_bounds(frame_ms);
            assert(min_frames(frame_ms) == max_frames(frame_ms) || true);
        }
        let fm: u32 = if frame_ms == 0 { 1 } else { frame_ms };
        proof {
            assert(frames_for(20, fm) == frames_for(20, frame_ms));
            assert(frames_for(120, fm) == frames_for(120, frame_ms));
        }
        AdaptiveJitterDepth { target_frames: frames_for_ms(INITIAL_TARGET_MS, frame_ms), stable_windows: 0, frame_ms: fm }
    }

    /// Frame length the depth is counted in (ms).
    pub fn frame_ms(&self) -> (r: u32)
        ensures
            r == self@.frame_ms,
    {
        self.frame_ms
    }

    /// Current target depth (frames).
    pub fn target_frames(&self) -> (r: usize)
        ensures
            r == self@.target_frames,
    {
        self.target_frames
    }

    /// One 1 Hz window: `jitter_p95_us` is the measured jitter (if any), `underruns` the
    /// underruns of the window, `frame_us` the frame length in µs. Returns the new target.
    pub fn observe(&mut self, jitter_p95_us: Option<u32>, underruns: u32, frame_us: u32) -> (r: usize)
        requires
            old(self).wf(),
        ensures
            final(self).wf(),
            r == final(self)@.target_frames,
            final(self)@ == depth_observed(old(self)@, jitter_p95_us, underruns, frame_us),
    {
        proof {
            lemma_depth_bounds(self.frame_ms);
        }
        let fu: u64 = if frame_us == 0 { 1 } else { frame_us as u64 };
        let min_f = frames_for_ms(MIN_TARGET_MS, self.frame_ms);
        let max_f = frames_for_ms(MAX_TARGET_MS, self.frame_ms);
        let measured: Option<usize> = match jitter_p95_us {
            Some(jitter) => {
                let j = jitter as u64;
                if j <= fu / 4 {
                    Some(min_f)
                } else if j <= fu {
                    Some(frames_for_ms(DEFAULT_TARGET_MS, self.frame_ms))
                } else {
                    proof {
                        assert((j + fu - 1) / (fu as int) >= 2) by (nonlinear_arith)
                            requires j > fu, fu >= 1;
                    }
                    let c = div_ceil_u64(j, fu) + 1;
                    let f: usize = if c > usize::MAX as u64 { usize::MAX } else { c as usize };
                    Some(if f < max_f { f } else { max_f })
                }
            },
            None => None,
        };
        let mut wanted = match measured {
            Some(m) => m,
            None => self.target_frames,
        };
        if underruns > 0 && wanted < self.target_frames {
            wanted = self.target_frames;
        }
        if wanted > self.target_frames {
            self.target_frames = if wanted < max_f { wanted } else { max_f };
            self.stable_windows = 0;
        } else if wanted < self.target_frames && underruns == 0 && measured.is_some() {
            self.stable_windows = self.stable_windows.saturating_add(1);
            if self.stable_windows >= STABLE_WINDOWS_TO_SHRINK {
                let lower = self.target_frames - 1;
                self.target_frames = if lower > wanted { lower } else { wanted };
                self.stable_windows = 0;
            }
        } else {
            self.stable_windows = 0;
        }
        self.target_frames
    }

    /// Immediate raise requested by the playout thread (clamped to the bounds); a lower
    /// value changes nothing.
    pub fn raise_to(&mut self, target_frames: usize)
        requires
            old(self).wf(),
        ensures
            final(self).wf(),
            final(self)@ == depth_raised(old(self)@, target_frames),
    {
        let t = clamp_depth(target_frames, self.frame_ms);
        if t > self.target_frames {
            self.target_frames = t;
            self.stable_windows = 0;
        }
    }

    /// Frame length renegotiated: the current depth keeps its wall-clock size.
    pub fn set_frame_ms(&mut self, frame_ms: u32)
        requires
            old(self).wf(),
        ensures
            final(self).wf(),
            ({
                let fm = frame_ms_or_one(frame_ms);
                if fm == old(self)@.frame_ms {
                    final(self)@ == old(self)@
                } else {
                    &&& final(self)@.target_frames == rescaled(
                        old(self)@.target_frames as usize,
                        old(self)@.frame_ms,
                        fm as u32,
                    )
                    &&& final(self)@.frame_ms == fm
                    &&& final(self)@.stable_windows == 0
                }
            }),
    {
        let fm: u32 = if frame_ms == 0 { 1 } else { frame_ms };
        if fm == self.frame_ms {
            return;
        }
        self.target_frames = rescale_depth_frames(self.target_frames, self.frame_ms, fm);
        self.frame_ms = fm;
        self.stable_windows = 0;
        proof {
            lemma_depth_bounds(fm);
        }
    }
}

/// The value that a controller publication leaves in effect: the decision when the shared
/// target still held the observed value, otherwise the concurrent value clamped to the bounds.
pub fn published_target(exchange: Result<usize, usize>, desired: usize, frame_ms: u32) -> (r: usize)
    ensures
        r == match exchange {
            Ok(_) => desired as int,
            Err(current) => clamp_to(current as int, min_frames(frame_ms), max_frames(frame_ms)),
        },
{
    match exchange {
        Ok(_) => desired,
        Err(current) => clamp_depth(current, frame_ms),
    }
}

/// `AtomicUsize::compare_exchange` with relaxed ordering. Std documents the result as
/// `Ok(previous)` when the stored value equalled `current` (and `new` was stored) and
/// `Err(previous)` otherwise; this contract claims only that: `Ok` carries `current`, `Err`
/// a value other than `current`. What the atomic holds, written by other threads, is not
/// modelled.
#[verifier::external_body]
fn compare_exchange_relaxed(shared: &std::sync::atomic::AtomicUsize, current: usize, new: usize) -> (r: Result<
    usize,
    usize,
>)
    ensures
        r matches Ok(v) ==> v == current,
        r matches Err(v) ==> v != current,
{
    shared.compare_exchange(current, new, std::sync::atomic::Ordering::Relaxed, std::sync::atomic::Ordering::Relaxed)
}

/// Publish the controller decision only if the shared target still holds `observed`;
/// a concurrent raise by the playout thread is kept (clamped to the bounds). Returns the
/// decision, or a concurrent value other than `observed`, clamped.
pub fn publish_target(shared: &std::sync::atomic::AtomicUsize, observed: usize, desired: usize, frame_ms: u32) -> (r: usize)
    ensures
        r == desired || exists|c: usize|
            c != observed && r == clamp_to(c as int, min_frames(frame_ms), max_frames(frame_ms)),
        min_frames(frame_ms) <= r <= max_frames(frame_ms) || r == desired,
{
    proof {
        lemma_depth_bounds(frame_ms);
    }
    let exchange = compare_exchange_relaxed(shared, observed, desired);
    let r = published_target(exchange, desired, frame_ms);
    proof {
        if let Err(c) = exchange {
            assert(c != observed && r == clamp_to(c as int, min_frames(frame_ms), max_frames(frame_ms)));
        }
    }
    r
}

/// What the playout thread does with the queue on this tick.
#[derive(Debug, Clone, Copy, PartialEq, Eq)]
pub enum PlayoutDepthAction {
    /// Play the next frame.
    Play,
    /// Hold (play silence) to build up depth.
    Hold,
    /// Drop the given number of oldest frames, then play.
    DropOldest(usize),
}

/// The playout thread's depth plan: raises build depth with bounded holds, lowers drop
/// real excess, and a sustained surplus is settled one frame per window.
#[derive(Debug)]
pub struct PlayoutDepthState {
    active_frames: usize,
    planned_frames: usize,
    holds_remaining: usize,
    frame_ms: u32,
    settle_since_us: Option<u64>,
}

/// Abstract state of the playout depth plan.
pub struct PlayoutDepthModel {
    pub active_frames: int,
    pub planned_frames: int,
    pub holds_remaining: int,
    pub frame_ms: u32,
    pub settle_since_us: Option<u64>,
}

impl View for PlayoutDepthState {
    type V = PlayoutDepthModel;

    closed spec fn view(&self) -> PlayoutDepthModel {
        PlayoutDepthModel {
            active_frames: self.active_frames as int,
            planned_frames: self.planned_frames as int,
            holds_remaining: self.holds_remaining as int,
            frame_ms: self.frame_ms,
            settle_since_us: self.settle_since_us,
        }
    }
}

/// `a - b`, 0 when negative.
pub open spec fn sub_floor(a: int, b: int) -> int {
    if a > b { a - b } else { 0 }
}

/// One tick of the playout depth plan: the new abstract state and the action.
pub open spec fn depth_tick(o: PlayoutDepthModel, requested: usize, buffered: usize, now: u64) -> (PlayoutDepthModel, PlayoutDepthAction) {
    let req = clamp_to(requested as int, min_frames(o.frame_ms), max_frames(o.frame_ms));
    let b = buffered as int;
    if req < o.active_frames {
        let d = if sub_floor(o.active_frames, req) < sub_floor(b, req) { sub_floor(o.active_frames, req) } else { sub_floor(b, req) };
        (
            PlayoutDepthModel { active_frames: req, planned_frames: req, holds_remaining: 0, settle_since_us: None, ..o },
            if d > 0 { PlayoutDepthAction::DropOldest(d as usize) } else { PlayoutDepthAction::Play },
        )
    } else if req == o.active_frames {
        if b > req + SETTLE_EXCESS_FRAMES {
            let since = match o.settle_since_us { Some(t) => t, None => now };
            if (if now >= since { now - since } else { 0 }) >= SETTLE_EXCESS_WINDOW_US {
                (PlayoutDepthModel { settle_since_us: None, holds_remaining: 0, ..o }, PlayoutDepthAction::DropOldest(1))
            } else {
                (PlayoutDepthModel { settle_since_us: Some(since), holds_remaining: 0, ..o }, PlayoutDepthAction::Play)
            }
        } else if b >= req {
            (PlayoutDepthModel { settle_since_us: None, holds_remaining: 0, ..o }, PlayoutDepthAction::Play)
        } else if o.holds_remaining > 0 {
            (PlayoutDepthModel { settle_since_us: None, holds_remaining: o.holds_remaining - 1, ..o }, PlayoutDepthAction::Hold)
        } else {
            (PlayoutDepthModel { settle_since_us: None, ..o }, PlayoutDepthAction::Play)
        }
    } else {
        let planned = req;
        let holds = if req != o.planned_frames { sub_floor(req, b) } else { o.holds_remaining };
        if b >= req {
            (PlayoutDepthModel { active_frames: req, planned_frames: planned, holds_remaining: 0, settle_since_us: None, ..o }, PlayoutDepthAction::Play)
        } else if holds > 0 {
            (PlayoutDepthModel { planned_frames: planned, holds_remaining: holds - 1, settle_since_us: None, ..o }, PlayoutDepthAction::Hold)
        } else {
            (PlayoutDepthModel { active_frames: req, planned_frames: planned, holds_remaining: holds, settle_since_us: None, ..o }, PlayoutDepthAction::Play)
        }
    }
}

impl PlayoutDepthState {
    /// Invariant: positive frame length, active depth within the bounds.
    pub closed spec fn wf(&self) -> bool {
        &&& self.frame_ms >= 1
        &&& min_frames(self.frame_ms) <= self.active_frames <= max_frames(self.frame_ms)
    }

    /// A plan at `initial_frames` (clamped to the bounds) for frames of `frame_ms`.
    pub fn new(initial_frames: usize, frame_ms: u32) -> (r: Self)
        ensures
            r.wf(),
            r@.active_frames == clamp_to(initial_frames as int, min_frames(frame_ms), max_frames(frame_ms)),
            r@.planned_frames == r@.active_frames,
            r@.holds_remaining == 0,
            r@.frame_ms == frame_ms_or_one(frame_ms),
            r@.settle_since_us is None,
    {
        let initial = clamp_depth(initial_frames, frame_ms);
        let fm: u32 = if frame_ms == 0 { 1 } else { frame_ms };
        proof {
            assert(frames_for(20, fm) == frames_for(20, frame_ms));
            assert(frames_for(120, fm) == frames_for(120, frame_ms));
        }
        PlayoutDepthState {
            active_frames: initial,
            planned_frames: initial,
            holds_remaining: 0,
            frame_ms: fm,
            settle_since_us: None,
        }
    }

    /// Depth currently in effect (frames).
    pub fn active_frames(&self) -> (r: usize)
        ensures
            r == self@.active_frames,
    {
        self.active_frames
    }

    /// After an underrun at the current depth: rebuild the real depth with bounded holds.
    pub fn refill_after_underrun(&mut self, buffered_frames: usize)
        requires
            old(self).wf(),
        ensures
            final(self).wf(),
            final(self)@ == (PlayoutDepthModel {
                planned_frames: old(self)@.active_frames,
                holds_remaining: sub_floor(old(self)@.active_frames, buffered_frames as int),
                settle_since_us: None,
                ..old(self)@
            }),
    {
        self.planned_frames = self.active_frames;
        self.holds_remaining = self.active_frames.saturating_sub(buffered_frames);
        self.settle_since_us = None;
    }

    /// Action for this tick given the requested depth and the buffered frames at `now_us`.
    pub fn action(&mut self, requested_frames: usize, buffered_frames: usize, now_us: u64) -> (r: PlayoutDepthAction)
        requires
            old(self).wf(),
        ensures
            final(self).wf(),
            (final(self)@, r) == depth_tick(old(self)@, requested_frames, buffered_frames, now_us),
    {
        proof {
            lemma_depth_bounds(self.frame_ms);
        }
        let requested = clamp_depth(requested_frames, self.frame_ms);
        if requested < self.active_frames {
            let by_target = self.active_frames.saturating_sub(requested);
            let by_buffer = buffered_frames.saturating_sub(requested);
            let drop_frames = if by_target < by_buffer { by_target } else { by_buffer };
            self.active_frames = requested;
            self.planned_frames = requested;
            self.holds_remaining = 0;
            self.settle_since_us = None;
            return if drop_frames > 0 {
                PlayoutDepthAction::DropOldest(drop_frames)
            } else {
                PlayoutDepthAction::Play
            };
        }
        if requested == self.active_frames {
            if buffered_frames > requested + SETTLE_EXCESS_FRAMES {
                let since = match self.settle_since_us {
                    Some(t) => t,
                    None => now_us,
                };
                self.settle_since_us = Some(since);
                if now_us.saturating_sub(since) >= SETTLE_EXCESS_WINDOW_US {
                    self.settle_since_us = None;
                    self.holds_remaining = 0;
                    return PlayoutDepthAction::DropOldest(1);
                }
            } else {
                self.settle_since_us = None;
            }
            if buffered_frames >= requested {
                self.holds_remaining = 0;
                return PlayoutDepthAction::Play;
            }
            if self.holds_remaining > 0 {
                self.holds_remaining = self.holds_remaining - 1;
                return PlayoutDepthAction::Hold;
            }
            return PlayoutDepthAction::Play;
        }
        self.settle_since_us = None;
        if requested != self.planned_frames {
            self.planned_frames = requested;
            self.holds_remaining = requested.saturating_sub(buffered_frames);
        }
        if buffered_frames >= requested {
            self.active_frames = requested;
            self.holds_remaining = 0;
            return PlayoutDepthAction::Play;
        }
        if self.holds_remaining > 0 {
            self.holds_remaining = self.holds_remaining - 1;
            return PlayoutDepthAction::Hold;
        }
        self.active_frames = requested;
        PlayoutDepthAction::Play
    }
}

/// An encoded audio packet waiting in (or leaving) the reorder window.
#[derive(Debug, PartialEq, Eq)]
pub struct EncodedAudioPacket {
    /// Sequence number.
    pub seq: u32,
    /// Encoded payload.
    pub payload: Vec<u8>,
    arrived_at_us: u64,
}

/// Abstract content of a packet.
pub struct PacketModel {
    pub seq: u32,
    pub payload: Seq<u8>,
    pub arrived_at_us: u64,
}

impl View for EncodedAudioPacket {
    type V = PacketModel;

    closed spec fn view(&self) -> PacketModel {
        PacketModel { seq: self.seq, payload: self.payload@, arrived_at_us: self.arrived_at_us }
    }
}

impl EncodedAudioPacket {
    /// A packet with its arrival time (µs).
    pub fn new(seq: u32, payload: Vec<u8>, arrived_at_us: u64) -> (r: Self)
        ensures
            r@ == (PacketModel { seq, payload: payload@, arrived_at_us }),
    {
        EncodedAudioPacket { seq, payload, arrived_at_us }
    }

    /// When the packet arrived (µs).
    pub fn arrived_at_us(&self) -> (r: u64)
        ensures
            r == self@.arrived_at_us,
    {
        self.arrived_at_us
    }
}

/// What one push or flush hands out.
#[derive(Debug)]
pub struct ReorderBatch {
    /// Packets ready for decoding, in delivery order.
    pub ready: Vec<EncodedAudioPacket>,
    /// Packets given up as late.
    pub late_drops: u32,
    /// The pushed sequence number entered the window for the first time.
    pub accepted_new_seq: bool,
}

/// Models of a vector of packets.
pub open spec fn packets_view(v: Seq<EncodedAudioPacket>) -> Seq<PacketModel> {
    v.map_values(|p: EncodedAudioPacket| p@)
}

/// Sequence numbers of packets.
pub open spec fn seqs_of(p: Seq<PacketModel>) -> Seq<u32> {
    p.map_values(|m: PacketModel| m.seq)
}

/// Distance of `seq` ahead of the cursor `expected`.
pub open spec fn key(expected: u32, seq: u32) -> int {
    seq_dist(seq, expected)
}

/// Packets are in strictly increasing distance ahead of `expected`.
pub open spec fn sorted_from(expected: u32, p: Seq<PacketModel>) -> bool {
    forall|i: int, j: int| 0 <= i < j < p.len() ==> key(expected, p[i].seq) < key(expected, p[j].seq)
}

/// Length of the run `expected, expected+1, ...` at the front of `p`.
pub open spec fn run_len(expected: u32, p: Seq<PacketModel>) -> nat
    decreases p.len(),
{
    if p.len() > 0 && p[0].seq == expected {
        1 + run_len(seq_add(expected, 1), p.drop_first())
    } else {
        0
    }
}

/// Remember one delivered sequence number in a list bounded by `cap2`.
pub open spec fn remember(recent: Seq<u32>, s: u32, cap2: int) -> Seq<u32> {
    (if recent.len() >= cap2 { recent.drop_first() } else { recent }).push(s)
}

/// Remember several delivered sequence numbers in order.
pub open spec fn remember_all(recent: Seq<u32>, seqs: Seq<u32>, cap2: int) -> Seq<u32>
    decreases seqs.len(),
{
    if seqs.len() == 0 {
        recent
    } else {
        remember(remember_all(recent, seqs.drop_last(), cap2), seqs.last(), cap2)
    }
}

/// Position at which a packet with `seq` keeps `p` sorted.
pub open spec fn insert_index(expected: u32, p: Seq<PacketModel>, seq: u32) -> nat
    decreases p.len(),
{
    if p.len() == 0 || key(expected, seq) < key(expected, p[0].seq) {
        0
    } else {
        1 + insert_index(expected, p.drop_first(), seq)
    }
}

/// Abstract state of the reorder window.
pub struct ReorderModel {
    /// Next sequence number to deliver.
    pub expected: Option<u32>,
    /// Waiting packets, in delivery order.
    pub pending: Seq<PacketModel>,
    /// Recently delivered sequence numbers (duplicate filter).
    pub recent: Seq<u32>,
    pub frame_period_us: u64,
    pub frame_ms: u32,
    pub target_frames: int,
    pub full_reorder_frames: int,
    pub reorder_capacity: int,
    pub grace_us: u64,
    /// When the current hole was first seen.
    pub gap_since_us: Option<u64>,
}

/// A hole precedes the first waiting packet.
pub open spec fn has_gap(m: ReorderModel) -> bool {
    m.expected is Some && m.pending.len() > 0 && m.pending[0].seq != m.expected->0
}

/// Bounded wait for the current hole (µs): 0 without a hole.
pub open spec fn reorder_wait(m: ReorderModel) -> u64 {
    if !has_gap(m) {
        0
    } else {
        let base = if m.target_frames >= m.full_reorder_frames {
            m.frame_period_us
        } else if REDUNDANT_REORDER_GRACE_US < m.frame_period_us {
            REDUNDANT_REORDER_GRACE_US
        } else {
            m.frame_period_us
        };
        if base > m.grace_us { base } else { m.grace_us }
    }
}

/// Deliver the contiguous run at the front.
pub open spec fn drain(m: ReorderModel) -> (ReorderModel, Seq<PacketModel>) {
    match m.expected {
        None => (m, Seq::empty()),
        Some(e) => {
            let n = run_len(e, m.pending);
            let out = m.pending.take(n as int);
            (
                ReorderModel {
                    expected: Some(seq_add(e, n as int)),
                    pending: m.pending.skip(n as int),
                    recent: remember_all(m.recent, seqs_of(out), m.reorder_capacity * 2),
                    ..m
                },
                out,
            )
        },
    }
}

/// Skip the hole: jump the cursor to the earliest waiting packet and deliver from there.
pub open spec fn force(m: ReorderModel) -> (ReorderModel, Seq<PacketModel>) {
    if m.pending.len() == 0 {
        (m, Seq::empty())
    } else {
        drain(ReorderModel { expected: Some(m.pending[0].seq), ..m })
    }
}

/// Start or stop timing the current hole.
pub open spec fn refresh_gap(m: ReorderModel, now: u64) -> ReorderModel {
    if has_gap(m) {
        ReorderModel { gap_since_us: if m.gap_since_us is None { Some(now) } else { m.gap_since_us }, ..m }
    } else {
        ReorderModel { gap_since_us: None, ..m }
    }
}

/// Earliest arrival among the waiting packets.
pub open spec fn min_arrival(p: Seq<PacketModel>) -> u64
    decreases p.len(),
{
    if p.len() <= 1 {
        p[0].arrived_at_us
    } else {
        let rest = min_arrival(p.drop_last());
        if p.last().arrived_at_us < rest { p.last().arrived_at_us } else { rest }
    }
}

/// When the current hole (or the oldest waiting packet) must be given up.
pub open spec fn deadline(m: ReorderModel) -> Option<u64> {
    let w = reorder_wait(m);
    if w == 0 {
        None
    } else {
        match m.gap_since_us {
            Some(since) => Some((since + w) as u64),
            None => Some((min_arrival(m.pending) + w) as u64),
        }
    }
}

/// No deadline computation overflows.
pub open spec fn deadline_fits(m: ReorderModel) -> bool {
    &&& (m.gap_since_us matches Some(since) ==> since + reorder_wait(m) <= u64::MAX)
    &&& forall|i: int| 0 <= i < m.pending.len() ==> m.pending[i].arrived_at_us + reorder_wait(m) <= u64::MAX
}

/// Result of pushing `pkt` into the window: new state, ready packets, late drops, accepted.
pub open spec fn push_result(m: ReorderModel, pkt: PacketModel) -> (ReorderModel, Seq<PacketModel>, int, bool) {
    let seq = pkt.seq;
    let e0 = match m.expected { Some(e) => e, None => seq };
    let m0 = ReorderModel { expected: Some(e0), ..m };
    if m.recent.contains(seq) || seqs_of(m.pending).contains(seq) {
        (m0, Seq::empty(), 0, false)
    } else if key(e0, seq) >= 0x8000_0000 {
        (m0, Seq::empty(), 1, false)
    } else {
        let resync = key(e0, seq) >= DISCONTINUITY_FRAMES;
        let m1 = if resync {
            ReorderModel { expected: Some(seq), pending: Seq::empty(), recent: Seq::empty(), ..m0 }
        } else {
            m0
        };
        let late = if resync { m0.pending.len() as int } else { 0 };
        let e1 = m1.expected->0;
        let idx = insert_index(e1, m1.pending, seq) as int;
        let m2 = ReorderModel { pending: m1.pending.insert(idx, pkt), ..m1 };
        let (m3, r1) = drain(m2);
        let (m4, r2) = if reorder_wait(m3) == 0 || m3.pending.len() > m3.reorder_capacity {
            force(m3)
        } else {
            (m3, Seq::empty())
        };
        (refresh_gap(m4, pkt.arrived_at_us), r1 + r2, late, true)
    }
}

/// Bounded sequence reorder window.
#[derive(Debug)]
pub struct PacketReorderBuffer {
    expected_seq: Option<u32>,
    pending: Vec<EncodedAudioPacket>,
    recent_delivered: Vec<u32>,
    frame_period_us: u64,
    frame_ms: u32,
    target_frames: usize,
    full_reorder_frames: usize,
    reorder_capacity: usize,
    retransmit_grace_us: u64,
    gap_since_us: Option<u64>,
}

impl View for PacketReorderBuffer {
    type V = ReorderModel;

    closed spec fn view(&self) -> ReorderModel {
        ReorderModel {
            expected: self.expected_seq,
            pending: packets_view(self.pending@),
            recent: self.recent_delivered@,
            frame_period_us: self.frame_period_us,
            frame_ms: self.frame_ms,
            target_frames: self.target_frames as int,
            full_reorder_frames: self.full_reorder_frames as int,
            reorder_capacity: self.reorder_capacity as int,
            grace_us: self.retransmit_grace_us,
            gap_since_us: self.gap_since_us,
        }
    }
}

/// Well-formed abstract reorder state.
pub open spec fn reorder_wf(m: ReorderModel) -> bool {
    &&& m.frame_ms >= 1
    &&& m.reorder_capacity == frames_for(REORDER_CAPACITY_MS as int, m.frame_ms)
    &&& m.full_reorder_frames == frames_for(FULL_REORDER_MS as int, m.frame_ms)
    &&& m.pending.len() <= m.reorder_capacity
    &&& m.recent.len() <= m.reorder_capacity * 2
    &&& (m.pending.len() > 0 ==> m.expected is Some)
    &&& (m.expected matches Some(e) ==> sorted_from(e, m.pending))
    &&& (m.expected matches Some(e) ==> (m.pending.len() > 0 ==> m.pending[0].seq != e))
}

impl PacketReorderBuffer {
    /// Well-formedness of the window.
    pub closed spec fn wf(&self) -> bool {
        reorder_wf(self@)
    }

    /// An empty window for frames of `frame_period_us` µs.
    pub fn new(frame_period_us: u64) -> (r: Self)
        ensures
            r.wf(),
            r@.expected is None,
            r@.pending.len() == 0,
            r@.recent.len() == 0,
            r@.frame_period_us == frame_period_us,
            r@.frame_ms == (if frame_period_us / 1000 > u32::MAX { 20 } else if frame_period_us / 1000 == 0 { 1 } else { frame_period_us / 1000 }),
            r@.target_frames == frames_for(INITIAL_TARGET_MS as int, r@.frame_ms),
            r@.reorder_capacity == frames_for(REORDER_CAPACITY_MS as int, r@.frame_ms),
            r@.full_reorder_frames == frames_for(FULL_REORDER_MS as int, r@.frame_ms),
            window_near(r@),
            r@.grace_us == 0,
            r@.gap_since_us is None,
    {
        let millis = frame_period_us / 1000;
        let frame_ms: u32 = if millis > u32::MAX as u64 { 20 } else if millis == 0 { 1 } else { millis as u32 };
        let reorder_capacity = frames_for_ms(REORDER_CAPACITY_MS, frame_ms);
        proof {
            lemma_depth_bounds(frame_ms);
            assert(packets_view(Seq::<EncodedAudioPacket>::empty()) =~= Seq::<PacketModel>::empty());
        }
        PacketReorderBuffer {
            expected_seq: None,
            pending: Vec::new(),
            recent_delivered: Vec::new(),
            frame_period_us,
            frame_ms,
            target_frames: frames_for_ms(INITIAL_TARGET_MS, frame_ms),
            full_reorder_frames: frames_for_ms(FULL_REORDER_MS, frame_ms),
            reorder_capacity,
            retransmit_grace_us: 0,
            gap_since_us: None,
        }
    }

    /// Bounded wait granted to a hole while a retransmission is requested (0 = none).
    pub fn set_retransmit_grace(&mut self, grace_us: u64)
        requires
            old(self).wf(),
        ensures
            final(self).wf(),
            final(self)@ == (ReorderModel { grace_us, ..old(self)@ }),
    {
        self.retransmit_grace_us = grace_us;
    }

    /// Depth the playout currently aims at (clamped to the bounds of the frame length).
    pub fn set_target_frames(&mut self, target_frames: usize)
        requires
            old(self).wf(),
        ensures
            final(self).wf(),
            final(self)@ == (ReorderModel {
                target_frames: clamp_to(target_frames as int, min_frames(old(self)@.frame_ms), max_frames(old(self)@.frame_ms)),
                ..old(self)@
            }),
    {
        self.target_frames = clamp_depth(target_frames, self.frame_ms);
    }
}

/// Core well-formedness without the "front is not due" and capacity clauses (holds while a
/// push is in progress).
pub open spec fn reorder_core(m: ReorderModel) -> bool {
    &&& m.frame_ms >= 1
    &&& m.reorder_capacity == frames_for(REORDER_CAPACITY_MS as int, m.frame_ms)
    &&& m.full_reorder_frames == frames_for(FULL_REORDER_MS as int, m.frame_ms)
    &&& m.recent.len() <= m.reorder_capacity * 2
    &&& m.pending.len() <= m.reorder_capacity + 1
    &&& (m.pending.len() > 0 ==> m.expected is Some)
    &&& (m.expected matches Some(e) ==> sorted_from(e, m.pending))
}

/// Moving the cursor one step past a due packet shifts every distance by one.
pub proof fn lemma_key_shift1(e: u32, x: u32)
    requires
        key(e, x) >= 1,
    ensures
        key(seq_add(e, 1), x) == key(e, x) - 1,
{
}

/// Jumping the cursor to `p0` shifts the distances of packets beyond it by `key(e, p0)`.
pub proof fn lemma_key_shift(e: u32, p0: u32, x: u32)
    requires
        key(e, x) >= key(e, p0),
    ensures
        key(p0, x) == key(e, x) - key(e, p0),
{
}

/// Two steps of the cursor compose.
pub proof fn lemma_seq_add_assoc(e: u32, k: int)
    requires
        k >= 0,
    ensures
        seq_add(seq_add(e, k), 1) == seq_add(e, k + 1),
{
    assert(((((e + k) % 0x1_0000_0000) + 1) % 0x1_0000_0000) == ((e + k + 1) % 0x1_0000_0000)) by (nonlinear_arith)
        requires k >= 0, e >= 0;
}

/// Remembering one more number.
pub proof fn lemma_remember_all_push(recent: Seq<u32>, seqs: Seq<u32>, x: u32, cap2: int)
    ensures
        remember_all(recent, seqs.push(x), cap2) == remember(remember_all(recent, seqs, cap2), x, cap2),
{
    assert(seqs.push(x).drop_last() =~= seqs);
}

/// The list of remembered numbers stays bounded.
pub proof fn lemma_remember_bounded(recent: Seq<u32>, s: u32, cap2: int)
    requires
        cap2 >= 1,
        recent.len() <= cap2,
    ensures
        remember(recent, s, cap2).len() <= cap2,
{
}

/// Where the insertion loop stops is the sorted insertion point.
pub proof fn lemma_insert_index(e: u32, p: Seq<PacketModel>, s: u32, i: int)
    requires
        0 <= i <= p.len(),
        forall|k: int| 0 <= k < i ==> key(e, p[k].seq) < key(e, s),
        i < p.len() ==> key(e, s) < key(e, p[i].seq),
    ensures
        insert_index(e, p, s) == i,
    decreases i,
{
    if i > 0 {
        let q = p.drop_first();
        assert forall|k: int| 0 <= k < i - 1 implies key(e, q[k].seq) < key(e, s) by {
            assert(q[k] == p[k + 1]);
        }
        if i - 1 < q.len() {
            assert(q[i - 1] == p[i]);
        }
        lemma_insert_index(e, q, s, i - 1);
    }
}

impl PacketReorderBuffer {
    /// A hole precedes the first waiting packet.
    fn has_gap(&self) -> (r: bool)
        ensures
            r == has_gap(self@),
    {
        match self.expected_seq {
            None => false,
            Some(e) => self.pending.len() > 0 && self.pending[0].seq != e,
        }
    }

    /// Wait granted to the hole because of a requested retransmission.
    fn gap_wait(&self) -> (r: u64)
        ensures
            r == (if has_gap(self@) { self@.grace_us } else { 0 }),
    {
        if self.has_gap() {
            self.retransmit_grace_us
        } else {
            0
        }
    }

    /// Bounded wait for the current hole (µs).
    fn reorder_wait(&self) -> (r: u64)
        ensures
            r == reorder_wait(self@),
    {
        if !self.has_gap() {
            return 0;
        }
        let base = if self.target_frames >= self.full_reorder_frames {
            self.frame_period_us
        } else if REDUNDANT_REORDER_GRACE_US < self.frame_period_us {
            REDUNDANT_REORDER_GRACE_US
        } else {
            self.frame_period_us
        };
        let grace = self.gap_wait();
        if base > grace { base } else { grace }
    }

    /// Start timing a new hole, or stop when there is none.
    fn refresh_gap(&mut self, now_us: u64)
        ensures
            final(self)@ == refresh_gap(old(self)@, now_us),
    {
        if self.has_gap() {
            if self.gap_since_us.is_none() {
                self.gap_since_us = Some(now_us);
            }
        } else {
            self.gap_since_us = None;
        }
    }

    /// Remember a delivered sequence number (bounded duplicate filter).
    fn remember_delivered(&mut self, seq: u32)
        requires
            1 <= old(self).reorder_capacity <= 60,
        ensures
            final(self)@ == (ReorderModel { recent: remember(old(self)@.recent, seq, old(self)@.reorder_capacity * 2), ..old(self)@ }),
    {
        let recent_capacity = self.reorder_capacity * 2;
        if self.recent_delivered.len() >= recent_capacity {
            let _ = self.recent_delivered.remove(0);
            proof {
                assert(self.recent_delivered@ =~= old(self).recent_delivered@.drop_first());
            }
        }
        self.recent_delivered.push(seq);
    }

    /// Deliver the contiguous run at the front of the window into `ready`.
    fn drain_contiguous(&mut self, ready: &mut Vec<EncodedAudioPacket>)
        requires
            reorder_core(old(self)@),
            old(self).reorder_capacity <= 60,
        ensures
            reorder_core(final(self)@),
            final(self).reorder_capacity == old(self).reorder_capacity,
            final(self)@ == drain(old(self)@).0,
            packets_view(final(ready)@) == packets_view(old(ready)@) + drain(old(self)@).1,
            final(self)@.expected matches Some(e) ==> (final(self)@.pending.len() > 0 ==> final(self)@.pending[0].seq != e),
    {
        let e = match self.expected_seq {
            None => {
                return;
            },
            Some(e) => e,
        };
        let ghost m0 = self@;
        let ghost pk = m0.pending;
        let ghost r0 = packets_view(ready@);
        let ghost cap2 = m0.reorder_capacity * 2;
        let mut k: usize = 0;
        proof {
            assert(pk.skip(0) =~= pk);
            assert(pk.take(0) =~= Seq::<PacketModel>::empty());
            assert(seqs_of(pk.take(0)) =~= Seq::<u32>::empty());
            assert(seq_add(e, 0) == e);
            assert(r0 + pk.take(0) =~= r0);
        }
        loop
            invariant
                reorder_core(self@),
                self.reorder_capacity == old(self).reorder_capacity,
                self.reorder_capacity <= 60,
                self@ == (ReorderModel {
                    expected: Some(seq_add(e, k as int)),
                    pending: pk.skip(k as int),
                    recent: remember_all(m0.recent, seqs_of(pk.take(k as int)), cap2),
                    ..m0
                }),
                0 <= k <= pk.len(),
                run_len(e, pk) == k + run_len(seq_add(e, k as int), pk.skip(k as int)),
                packets_view(ready@) == r0 + pk.take(k as int),
                m0.expected == Some(e),
                pk == m0.pending,
                pk.len() <= 61,
                cap2 == m0.reorder_capacity * 2,
            ensures
                self@ == drain(m0).0,
                packets_view(ready@) == r0 + drain(m0).1,
                reorder_core(self@),
                self.reorder_capacity == old(self).reorder_capacity,
                self@.expected matches Some(x) ==> (self@.pending.len() > 0 ==> self@.pending[0].seq != x),
            decreases pk.len() - k,
        {
            let cur = seq_inc(e, k as u32);
            proof {
                assert(k <= u32::MAX) by {
                    assert(pk.len() <= 61);
                }
                assert(cur == seq_add(e, k as int));
            }
            if self.pending.len() == 0 || self.pending[0].seq != cur {
                proof {
                    assert(run_len(cur, pk.skip(k as int)) == 0);
                    assert(run_len(e, pk) == k);
                    assert(drain(m0).1 == pk.take(k as int));
                    assert(drain(m0).0 == self@);
                }
                break;
            }
            let ghost before = self@;
            let ghost ready_before = ready@;
            let pkt = self.pending.remove(0);
            proof {
                assert(packets_view(self.pending@) =~= before.pending.drop_first());
                assert(pk.skip(k as int).drop_first() =~= pk.skip(k + 1));
                assert(pkt@ == pk[k as int]);
                lemma_seq_add_assoc(e, k as int);
                // sortedness moves with the cursor
                let q = before.pending;
                assert forall|i: int, j: int| 0 <= i < j < q.len() - 1 implies key(seq_add(cur, 1), q.drop_first()[i].seq) < key(seq_add(cur, 1), q.drop_first()[j].seq) by {
                    assert(q.drop_first()[i] == q[i + 1]);
                    assert(q.drop_first()[j] == q[j + 1]);
                    assert(key(cur, q[0].seq) == 0);
                    lemma_key_shift1(cur, q[i + 1].seq);
                    lemma_key_shift1(cur, q[j + 1].seq);
                }
            }
            self.expected_seq = Some(seq_inc(cur, 1));
            let seq = pkt.seq;
            self.remember_delivered(seq);
            ready.push(pkt);
            proof {
                assert(pk.take(k + 1) =~= pk.take(k as int).push(pk[k as int]));
                assert(seqs_of(pk.take(k + 1)) =~= seqs_of(pk.take(k as int)).push(seq));
                lemma_remember_all_push(m0.recent, seqs_of(pk.take(k as int)), seq, cap2);
                lemma_remember_bounded(before.recent, seq, cap2);
                assert(packets_view(ready@) =~= packets_view(ready_before).push(pkt@));
                assert(r0 + pk.take(k + 1) =~= (r0 + pk.take(k as int)).push(pk[k as int]));
            }
            k = k + 1;
        }
    }

    /// Give up the hole: jump to the earliest waiting packet and deliver from there.
    fn force_earliest(&mut self, ready: &mut Vec<EncodedAudioPacket>)
        requires
            reorder_core(old(self)@),
            old(self).reorder_capacity <= 60,
        ensures
            reorder_core(final(self)@),
            final(self).reorder_capacity == old(self).reorder_capacity,
            final(self)@ == force(old(self)@).0,
            packets_view(final(ready)@) == packets_view(old(ready)@) + force(old(self)@).1,
            final(self)@.expected matches Some(e) ==> (final(self)@.pending.len() > 0 ==> final(self)@.pending[0].seq != e),
    {
        if self.pending.len() == 0 {
            proof {
                assert(packets_view(ready@) + Seq::<PacketModel>::empty() =~= packets_view(ready@));
            }
            return;
        }
        let first = self.pending[0].seq;
        let ghost m = self@;
        proof {
            let e = m.expected->0;
            assert forall|i: int, j: int| 0 <= i < j < m.pending.len() implies key(first, m.pending[i].seq) < key(first, m.pending[j].seq) by {
                if i > 0 {
                    assert(key(e, m.pending[0].seq) < key(e, m.pending[i].seq));
                }
                lemma_key_shift(e, first, m.pending[i].seq);
                lemma_key_shift(e, first, m.pending[j].seq);
            }
        }
        self.expected_seq = Some(first);
        self.drain_contiguous(ready);
    }

    /// Insert a packet at its sorted position (its sequence number is not waiting yet).
    fn insert_sorted(&mut self, pkt: EncodedAudioPacket)
        requires
            reorder_core(old(self)@),
            old(self)@.expected is Some,
            old(self)@.pending.len() <= old(self)@.reorder_capacity,
            !seqs_of(old(self)@.pending).contains(pkt.seq),
        ensures
            reorder_core(final(self)@),
            final(self).reorder_capacity == old(self).reorder_capacity,
            final(self)@ == (ReorderModel {
                pending: old(self)@.pending.insert(
                    insert_index(old(self)@.expected->0, old(self)@.pending, pkt.seq) as int,
                    pkt@,
                ),
                ..old(self)@
            }),
    {
        let e = match self.expected_seq {
            Some(e) => e,
            None => 0,
        };
        let ghost p = self@.pending;
        let kx = seq_sub(pkt.seq, e);
        let mut i: usize = 0;
        while i < self.pending.len() && seq_sub(self.pending[i].seq, e) < kx
            invariant
                self@ == old(self)@,
                p == self@.pending,
                0 <= i <= p.len(),
                kx == key(e, pkt.seq),
                forall|k: int| 0 <= k < i ==> key(e, p[k].seq) < key(e, pkt.seq),
            decreases p.len() - i,
        {
            i = i + 1;
        }
        proof {
            if i < p.len() {
                assert(p[i as int].seq != pkt.seq) by {
                    assert(seqs_of(p)[i as int] == p[i as int].seq);
                }
                if key(e, p[i as int].seq) == key(e, pkt.seq) {
                    crate::nack::lemma_seq_dist_injective(e, p[i as int].seq, pkt.seq);
                    assert(false);
                }
            }
            lemma_insert_index(e, p, pkt.seq, i as int);
        }
        let ghost pm = pkt@;
        self.pending.insert(i, pkt);
        proof {
            assert(packets_view(self.pending@) =~= p.insert(i as int, pm));
            let q = p.insert(i as int, pm);
            assert forall|a: int, b: int| 0 <= a < b < q.len() implies key(e, q[a].seq) < key(e, q[b].seq) by {
                if a < i && b < i {
                } else if a < i && b == i {
                } else if a < i {
                    assert(q[b] == p[b - 1]);
                } else if a == i {
                    assert(q[b] == p[b - 1]);
                    assert(key(e, p[i as int].seq) > key(e, pkt.seq) || b - 1 > i);
                    if b - 1 > i {
                        assert(key(e, p[i as int].seq) < key(e, p[b - 1].seq));
                    }
                } else {
                    assert(q[a] == p[a - 1]);
                    assert(q[b] == p[b - 1]);
                }
            }
        }
    }
}

/// Whether a flush at `now` gives up the current hole.
pub open spec fn flush_due(m: ReorderModel, now: u64) -> bool {
    (m.pending.len() > 0 && reorder_wait(m) == 0) || (deadline(m) matches Some(d) && d <= now)
}

/// A forced delivery always takes at least the earliest waiting packet.
pub proof fn lemma_force_progress(m: ReorderModel)
    requires
        m.pending.len() > 0,
    ensures
        force(m).0.pending.len() < m.pending.len(),
{
    let p = m.pending;
    assert(run_len(p[0].seq, p) >= 1);
    lemma_run_len_bound(p[0].seq, p);
}

/// A run is never longer than the packets it is taken from.
pub proof fn lemma_run_len_bound(e: u32, p: Seq<PacketModel>)
    ensures
        run_len(e, p) <= p.len(),
    decreases p.len(),
{
    if p.len() > 0 && p[0].seq == e {
        lemma_run_len_bound(seq_add(e, 1), p.drop_first());
    }
}

impl PacketReorderBuffer {
    /// Whether a packet with `seq` is waiting.
    fn pending_has(&self, seq: u32) -> (r: bool)
        ensures
            r == seqs_of(self@.pending).contains(seq),
    {
        let mut i: usize = 0;
        while i < self.pending.len()
            invariant
                0 <= i <= self.pending@.len(),
                forall|k: int| 0 <= k < i ==> self.pending@[k].seq != seq,
            decreases self.pending@.len() - i,
        {
            if self.pending[i].seq == seq {
                proof {
                    assert(seqs_of(self@.pending)[i as int] == seq);
                }
                return true;
            }
            i = i + 1;
        }
        proof {
            if seqs_of(self@.pending).contains(seq) {
                let w = choose|w: int| 0 <= w < seqs_of(self@.pending).len() && seqs_of(self@.pending)[w] == seq;
                assert(self.pending@[w].seq == seq);
            }
        }
        false
    }

    /// Push an arrived packet. Duplicates (recently delivered or already waiting) are
    /// dropped silently; a packet behind the cursor counts as late; a jump of
    /// `DISCONTINUITY_FRAMES` or more restarts the window. Contiguous packets leave at once;
    /// a hole is given up when no wait applies or the window overflows.
    pub fn push(&mut self, seq: u32, payload: Vec<u8>, arrived_at_us: u64) -> (r: ReorderBatch)
        requires
            old(self).wf(),
        ensures
            final(self).wf(),
            ({
                let (m, ready, late, accepted) = push_result(
                    old(self)@,
                    PacketModel { seq, payload: payload@, arrived_at_us },
                );
                &&& final(self)@ == m
                &&& packets_view(r.ready@) == ready
                &&& r.late_drops == late
                &&& r.accepted_new_seq == accepted
            }),
    {
        proof {
            lemma_depth_bounds(self.frame_ms);
            assert(packets_view(Seq::<EncodedAudioPacket>::empty()) =~= Seq::<PacketModel>::empty());
        }
        let mut batch = ReorderBatch { ready: Vec::new(), late_drops: 0, accepted_new_seq: false };
        let expected = match self.expected_seq {
            Some(e) => e,
            None => {
                self.expected_seq = Some(seq);
                seq
            },
        };
        let distance = seq_sub(seq, expected);
        if crate::nack::contains_u32(&self.recent_delivered, seq) || self.pending_has(seq) {
            return batch;
        }
        if distance >= 0x8000_0000 {
            batch.late_drops = 1;
            return batch;
        }
        if distance >= DISCONTINUITY_FRAMES {
            batch.late_drops = self.pending.len() as u32;
            self.pending.clear();
            self.recent_delivered.clear();
            self.expected_seq = Some(seq);
            proof {
                assert(packets_view(self.pending@) =~= Seq::<PacketModel>::empty());
            }
        }
        batch.accepted_new_seq = true;
        proof {
            if seqs_of(self@.pending).contains(seq) {
                let w = choose|w: int| 0 <= w < seqs_of(self@.pending).len() && seqs_of(self@.pending)[w] == seq;
                assert(false);
            }
        }
        self.insert_sorted(EncodedAudioPacket { seq, payload, arrived_at_us });
        let ghost r1_before = packets_view(batch.ready@);
        self.drain_contiguous(&mut batch.ready);
        let ghost after_drain = self@;
        let ghost r_after_drain = packets_view(batch.ready@);
        if self.reorder_wait() == 0 || self.pending.len() > self.reorder_capacity {
            proof {
                if after_drain.pending.len() > 0 {
                    lemma_force_progress(after_drain);
                }
            }
            self.force_earliest(&mut batch.ready);
        } else {
            proof {
                assert(r_after_drain + Seq::<PacketModel>::empty() =~= r_after_drain);
            }
        }
        self.refresh_gap(arrived_at_us);
        proof {
            assert(r1_before =~= Seq::<PacketModel>::empty());
            assert(Seq::<PacketModel>::empty() + drain(after_drain).1 =~= drain(after_drain).1);
        }
        batch
    }

    /// When the current hole must be given up (µs), if any wait applies.
    pub fn next_deadline(&self) -> (r: Option<u64>)
        requires
            self.wf(),
            deadline_fits(self@),
        ensures
            r == deadline(self@),
    {
        let wait = self.reorder_wait();
        if wait == 0 {
            return None;
        }
        match self.gap_since_us {
            Some(since) => Some(since + wait),
            None => {
                let ghost p = self@.pending;
                let mut earliest = self.pending[0].arrived_at_us;
                let mut i: usize = 1;
                proof {
                    assert(p.take(1) =~= seq![p[0]]);
                }
                while i < self.pending.len()
                    invariant
                        p == self@.pending,
                        1 <= i <= p.len(),
                        earliest == min_arrival(p.take(i as int)),
                        forall|k: int| 0 <= k < i ==> earliest <= p[k].arrived_at_us,
                        exists|k: int| 0 <= k < i && earliest == p[k].arrived_at_us,
                    decreases p.len() - i,
                {
                    let a = self.pending[i].arrived_at_us;
                    proof {
                        assert(p.take(i + 1).drop_last() =~= p.take(i as int));
                        assert(p.take(i + 1).last() == p[i as int]);
                    }
                    if a < earliest {
                        earliest = a;
                    }
                    i = i + 1;
                }
                proof {
                    assert(p.take(p.len() as int) =~= p);
                }
                Some(earliest + wait)
            },
        }
    }

    /// Give up the hole once its deadline has passed at `now_us`.
    pub fn flush_expired(&mut self, now_us: u64) -> (r: ReorderBatch)
        requires
            old(self).wf(),
            deadline_fits(old(self)@),
        ensures
            final(self).wf(),
            r.late_drops == 0,
            !r.accepted_new_seq,
            if flush_due(old(self)@, now_us) {
                &&& final(self)@ == refresh_gap(force(old(self)@).0, now_us)
                &&& packets_view(r.ready@) == force(old(self)@).1
            } else {
                &&& final(self)@ == old(self)@
                &&& r.ready@.len() == 0
            },
    {
        proof {
            lemma_depth_bounds(self.frame_ms);
            assert(packets_view(Seq::<EncodedAudioPacket>::empty()) =~= Seq::<PacketModel>::empty());
        }
        let mut batch = ReorderBatch { ready: Vec::new(), late_drops: 0, accepted_new_seq: false };
        let due_now = match self.next_deadline() {
            Some(d) => d <= now_us,
            None => false,
        };
        if (self.pending.len() > 0 && self.reorder_wait() == 0) || due_now {
            proof {
                if self@.pending.len() > 0 {
                    lemma_force_progress(self@);
                }
            }
            self.force_earliest(&mut batch.ready);
            self.refresh_gap(now_us);
            proof {
                assert(Seq::<PacketModel>::empty() + force(old(self)@).1 =~= force(old(self)@).1);
            }
        }
        batch
    }
}

/// Every waiting packet lies less than `DISCONTINUITY_FRAMES` ahead of the cursor (a
/// packet further ahead restarts the window instead of waiting).
pub open spec fn window_near(m: ReorderModel) -> bool {
    forall|i: int|
        0 <= i < m.pending.len() ==> (m.expected matches Some(e) && key(e, #[trigger] m.pending[i].seq)
            < DISCONTINUITY_FRAMES)
}

/// `out` is handed out in wrapping order after `last`: the first number lies 1 to 2^31
/// ahead of `last`, and each further one 1 to 2^31 ahead of the one before it.
pub open spec fn in_order_after(last: u32, out: Seq<PacketModel>) -> bool {
    &&& out.len() > 0 ==> 1 <= key(last, out[0].seq) <= 0x8000_0000
    &&& forall|i: int| 1 <= i < out.len() ==> 1 <= key(out[i - 1].seq, #[trigger] out[i].seq) <= 0x8000_0000
}

/// The last number handed out, or `last` when nothing was.
pub open spec fn last_of(last: u32, out: Seq<PacketModel>) -> u32 {
    if out.len() > 0 { out.last().seq } else { last }
}

proof fn lemma_key_add(a: u32, b: u32, c: u32)
    requires
        key(a, b) + key(b, c) < 0x1_0000_0000,
    ensures
        key(a, c) == key(a, b) + key(b, c),
{
}

proof fn lemma_key_of_add(e: u32, n: int)
    requires
        0 <= n < 0x1_0000_0000,
    ensures
        key(e, seq_add(e, n)) == n,
{
    if e + n < 0x1_0000_0000 {
        assert((e + n) % 0x1_0000_0000 == e + n) by (nonlinear_arith)
            requires 0 <= e + n < 0x1_0000_0000;
    } else {
        assert((e + n) % 0x1_0000_0000 == e + n - 0x1_0000_0000) by (nonlinear_arith)
            requires 0x1_0000_0000 <= e + n < 0x2_0000_0000;
    }
}

proof fn lemma_concat_in_order(last: u32, a: Seq<PacketModel>, b: Seq<PacketModel>)
    requires
        in_order_after(last, a),
        in_order_after(last_of(last, a), b),
    ensures
        in_order_after(last, a + b),
        last_of(last, a + b) == last_of(last_of(last, a), b),
{
    let c = a + b;
    assert forall|i: int| 1 <= i < c.len() implies 1 <= key(c[i - 1].seq, #[trigger] c[i].seq) <= 0x8000_0000 by {
        if i < a.len() {
            assert(c[i] == a[i] && c[i - 1] == a[i - 1]);
        } else if i == a.len() {
            assert(c[i] == b[0] && c[i - 1] == a.last());
        } else {
            assert(c[i] == b[i - a.len()] && c[i - 1] == b[i - 1 - a.len()]);
        }
    }
    if a.len() == 0 {
        assert(c =~= b);
    }
    if b.len() > 0 {
        assert(c.last() == b.last());
    } else {
        assert(c =~= a);
    }
}


proof fn lemma_before_after(x: u32)
    ensures
        seq_add(seq_add(x, 1), 0xFFFF_FFFF) == x,
{
    assert(((((x + 1) % 0x1_0000_0000) + 0xFFFF_FFFF) % 0x1_0000_0000) == x as int) by (nonlinear_arith)
        requires 0 <= x < 0x1_0000_0000;
}

proof fn lemma_remember_all_bounded(recent: Seq<u32>, seqs: Seq<u32>, cap2: int)
    requires
        cap2 >= 1,
        recent.len() <= cap2,
    ensures
        remember_all(recent, seqs, cap2).len() <= cap2,
    decreases seqs.len(),
{
    if seqs.len() > 0 {
        lemma_remember_all_bounded(recent, seqs.drop_last(), cap2);
        lemma_remember_bounded(remember_all(recent, seqs.drop_last(), cap2), seqs.last(), cap2);
    }
}

proof fn lemma_run_stops(e: u32, p: Seq<PacketModel>)
    ensures
        run_len(e, p) < p.len() ==> p[run_len(e, p) as int].seq != seq_add(e, run_len(e, p) as int),
    decreases p.len(),
{
    if p.len() > 0 && p[0].seq == e {
        let rest = p.drop_first();
        lemma_run_stops(seq_add(e, 1), rest);
        let n = run_len(e, p);
        if n < p.len() {
            assert(p[n as int] == rest[n - 1]);
            assert(seq_add(seq_add(e, 1), n - 1) == seq_add(e, n as int)) by {
                assert((((e + 1) % 0x1_0000_0000) + (n - 1)) % 0x1_0000_0000 == (e + n) % 0x1_0000_0000)
                    by (nonlinear_arith)
                    requires n >= 1, e >= 0;
            }
        }
    } else {
        if p.len() > 0 {
            assert(seq_add(e, 0) == e) by {
                assert((e + 0) % 0x1_0000_0000 == e as int);
            }
        }
    }
}

/// Delivering the run from the cursor keeps the order, the window and the cursor right.
proof fn lemma_drain_in_order(m: ReorderModel, last: u32)
    requires
        m.expected is Some,
        sorted_from(m.expected->0, m.pending),
        window_near(m),
        m.pending.len() < 0x1000_0000,
        1 <= key(last, m.expected->0) <= 0x8000_0000,
    ensures
        ({
            let (m2, out) = drain(m);
            &&& in_order_after(last, out)
            &&& m2.expected is Some
            &&& sorted_from(m2.expected->0, m2.pending)
            &&& window_near(m2)
            &&& m2.pending.len() <= m.pending.len()
            &&& out.len() > 0 ==> m2.expected->0 == seq_add(out.last().seq, 1) && key(
                out.last().seq,
                m2.expected->0,
            ) == 1
            &&& out.len() == 0 ==> m2 == m
            &&& m2.pending.len() > 0 ==> m2.pending[0].seq != m2.expected->0
            &&& (m.reorder_capacity * 2 >= 1 && m.recent.len() <= m.reorder_capacity * 2) ==> m2.recent.len()
                <= m.reorder_capacity * 2
        }),
{
    let e = m.expected->0;
    let p = m.pending;
    let n = run_len(e, p);
    lemma_run_stops(e, p);
    if m.reorder_capacity * 2 >= 1 && m.recent.len() <= m.reorder_capacity * 2 {
        lemma_remember_all_bounded(m.recent, seqs_of(p.take(n as int)), m.reorder_capacity * 2);
    }
    lemma_run_len_bound(e, p);
    lemma_run_is_contiguous(e, p);
    let (m2, out) = drain(m);
    assert(out == p.take(n as int));
    assert forall|i: int| 0 <= i < n implies key(e, #[trigger] p[i].seq) == i by {
        lemma_key_of_add(e, i);
    }
    // The first delivered is the cursor itself; each next one is one ahead.
    if n > 0 {
        assert(out[0].seq == seq_add(e, 0));
        lemma_key_of_add(e, 0);
        assert(seq_add(e, 0) == e);
    }
    assert forall|i: int| 1 <= i < out.len() implies 1 <= key(out[i - 1].seq, #[trigger] out[i].seq) <= 0x8000_0000 by {
        assert(out[i] == p[i] && out[i - 1] == p[i - 1]);
        lemma_seq_add_assoc(e, i - 1);
        lemma_key_of_add(out[i - 1].seq, 1);
    }
    let e2 = seq_add(e, n as int);
    lemma_key_of_add(e, n as int);
    // The rest keeps its order and stays near, measured from the new cursor.
    let rest = p.skip(n as int);
    assert forall|j: int| 0 <= j < rest.len() implies key(e, #[trigger] rest[j].seq) >= n by {
        assert(rest[j] == p[j + n]);
        if n > 0 {
            assert(key(e, p[n - 1].seq) < key(e, p[j + n].seq));
        }
    }
    assert forall|j: int| 0 <= j < rest.len() implies key(e2, #[trigger] rest[j].seq) == key(e, rest[j].seq) - n by {
        lemma_key_shift(e, e2, rest[j].seq);
    }
    assert forall|i: int, j: int| 0 <= i < j < rest.len() implies key(e2, rest[i].seq) < key(e2, rest[j].seq) by {
        assert(rest[i] == p[i + n] && rest[j] == p[j + n]);
        assert(key(e2, rest[i].seq) == key(e, rest[i].seq) - n);
        assert(key(e2, rest[j].seq) == key(e, rest[j].seq) - n);
    }
    assert forall|j: int| 0 <= j < rest.len() implies key(e2, #[trigger] rest[j].seq) < DISCONTINUITY_FRAMES by {
        assert(rest[j] == p[j + n]);
        assert(key(e2, rest[j].seq) == key(e, rest[j].seq) - n);
    }
    assert(m2.pending == rest);
    if n > 0 {
        assert(out.last() == p[n - 1]);
        lemma_seq_add_assoc(e, n - 1);
        lemma_key_of_add(out.last().seq, 1);
    } else {
        assert(rest =~= p);
        assert(seq_add(e, 0) == e);
        assert(seqs_of(out) =~= Seq::<u32>::empty());
        assert(m2 == m);
    }
}

/// Giving up the hole keeps the order, the window and the cursor right.
proof fn lemma_force_in_order(m: ReorderModel, last: u32)
    requires
        m.expected is Some,
        sorted_from(m.expected->0, m.pending),
        window_near(m),
        m.pending.len() < 0x1000_0000,
        key(last, m.expected->0) == 1,
    ensures
        ({
            let (m2, out) = force(m);
            &&& in_order_after(last, out)
            &&& m2.expected is Some
            &&& sorted_from(m2.expected->0, m2.pending)
            &&& window_near(m2)
            &&& m2.pending.len() <= m.pending.len()
            &&& out.len() > 0 ==> m2.expected->0 == seq_add(out.last().seq, 1) && key(
                out.last().seq,
                m2.expected->0,
            ) == 1
            &&& out.len() == 0 ==> m2 == m
            &&& out.len() > 0 ==> m2.pending.len() > 0 ==> m2.pending[0].seq != m2.expected->0
            &&& m.pending.len() > 0 ==> m2.pending.len() < m.pending.len()
            &&& (m.reorder_capacity * 2 >= 1 && m.recent.len() <= m.reorder_capacity * 2) ==> m2.recent.len()
                <= m.reorder_capacity * 2
        }),
{
    let e = m.expected->0;
    let p = m.pending;
    if p.len() > 0 {
        lemma_force_progress(m);
        let p0 = p[0].seq;
        let mj = ReorderModel { expected: Some(p0), ..m };
        assert forall|j: int| 0 <= j < p.len() implies key(e, #[trigger] p[j].seq) >= key(e, p0) by {
            if j > 0 {
                assert(key(e, p[0].seq) < key(e, p[j].seq));
            }
        }
        assert forall|j: int| 0 <= j < p.len() implies key(p0, #[trigger] p[j].seq) == key(e, p[j].seq) - key(e, p0) by {
            lemma_key_shift(e, p0, p[j].seq);
        }
        assert forall|i: int, j: int| 0 <= i < j < p.len() implies key(p0, p[i].seq) < key(p0, p[j].seq) by {
            assert(key(p0, p[i].seq) == key(e, p[i].seq) - key(e, p0));
            assert(key(p0, p[j].seq) == key(e, p[j].seq) - key(e, p0));
        }
        assert(window_near(mj)) by {
            assert forall|j: int| 0 <= j < mj.pending.len() implies (mj.expected matches Some(x) && key(
                x,
                #[trigger] mj.pending[j].seq,
            ) < DISCONTINUITY_FRAMES) by {
                assert(key(p0, p[j].seq) == key(e, p[j].seq) - key(e, p0));
            }
        }
        lemma_key_add(last, e, p0);
        lemma_drain_in_order(mj, last);
        assert(run_len(p0, p) >= 1);
        lemma_run_len_bound(p0, p);
        assert(force(m) == drain(mj));
        assert(drain(mj).1.len() >= 1);
    }
}

/// Where a packet goes by `insert_index`: after every packet not ahead of it, before the
/// first packet ahead of it.
proof fn lemma_insert_index_place(e: u32, p: Seq<PacketModel>, s: u32)
    ensures
        insert_index(e, p, s) <= p.len(),
        forall|k: int| 0 <= k < insert_index(e, p, s) ==> key(e, s) >= key(e, #[trigger] p[k].seq),
        insert_index(e, p, s) < p.len() ==> key(e, s) < key(e, p[insert_index(e, p, s) as int].seq),
    decreases p.len(),
{
    if p.len() > 0 && !(key(e, s) < key(e, p[0].seq)) {
        let q = p.drop_first();
        lemma_insert_index_place(e, q, s);
        assert forall|k: int| 0 <= k < insert_index(e, p, s) implies key(e, s) >= key(e, #[trigger] p[k].seq) by {
            if k > 0 {
                assert(p[k] == q[k - 1]);
            }
        }
        if insert_index(e, p, s) < p.len() {
            assert(p[insert_index(e, p, s) as int] == q[insert_index(e, q, s) as int]);
        }
    }
}

/// Inserting a new, near packet at its place keeps the window sorted and near.
proof fn lemma_insert_in_order(m: ReorderModel, pkt: PacketModel)
    requires
        m.expected is Some,
        sorted_from(m.expected->0, m.pending),
        window_near(m),
        !seqs_of(m.pending).contains(pkt.seq),
        key(m.expected->0, pkt.seq) < DISCONTINUITY_FRAMES,
    ensures
        ({
            let e = m.expected->0;
            let q = m.pending.insert(insert_index(e, m.pending, pkt.seq) as int, pkt);
            &&& sorted_from(e, q)
            &&& window_near(ReorderModel { pending: q, ..m })
        }),
{
    let e = m.expected->0;
    let p = m.pending;
    let idx = insert_index(e, p, pkt.seq) as int;
    lemma_insert_index_place(e, p, pkt.seq);
    let q = p.insert(idx, pkt);
    assert forall|k: int| 0 <= k < p.len() implies key(e, #[trigger] p[k].seq) != key(e, pkt.seq) by {
        if key(e, p[k].seq) == key(e, pkt.seq) {
            assert(seqs_of(p)[k] == p[k].seq);
            assert(p[k].seq == pkt.seq);
        }
    }
    assert forall|i: int, j: int| 0 <= i < j < q.len() implies key(e, q[i].seq) < key(e, q[j].seq) by {
        if j < idx {
            assert(q[i] == p[i] && q[j] == p[j]);
        } else if j == idx {
            assert(q[i] == p[i] && q[j] == pkt);
        } else if i < idx {
            assert(q[i] == p[i] && q[j] == p[j - 1]);
            assert(key(e, pkt.seq) < key(e, p[idx].seq));
            if j - 1 > idx {
                assert(key(e, p[idx].seq) < key(e, p[j - 1].seq));
            }
        } else if i == idx {
            assert(q[i] == pkt && q[j] == p[j - 1]);
            if j - 1 > idx {
                assert(key(e, p[idx].seq) < key(e, p[j - 1].seq));
            }
        } else {
            assert(q[i] == p[i - 1] && q[j] == p[j - 1]);
        }
    }
    assert forall|j: int| 0 <= j < q.len() implies key(e, #[trigger] q[j].seq) < DISCONTINUITY_FRAMES by {
        if j < idx {
            assert(q[j] == p[j]);
        } else if j > idx {
            assert(q[j] == p[j - 1]);
        }
    }
}

proof fn lemma_key_before(e: u32)
    ensures
        key(seq_add(e, 0xFFFF_FFFF), e) == 1,
        seq_add(seq_add(e, 0xFFFF_FFFF), 1) == e,
{
    let l = seq_add(e, 0xFFFF_FFFF);
    lemma_seq_add_assoc(e, 0xFFFF_FFFF);
    assert((e + 0x1_0000_0000) % 0x1_0000_0000 == e as int) by (nonlinear_arith)
        requires 0 <= e < 0x1_0000_0000;
    assert(seq_add(l, 1) == e);
    lemma_key_of_add(l, 1);
}

/// One push hands out its packets in wrapping order right after the number just before
/// the cursor (the last number handed out, once anything was), keeps every waiting packet
/// near the cursor, and leaves the cursor just past the last packet handed out, or where
/// it was when nothing was handed out. Chained over calls (see also
/// [`law_reorder_flush_in_order`]), every packet handed out lies 1 to 2^31 ahead of the
/// one handed out before it, so no number is handed out twice in a row of fewer than 2^31.
#[verifier::rlimit(60)]
pub proof fn law_reorder_push_in_order(m: ReorderModel, pkt: PacketModel)
    requires
        reorder_wf(m),
        window_near(m),
    ensures
        ({
            let e0 = match m.expected { Some(e) => e, None => pkt.seq };
            let (m2, ready, late, accepted) = push_result(m, pkt);
            &&& reorder_wf(m2)
            &&& window_near(m2)
            &&& !accepted ==> ready.len() == 0
            &&& in_order_after(seq_add(e0, 0xFFFF_FFFF), ready)
            &&& ready.len() > 0 ==> m2.expected == Some(seq_add(ready.last().seq, 1))
            &&& ready.len() == 0 ==> m2.expected == Some(e0)
        }),
{
    let seq = pkt.seq;
    let e0 = match m.expected { Some(e) => e, None => seq };
    let l = seq_add(e0, 0xFFFF_FFFF);
    lemma_key_before(e0);
    lemma_depth_bounds(m.frame_ms);
    assert(m.reorder_capacity <= 60);
    let m0 = ReorderModel { expected: Some(e0), ..m };
    if m.recent.contains(seq) || seqs_of(m.pending).contains(seq) || key(e0, seq) >= 0x8000_0000 {
        return;
    }
    let resync = key(e0, seq) >= DISCONTINUITY_FRAMES;
    let m1 = if resync {
        ReorderModel { expected: Some(seq), pending: Seq::empty(), recent: Seq::empty(), ..m0 }
    } else {
        m0
    };
    let e1 = m1.expected->0;
    if resync {
        assert(key(seq, seq) == 0);
        lemma_key_add(l, e0, seq);
    }
    lemma_insert_in_order(m1, pkt);
    lemma_insert_index_place(e1, m1.pending, seq);
    let idx = insert_index(e1, m1.pending, seq) as int;
    assert(m1.pending.len() <= 60);
    let m2 = ReorderModel { pending: m1.pending.insert(idx, pkt), ..m1 };
    lemma_drain_in_order(m2, l);
    let (m3, r1) = drain(m2);
    if resync {
        assert(m1.pending.insert(idx, pkt) =~= seq![pkt]);
        assert(run_len(seq, m2.pending) >= 1);
        lemma_run_len_bound(seq, m2.pending);
        assert(r1.len() >= 1);
    }
    let l3 = last_of(l, r1);
    assert(key(l3, m3.expected->0) == 1);
    if reorder_wait(m3) == 0 || m3.pending.len() > m3.reorder_capacity {
        lemma_force_in_order(m3, l3);
        let (m4, r2) = force(m3);
        lemma_concat_in_order(l, r1, r2);
        if r2.len() == 0 {
            assert(r1 + r2 =~= r1);
        } else {
            assert((r1 + r2).last() == r2.last());
        }
    } else {
        lemma_concat_in_order(l, r1, Seq::empty());
        assert(r1 + Seq::<PacketModel>::empty() =~= r1);
    }
}

/// A flush hands out the packets of the hole it gives up in wrapping order right after
/// the number just before the cursor, keeps every waiting packet near the cursor, and
/// leaves the cursor just past the last packet handed out.
pub proof fn law_reorder_flush_in_order(m: ReorderModel, now: u64)
    requires
        reorder_wf(m),
        window_near(m),
    ensures
        ({
            let (m2, ready) = force(m);
            &&& reorder_wf(refresh_gap(m2, now))
            &&& window_near(refresh_gap(m2, now))
            &&& refresh_gap(m2, now).expected == m2.expected
            &&& m.expected matches Some(e) ==> in_order_after(seq_add(e, 0xFFFF_FFFF), ready)
            &&& ready.len() > 0 ==> m2.expected == Some(seq_add(ready.last().seq, 1))
            &&& ready.len() == 0 ==> m2 == m
        }),
{
    lemma_depth_bounds(m.frame_ms);
    assert(m.reorder_capacity <= 60);
    if m.pending.len() > 0 {
        let e = m.expected->0;
        lemma_key_before(e);
        lemma_force_in_order(m, seq_add(e, 0xFFFF_FFFF));
    }
}

/// A well-formed buffer's state meets the hypotheses of the ordering laws above (which
/// also show that each push and flush keeps the window near).
pub proof fn law_buffer_state_is_well_formed(b: &PacketReorderBuffer)
    requires
        b.wf(),
    ensures
        reorder_wf(b@),
{
}

/// One call on the reorder window: a push of an arrived packet, or a flush at a time.
pub enum ReorderOp {
    Push(PacketModel),
    Flush(u64),
}

/// What one call does: `push` as [`push_result`], `flush_expired` as its contract says.
pub open spec fn reorder_step(m: ReorderModel, op: ReorderOp) -> (ReorderModel, Seq<PacketModel>) {
    match op {
        ReorderOp::Push(pkt) => {
            let (m2, ready, _late, _accepted) = push_result(m, pkt);
            (m2, ready)
        },
        ReorderOp::Flush(now) => if flush_due(m, now) {
            (refresh_gap(force(m).0, now), force(m).1)
        } else {
            (m, Seq::empty())
        },
    }
}

/// A series of calls: the final state and everything handed out, in order.
pub open spec fn reorder_run(m: ReorderModel, ops: Seq<ReorderOp>) -> (ReorderModel, Seq<PacketModel>)
    decreases ops.len(),
{
    if ops.len() == 0 {
        (m, Seq::empty())
    } else {
        let (mp, out) = reorder_run(m, ops.drop_last());
        let (m2, ready) = reorder_step(mp, ops.last());
        (m2, out + ready)
    }
}


proof fn lemma_reorder_step_in_order(mp: ReorderModel, op: ReorderOp)
    requires
        reorder_wf(mp),
        window_near(mp),
        mp.expected is Some,
    ensures
        ({
            let (m2, ready) = reorder_step(mp, op);
            &&& reorder_wf(m2)
            &&& window_near(m2)
            &&& m2.frame_ms == mp.frame_ms
            &&& in_order_after(seq_add(mp.expected->0, 0xFFFF_FFFF), ready)
            &&& ready.len() > 0 ==> m2.expected == Some(seq_add(ready.last().seq, 1))
            &&& ready.len() == 0 ==> m2.expected == mp.expected
        }),
{
    match op {
        ReorderOp::Push(pkt) => {
            law_reorder_push_in_order(mp, pkt);
        },
        ReorderOp::Flush(now) => {
            if flush_due(mp, now) {
                law_reorder_flush_in_order(mp, now);
            }
        },
    }
}

/// Over any series of pushes and flushes from a well-formed window with a cursor:
/// everything handed out follows on from the number just before the starting cursor in
/// wrapping order (each number 1 to 2^31 ahead of the one handed out before it, so none is
/// handed out twice), the cursor ends just past the last number handed out, and the window
/// stays well formed, at most `frames_for(REORDER_CAPACITY_MS)` packets waiting, each
/// near the cursor.
pub proof fn law_reorder_run_in_order(m: ReorderModel, ops: Seq<ReorderOp>)
    requires
        reorder_wf(m),
        window_near(m),
        m.expected is Some,
    ensures
        ({
            let l0 = seq_add(m.expected->0, 0xFFFF_FFFF);
            let (mn, out) = reorder_run(m, ops);
            &&& reorder_wf(mn)
            &&& window_near(mn)
            &&& mn.pending.len() <= frames_for(REORDER_CAPACITY_MS as int, mn.frame_ms)
            &&& mn.frame_ms == m.frame_ms
            &&& in_order_after(l0, out)
            &&& mn.expected == Some(seq_add(last_of(l0, out), 1))
        }),
    decreases ops.len(),
{
    let e0 = m.expected->0;
    let l0 = seq_add(e0, 0xFFFF_FFFF);
    lemma_key_before(e0);
    if ops.len() > 0 {
        let pre = ops.drop_last();
        law_reorder_run_in_order(m, pre);
        let (mp, out) = reorder_run(m, pre);
        let ek = mp.expected->0;
        let lk = last_of(l0, out);
        lemma_before_after(lk);
        assert(seq_add(ek, 0xFFFF_FFFF) == lk);
        let (m2, ready) = reorder_step(mp, ops.last());
        lemma_reorder_step_in_order(mp, ops.last());
        lemma_concat_in_order(l0, out, ready);
        if ready.len() == 0 {
            assert(out + ready =~= out);
        } else {
            assert((out + ready).last() == ready.last());
        }
    } else {
        assert(seq_add(l0, 1) == e0);
    }
}

/// A series of calls split in two: the second part runs on the state the first left.
proof fn lemma_reorder_run_split(m: ReorderModel, a: Seq<ReorderOp>, b: Seq<ReorderOp>)
    ensures
        ({
            let (m1, o1) = reorder_run(m, a);
            let (m2, o2) = reorder_run(m1, b);
            reorder_run(m, a + b) == (m2, o1 + o2)
        }),
    decreases b.len(),
{
    let (m1, o1) = reorder_run(m, a);
    if b.len() == 0 {
        assert(a + b =~= a);
        assert(o1 + Seq::<PacketModel>::empty() =~= o1);
    } else {
        lemma_reorder_run_split(m, a, b.drop_last());
        assert((a + b).drop_last() =~= a + b.drop_last());
        assert((a + b).last() == b.last());
        let (mq, oq) = reorder_run(m1, b.drop_last());
        let (m2, r) = reorder_step(mq, b.last());
        assert(o1 + oq + r =~= o1 + (oq + r));
    }
}

/// A series of one call is that call.
proof fn lemma_reorder_run_one(m: ReorderModel, op: ReorderOp)
    ensures
        reorder_run(m, seq![op]) == reorder_step(m, op),
{
    let one = seq![op];
    assert(one.drop_last() =~= Seq::<ReorderOp>::empty());
    assert(one.last() == op);
    assert(reorder_run(m, Seq::<ReorderOp>::empty()) == (m, Seq::<PacketModel>::empty()));
    assert(reorder_run(m, one.drop_last()) == (m, Seq::<PacketModel>::empty()));
    let (m2, ready) = reorder_step(m, op);
    assert(Seq::<PacketModel>::empty() + ready =~= ready);
    assert(reorder_run(m, one) == (m2, Seq::<PacketModel>::empty() + ready));
}

/// Without a cursor nothing waits, so a flush changes nothing.
proof fn lemma_flush_without_cursor(m: ReorderModel, now: u64)
    requires
        reorder_wf(m),
        m.expected is None,
    ensures
        reorder_step(m, ReorderOp::Flush(now)) == (m, Seq::<PacketModel>::empty()),
{
    assert(m.pending.len() == 0);
    assert(!has_gap(m));
    assert(reorder_wait(m) == 0);
    assert(deadline(m) is None);
}

/// The first push onto a window without a cursor acts as a push onto the same window
/// whose cursor is the packet's own number, and so does every series that starts with it.
proof fn lemma_first_push_sets_cursor(m: ReorderModel, pkt: PacketModel, rest: Seq<ReorderOp>)
    requires
        m.expected is None,
    ensures
        reorder_run(m, seq![ReorderOp::Push(pkt)] + rest) == reorder_run(
            ReorderModel { expected: Some(pkt.seq), ..m },
            seq![ReorderOp::Push(pkt)] + rest,
        ),
{
    let m1 = ReorderModel { expected: Some(pkt.seq), ..m };
    let one = seq![ReorderOp::Push(pkt)];
    assert(push_result(m, pkt) == push_result(m1, pkt));
    lemma_reorder_run_one(m, ReorderOp::Push(pkt));
    lemma_reorder_run_one(m1, ReorderOp::Push(pkt));
    lemma_reorder_run_split(m, one, rest);
    lemma_reorder_run_split(m1, one, rest);
}

/// Over any series of pushes and flushes from a window that has no cursor yet (as
/// `new` leaves it): the window stays well formed with at most
/// `frames_for(REORDER_CAPACITY_MS)` packets waiting, each number handed out lies 1 to
/// 2^31 ahead of the one handed out before it in wrapping order (so none is handed out
/// twice), the cursor ends just past the last number handed out, and as long as only
/// flushes came nothing is handed out and there is still no cursor.
pub proof fn law_reorder_run_from_start(m: ReorderModel, ops: Seq<ReorderOp>)
    requires
        reorder_wf(m),
        m.expected is None,
    ensures
        ({
            let (mn, out) = reorder_run(m, ops);
            &&& reorder_wf(mn)
            &&& window_near(mn)
            &&& mn.pending.len() <= frames_for(REORDER_CAPACITY_MS as int, mn.frame_ms)
            &&& mn.frame_ms == m.frame_ms
            &&& forall|i: int| 1 <= i < out.len() ==> 1 <= key(out[i - 1].seq, #[trigger] out[i].seq) <= 0x8000_0000
            &&& out.len() > 0 ==> mn.expected == Some(seq_add(out.last().seq, 1))
            &&& (forall|i: int| 0 <= i < ops.len() ==> #[trigger] ops[i] is Flush) ==> out.len() == 0
                && mn.expected is None
        }),
    decreases ops.len(),
{
    if ops.len() == 0 {
        assert(window_near(m));
    } else {
        let rest = ops.drop_first();
        let one = seq![ops[0]];
        assert(one + rest =~= ops);
        match ops[0] {
            ReorderOp::Flush(now) => {
                lemma_reorder_run_split(m, one, rest);
                lemma_reorder_run_one(m, ops[0]);
                lemma_flush_without_cursor(m, now);
                law_reorder_run_from_start(m, rest);
                let (mn, out) = reorder_run(m, rest);
                assert(Seq::<PacketModel>::empty() + out =~= out);
                assert forall|i: int| 0 <= i < rest.len() implies rest[i] == ops[i + 1] by {}
            },
            ReorderOp::Push(pkt) => {
                let m1 = ReorderModel { expected: Some(pkt.seq), ..m };
                lemma_first_push_sets_cursor(m, pkt, rest);
                assert(reorder_wf(m1));
                assert(window_near(m1));
                law_reorder_run_in_order(m1, ops);
                assert(!(ops[0] is Flush));
            },
        }
    }
}

/// The run taken at the front of `p` is `e, e + 1, e + 2, ...` on the sequence circle.
pub proof fn lemma_run_is_contiguous(e: u32, p: Seq<PacketModel>)
    ensures
        forall|i: int| 0 <= i < run_len(e, p) ==> #[trigger] p[i].seq == seq_add(e, i),
    decreases p.len(),
{
    lemma_run_len_bound(e, p);
    if p.len() > 0 && p[0].seq == e {
        let rest = p.drop_first();
        lemma_run_is_contiguous(seq_add(e, 1), rest);
        assert forall|i: int| 0 <= i < run_len(e, p) implies #[trigger] p[i].seq == seq_add(e, i) by {
            if i == 0 {
                assert(seq_add(e, 0) == e) by {
                    assert((e + 0) % 0x1_0000_0000 == e as int);
                }
            } else {
                assert(p[i] == rest[i - 1]);
                assert(rest[i - 1].seq == seq_add(seq_add(e, 1), i - 1));
                assert(seq_add(seq_add(e, 1), i - 1) == seq_add(e, i)) by {
                    assert((((e + 1) % 0x1_0000_0000) + (i - 1)) % 0x1_0000_0000 == (e + i)
                        % 0x1_0000_0000) by (nonlinear_arith)
                        requires
                            i >= 1,
                            e >= 0,
                    ;
                }
            }
        }
    }
}

/// Delivery from the cursor hands out a contiguous run `e, e + 1, ...` and moves the cursor
/// just past it: no delivered run has a hole in it.
pub proof fn law_drain_delivers_a_contiguous_run(m: ReorderModel)
    requires
        m.expected is Some,
    ensures
        forall|i: int|
            0 <= i < drain(m).1.len() ==> #[trigger] drain(m).1[i].seq == seq_add(m.expected->0, i),
        drain(m).0.expected == Some(seq_add(m.expected->0, drain(m).1.len() as int)),
{
    let e = m.expected->0;
    lemma_run_len_bound(e, m.pending);
    lemma_run_is_contiguous(e, m.pending);
}

/// Giving up a hole jumps to the earliest waiting packet and delivers a contiguous run
/// starting there: the only skipped numbers are those of the hole.
pub proof fn law_force_skips_only_the_hole(m: ReorderModel)
    requires
        m.pending.len() > 0,
    ensures
        force(m).1.len() >= 1,
        force(m).1[0] == m.pending[0],
        forall|i: int|
            0 <= i < force(m).1.len() ==> #[trigger] force(m).1[i].seq == seq_add(m.pending[0].seq, i),
{
    let p = m.pending;
    lemma_run_len_bound(p[0].seq, p);
    lemma_run_is_contiguous(p[0].seq, p);
}

/// A duplicate (recently delivered or already waiting) is dropped: nothing is delivered,
/// nothing counts as late, and the packet is not reported as new.
pub proof fn law_duplicate_is_never_delivered_twice(m: ReorderModel, pkt: PacketModel)
    requires
        m.recent.contains(pkt.seq) || seqs_of(m.pending).contains(pkt.seq),
    ensures
        push_result(m, pkt).1.len() == 0,
        push_result(m, pkt).2 == 0,
        !push_result(m, pkt).3,
        push_result(m, pkt).0.pending == m.pending,
        push_result(m, pkt).0.recent == m.recent,
{
}

/// A packet behind the cursor (half the sequence circle or more ahead of it) is late: it is
/// counted once and never delivered.
pub proof fn law_stale_packet_is_late(m: ReorderModel, pkt: PacketModel)
    requires
        m.expected is Some,
        !m.recent.contains(pkt.seq),
        !seqs_of(m.pending).contains(pkt.seq),
        key(m.expected->0, pkt.seq) >= 0x8000_0000,
    ensures
        push_result(m, pkt).1.len() == 0,
        push_result(m, pkt).2 == 1,
        !push_result(m, pkt).3,
        push_result(m, pkt).0 == m,
{
}

/// The packet the cursor waits for is delivered at once, first in its batch.
pub proof fn law_contiguous_packet_leaves_at_once(m: ReorderModel, pkt: PacketModel)
    requires
        reorder_wf(m),
        m.expected == Some(pkt.seq),
        !m.recent.contains(pkt.seq),
        !seqs_of(m.pending).contains(pkt.seq),
    ensures
        push_result(m, pkt).3,
        push_result(m, pkt).1.len() >= 1,
        push_result(m, pkt).1[0] == pkt,
{
    let e = pkt.seq;
    let p = m.pending;
    assert(key(e, e) == 0);
    if p.len() > 0 {
        assert(key(e, p[0].seq) > 0);
    }
    lemma_insert_index(e, p, e, 0);
    let p2 = p.insert(0, pkt);
    assert(p2[0] == pkt);
    assert(run_len(e, p2) >= 1);
    lemma_run_len_bound(e, p2);
    let m0 = ReorderModel { expected: Some(e), ..m };
    let m2 = ReorderModel { pending: p2, ..m0 };
    assert(drain(m2).1[0] == pkt);
    let (m3, r1) = drain(m2);
    let r2 = if reorder_wait(m3) == 0 || m3.pending.len() > m3.reorder_capacity {
        force(m3).1
    } else {
        Seq::empty()
    };
    assert((r1 + r2)[0] == r1[0]);
}

/// The window never holds more than the 60 ms capacity of waiting packets, and the
/// duplicate filter never more than twice that.
pub proof fn law_window_is_bounded(buffer: &PacketReorderBuffer)
    requires
        buffer.wf(),
    ensures
        buffer@.pending.len() <= buffer@.reorder_capacity,
        buffer@.reorder_capacity == frames_for(REORDER_CAPACITY_MS as int, buffer@.frame_ms),
        buffer@.recent.len() <= buffer@.reorder_capacity * 2,
{
}

/// The target depth never leaves `[1, max_frames]` (120 ms of frames).
pub proof fn law_depth_is_bounded(depth: &AdaptiveJitterDepth)
    requires
        depth.wf(),
    ensures
        1 <= depth@.target_frames <= max_frames(depth@.frame_ms),
        max_frames(depth@.frame_ms) <= 120,
        depth@.frame_ms >= 7 ==> min_frames(depth@.frame_ms) <= depth@.target_frames,
{
    lemma_depth_bounds(depth@.frame_ms);
    let fm = depth@.frame_ms as int;
    if fm >= 7 {
        assert((20 + fm - 1) / fm <= 3) by (nonlinear_arith)
            requires fm >= 7;
    }
}

/// One 1 Hz window as the controller sees it: measured jitter P95, underruns, frame
/// length (µs).
pub open spec fn depth_run(o: DepthModel, windows: Seq<(Option<u32>, u32, u32)>) -> DepthModel
    decreases windows.len(),
{
    if windows.len() == 0 {
        o
    } else {
        let w = windows.last();
        depth_observed(depth_run(o, windows.drop_last()), w.0, w.1, w.2)
    }
}

/// A window that counts toward a shrink: jitter measured, no underrun, and a measured
/// wish below the current target.
pub open spec fn stable_window(o: DepthModel, w: (Option<u32>, u32, u32)) -> bool {
    let fu = if w.2 == 0 { 1int } else { w.2 as int };
    &&& w.1 == 0
    &&& w.0 matches Some(j) && depth_for_jitter(j, fu, o.frame_ms) < o.target_frames
}

/// One window keeps the target within `[1, max_frames]`, and at or above 20 ms of
/// frames when 20 ms is at most three frames.
proof fn lemma_observed_bounds(o: DepthModel, jitter_p95_us: Option<u32>, underruns: u32, frame_us: u32)
    requires
        o.frame_ms >= 1,
        1 <= o.target_frames <= max_frames(o.frame_ms),
        min_frames(o.frame_ms) <= 3 ==> min_frames(o.frame_ms) <= o.target_frames,
    ensures
        ({
            let n = depth_observed(o, jitter_p95_us, underruns, frame_us);
            &&& n.frame_ms == o.frame_ms
            &&& 1 <= n.target_frames <= max_frames(o.frame_ms)
            &&& min_frames(o.frame_ms) <= 3 ==> min_frames(o.frame_ms) <= n.target_frames
        }),
{
    lemma_depth_bounds(o.frame_ms);
    let fu = if frame_us == 0 { 1int } else { frame_us as int };
    if let Some(j) = jitter_p95_us {
        if j > fu {
            assert((j + fu - 1) / fu >= 2) by (nonlinear_arith)
                requires j > fu, fu >= 1;
        }
    }
}

proof fn lemma_depth_run_counts(o: DepthModel, ws: Seq<(Option<u32>, u32, u32)>)
    requires
        0 <= o.stable_windows < STABLE_WINDOWS_TO_SHRINK,
        o.frame_ms >= 1,
        1 <= o.target_frames <= max_frames(o.frame_ms),
        min_frames(o.frame_ms) <= 3 ==> min_frames(o.frame_ms) <= o.target_frames,
    ensures
        depth_run(o, ws).frame_ms == o.frame_ms,
        1 <= depth_run(o, ws).target_frames <= max_frames(o.frame_ms),
        min_frames(o.frame_ms) <= 3 ==> min_frames(o.frame_ms) <= depth_run(o, ws).target_frames,
        0 <= depth_run(o, ws).stable_windows < STABLE_WINDOWS_TO_SHRINK,
        depth_run(o, ws).stable_windows <= ws.len() ==> forall|k: int|
            ws.len() - depth_run(o, ws).stable_windows <= k < ws.len() ==> stable_window(
                #[trigger] depth_run(o, ws.take(k)),
                ws[k],
            ),
        depth_run(o, ws).stable_windows > ws.len() ==> {
            &&& depth_run(o, ws).stable_windows == o.stable_windows + ws.len()
            &&& forall|k: int| 0 <= k < ws.len() ==> stable_window(#[trigger] depth_run(o, ws.take(k)), ws[k])
        },
    decreases ws.len(),
{
    if ws.len() > 0 {
        let pre = ws.drop_last();
        lemma_depth_run_counts(o, pre);
        let p = depth_run(o, pre);
        let n = ws.len() - 1;
        assert(ws.take(n) =~= pre);
        assert forall|k: int| 0 <= k < n implies ws.take(k) == pre.take(k) && ws[k] == pre[k] by {
            assert(ws.take(k) =~= pre.take(k));
        }
        let w = ws.last();
        lemma_observed_bounds(p, w.0, w.1, w.2);
        if !stable_window(p, w) {
            assert(depth_run(o, ws).stable_windows == 0 || stable_window(p, w));
        }
    }
}

/// The depth history of a controller over successive windows, from any well-formed
/// state `o` (whose `stable_windows` counts the stable windows right before it, 0 after
/// `new`):
/// - the target stays within `[1, max_frames]`, and at or above 20 ms of frames for frames
///   of 7 ms or more;
/// - it falls only by one frame at a time, only in a stable window (jitter measured, no
///   underrun, a measured wish below the target), and only when the
///   `STABLE_WINDOWS_TO_SHRINK - 1` windows right before it were stable too: either all of
///   them lie in `ws`, or all of `ws` was stable and the rest were counted in `o`;
/// - a window with underruns or without a measurement never lowers it.
pub proof fn law_depth_shrinks_only_after_stable_windows(o: DepthModel, ws: Seq<(Option<u32>, u32, u32)>)
    requires
        0 <= o.stable_windows < STABLE_WINDOWS_TO_SHRINK,
        o.frame_ms >= 1,
        1 <= o.target_frames <= max_frames(o.frame_ms),
        min_frames(o.frame_ms) <= 3 ==> min_frames(o.frame_ms) <= o.target_frames,
        ws.len() >= 1,
    ensures
        ({
            let prev = depth_run(o, ws.drop_last());
            let last = depth_run(o, ws);
            &&& 1 <= last.target_frames <= max_frames(o.frame_ms)
            &&& o.frame_ms >= 7 ==> min_frames(o.frame_ms) <= last.target_frames
            &&& last.target_frames < prev.target_frames ==> {
                &&& last.target_frames == prev.target_frames - 1
                &&& stable_window(prev, ws.last())
                &&& {
                    ||| ws.len() >= STABLE_WINDOWS_TO_SHRINK && forall|k: int|
                        ws.len() - STABLE_WINDOWS_TO_SHRINK <= k < ws.len() ==> stable_window(
                            #[trigger] depth_run(o, ws.take(k)),
                            ws[k],
                        )
                    ||| o.stable_windows + ws.len() == STABLE_WINDOWS_TO_SHRINK && forall|k: int|
                        0 <= k < ws.len() ==> stable_window(#[trigger] depth_run(o, ws.take(k)), ws[k])
                }
            }
            &&& (ws.last().1 > 0 || ws.last().0 is None) ==> last.target_frames >= prev.target_frames
        }),
{
    let pre = ws.drop_last();
    lemma_depth_run_counts(o, pre);
    lemma_depth_run_counts(o, ws);
    let p = depth_run(o, pre);
    let w = ws.last();
    let n = ws.len() - 1;
    assert(ws.take(n) =~= pre);
    assert forall|k: int| 0 <= k < n implies ws.take(k) == pre.take(k) && ws[k] == pre[k] by {
        assert(ws.take(k) =~= pre.take(k));
    }
    law_depth_shrinks_slowly(p, w.0, w.1, w.2);
    let fm = o.frame_ms as int;
    if fm >= 7 {
        assert((20 + fm - 1) / fm <= 3) by (nonlinear_arith)
            requires fm >= 7;
    }
}

/// A fresh controller meets the hypotheses of the history law with no stable window
/// counted; well-formed controllers meet them in general.
pub proof fn law_depth_state_is_well_formed(depth: &AdaptiveJitterDepth)
    requires
        depth.wf(),
    ensures
        0 <= depth@.stable_windows < STABLE_WINDOWS_TO_SHRINK,
        depth@.frame_ms >= 1,
        1 <= depth@.target_frames <= max_frames(depth@.frame_ms),
        min_frames(depth@.frame_ms) <= 3 ==> min_frames(depth@.frame_ms) <= depth@.target_frames,
{
}

/// The controller lowers the depth by at most one frame per window, only after
/// `STABLE_WINDOWS_TO_SHRINK` consecutive stable windows, and never in a window with
/// underruns.
pub proof fn law_depth_shrinks_slowly(o: DepthModel, jitter_p95_us: Option<u32>, underruns: u32, frame_us: u32)
    requires
        o.target_frames <= max_frames(o.frame_ms),
    ensures
        depth_observed(o, jitter_p95_us, underruns, frame_us).target_frames >= o.target_frames - 1,
        depth_observed(o, jitter_p95_us, underruns, frame_us).target_frames < o.target_frames ==> {
            &&& o.stable_windows + 1 >= STABLE_WINDOWS_TO_SHRINK
            &&& underruns == 0
            &&& jitter_p95_us is Some
        },
        underruns > 0 ==> depth_observed(o, jitter_p95_us, underruns, frame_us).target_frames
            >= o.target_frames,
{
}

/// The playout plan never drops into the target: lowering the depth drops at most the real
/// excess above the new target, and settling a steady surplus drops exactly one frame, only
/// after the surplus lasted `SETTLE_EXCESS_WINDOW_US`, and keeps one frame of swing above the
/// target.
pub proof fn law_playout_drops_keep_the_target(
    o: PlayoutDepthModel,
    requested: usize,
    buffered: usize,
    now: u64,
)
    ensures
        ({
            let req = clamp_to(requested as int, min_frames(o.frame_ms), max_frames(o.frame_ms));
            let action = depth_tick(o, requested, buffered, now).1;
            action matches PlayoutDepthAction::DropOldest(d) ==> {
                &&& d >= 1
                &&& buffered - d >= req
                &&& req >= o.active_frames ==> {
                    &&& d == 1
                    &&& buffered - d >= req + SETTLE_EXCESS_FRAMES
                    &&& o.settle_since_us matches Some(t) && now >= t + SETTLE_EXCESS_WINDOW_US
                }
            }
        }),
{
}

/// Holds only spend the planned deficit: a hold always consumes one remaining hold.
pub proof fn law_holds_are_bounded(o: PlayoutDepthModel, requested: usize, buffered: usize, now: u64)
    ensures
        ({
            let (n, action) = depth_tick(o, requested, buffered, now);
            let req = clamp_to(requested as int, min_frames(o.frame_ms), max_frames(o.frame_ms));
            action is Hold ==> {
                &&& buffered < req
                &&& n.holds_remaining + 1 == (if req > o.active_frames && req != o.planned_frames {
                    req - buffered
                } else {
                    o.holds_remaining
                })
            }
        }),
{
}

/// Arrival jitter of one packet (µs): how far the gap since the previous first copy
/// (capped at `u32::MAX`) lies from the nominal frame period (`frame_ms`, at least 1 ms).
pub open spec fn arrival_jitter_of(interval_us: u64, frame_ms: u32) -> int {
    let gap = if interval_us > u32::MAX { u32::MAX as int } else { interval_us as int };
    let nominal = (if frame_ms == 0 { 1 } else { frame_ms as int }) * 1_000;
    if gap >= nominal { gap - nominal } else { nominal - gap }
}

/// Arrival jitter of one packet (µs), see [`arrival_jitter_of`].
pub fn arrival_jitter_us(interval_us: u64, frame_ms: u32) -> (r: u32)
    requires
        frame_ms <= 4_294_967,
    ensures
        r == arrival_jitter_of(interval_us, frame_ms),
{
    let gap: u32 = if interval_us > 4_294_967_295 { u32::MAX } else { interval_us as u32 };
    let ms: u32 = if frame_ms == 0 { 1 } else { frame_ms };
    let nominal: u32 = ms * 1_000;
    if gap >= nominal { gap - nominal } else { nominal - gap }
}

} // verus!
