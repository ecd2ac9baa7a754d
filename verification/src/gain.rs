//! Playout gain (SET_GAIN / SET_MUTE): a current value that approaches its target
//! by at most one step per frame, in thousandths.
use vstd::prelude::*;

use crate::arith::ceil_div;

verus! {

/// Gain ceiling (2.0) in thousandths.
pub const MAX_GAIN_X1000: u32 = 2_000;

/// An invalid gain parameter.
#[derive(Debug, Clone, Copy, PartialEq, Eq)]
pub enum GainError {
    /// Not a finite number (NaN / inf).
    NotFinite,
    /// Outside 0.0–2.0.
    OutOfRange,
}

impl GainError {
    /// Human readable message.
    pub fn message(&self) -> (r: &'static str)
        ensures
            r@ == (match *self {
                GainError::NotFinite => "gain is not a finite number"@,
                GainError::OutOfRange => "gain is outside 0.0..=2.0"@,
            }),
    {
        match self {
            GainError::NotFinite => "gain is not a finite number",
            GainError::OutOfRange => "gain is outside 0.0..=2.0",
        }
    }
}

/// Gain state: current value, target value and per-frame step, in thousandths.
#[derive(Debug, Clone, Copy, PartialEq, Eq)]
pub struct GainState {
    current_x1000: u32,
    target_x1000: u32,
    step_x1000: u32,
}

/// Abstract gain state.
pub struct GainModel {
    pub current_x1000: int,
    pub target_x1000: int,
    pub step_x1000: int,
}

impl View for GainState {
    type V = GainModel;

    closed spec fn view(&self) -> GainModel {
        GainModel {
            current_x1000: self.current_x1000 as int,
            target_x1000: self.target_x1000 as int,
            step_x1000: self.step_x1000 as int,
        }
    }
}

/// Step that reaches `target` from `current` in `ramp_ms / frame_ms` frames (at least one
/// frame, at least one thousandth per frame).
pub open spec fn ramp_step(current: int, target: int, ramp_ms: u32, frame_ms: u32) -> int {
    let fm = if frame_ms == 0 { 1 } else { frame_ms as int };
    let frames = if ramp_ms as int / fm == 0 { 1 } else { ramp_ms as int / fm };
    let delta = if current >= target { current - target } else { target - current };
    let step = ceil_div(delta, frames);
    if step == 0 { 1 } else { step }
}

/// One frame of the ramp: move toward the target by at most one step.
pub open spec fn ramp_next(current: int, target: int, step: int) -> int {
    if current < target {
        if current + step > target { target } else { current + step }
    } else if current > target {
        if current - step < target { target } else { current - step }
    } else {
        current
    }
}

impl GainState {
    /// Invariant: current and target within the ceiling, a positive step.
    pub closed spec fn wf(&self) -> bool {
        &&& self.current_x1000 <= MAX_GAIN_X1000
        &&& self.target_x1000 <= MAX_GAIN_X1000
        &&& self.step_x1000 >= 1
    }

    /// Start settled at `gain_x1000` (clamped to the ceiling).
    pub fn new(gain_x1000: u32) -> (r: Self)
        ensures
            r.wf(),
            r@.current_x1000 == (if gain_x1000 > MAX_GAIN_X1000 { MAX_GAIN_X1000 as int } else { gain_x1000 as int }),
            r@.target_x1000 == r@.current_x1000,
            r@.step_x1000 == 1,
    {
        let clamped = if gain_x1000 > MAX_GAIN_X1000 { MAX_GAIN_X1000 } else { gain_x1000 };
        GainState { current_x1000: clamped, target_x1000: clamped, step_x1000: 1 }
    }

    /// New target reached linearly within `ramp_ms` (frames of `frame_ms`). A target above
    /// the ceiling is refused and leaves the state untouched.
    pub fn set_target(&mut self, gain_x1000: u32, ramp_ms: u32, frame_ms: u32) -> (r: Result<(), GainError>)
        requires
            old(self).wf(),
        ensures
            final(self).wf(),
            gain_x1000 > MAX_GAIN_X1000 ==> r == Err::<(), GainError>(GainError::OutOfRange) && final(self)@ == old(self)@,
            gain_x1000 <= MAX_GAIN_X1000 ==> {
                &&& r is Ok
                &&& final(self)@.current_x1000 == old(self)@.current_x1000
                &&& final(self)@.target_x1000 == gain_x1000
                &&& final(self)@.step_x1000 == ramp_step(old(self)@.current_x1000, gain_x1000 as int, ramp_ms, frame_ms)
            },
    {
        if gain_x1000 > MAX_GAIN_X1000 {
            return Err(GainError::OutOfRange);
        }
        self.target_x1000 = gain_x1000;
        let fm: u32 = if frame_ms == 0 { 1 } else { frame_ms };
        let q = ramp_ms / fm;
        let frames: u32 = if q == 0 { 1 } else { q };
        let delta: u32 = if self.current_x1000 >= gain_x1000 {
            self.current_x1000 - gain_x1000
        } else {
            gain_x1000 - self.current_x1000
        };
        let step = crate::arith::div_ceil_u64(delta as u64, frames as u64);
        proof {
            assert(step <= delta) by (nonlinear_arith)
                requires step as int == (delta as int + frames as int - 1) / (frames as int), frames >= 1, delta >= 0;
        }
        let step32: u32 = step as u32;
        self.step_x1000 = if step32 == 0 { 1 } else { step32 };
        Ok(())
    }

    /// Advance one frame; returns the gain (thousandths) to apply to this frame.
    pub fn next_frame_gain_x1000(&mut self) -> (r: u32)
        requires
            old(self).wf(),
        ensures
            final(self).wf(),
            final(self)@.target_x1000 == old(self)@.target_x1000,
            final(self)@.step_x1000 == old(self)@.step_x1000,
            final(self)@.current_x1000 == ramp_next(old(self)@.current_x1000, old(self)@.target_x1000, old(self)@.step_x1000),
            r == final(self)@.current_x1000,
    {
        if self.current_x1000 < self.target_x1000 {
            let up = self.current_x1000.saturating_add(self.step_x1000);
            self.current_x1000 = if up > self.target_x1000 { self.target_x1000 } else { up };
        } else if self.current_x1000 > self.target_x1000 {
            let down = self.current_x1000.saturating_sub(self.step_x1000);
            self.current_x1000 = if down < self.target_x1000 { self.target_x1000 } else { down };
        }
        self.current_x1000
    }

    pub fn current_x1000(&self) -> (r: u32)
        ensures
            r == self@.current_x1000,
    {
        self.current_x1000
    }

    pub fn target_x1000(&self) -> (r: u32)
        ensures
            r == self@.target_x1000,
    {
        self.target_x1000
    }

    pub fn is_settled(&self) -> (r: bool)
        ensures
            r == (self@.current_x1000 == self@.target_x1000),
    {
        self.current_x1000 == self.target_x1000
    }
}

/// Frames a ramp of `ramp_ms` takes with frames of `frame_ms` (at least one).
pub open spec fn ramp_frames(ramp_ms: u32, frame_ms: u32) -> int {
    let fm = if frame_ms == 0 { 1 } else { frame_ms as int };
    if ramp_ms as int / fm == 0 { 1 } else { ramp_ms as int / fm }
}

/// The gain after `n` frames of the ramp.
pub open spec fn ramp_after(current: int, target: int, step: int, n: nat) -> int
    decreases n,
{
    if n == 0 {
        current
    } else {
        ramp_after(ramp_next(current, target, step), target, step, (n - 1) as nat)
    }
}

/// One frame moves the gain toward the target by at most one step and never past it
/// (a hard cut would be audible).
pub proof fn law_ramp_moves_one_step_toward_target(current: int, target: int, step: int)
    requires
        step >= 1,
    ensures
        current <= target ==> current <= ramp_next(current, target, step) <= target,
        current >= target ==> target <= ramp_next(current, target, step) <= current,
        ramp_next(current, target, step) - current <= step,
        current - ramp_next(current, target, step) <= step,
{
}

proof fn lemma_ramp_closes_gap(current: int, target: int, step: int, n: nat)
    requires
        step >= 1,
        current - target <= step * n,
        target - current <= step * n,
    ensures
        ramp_after(current, target, step, n) == target,
    decreases n,
{
    if n > 0 {
        let next = ramp_next(current, target, step);
        assert(step * n == step * (n - 1) + step) by (nonlinear_arith);
        assert(step * (n - 1) >= 0) by (nonlinear_arith)
            requires
                step >= 1,
                n >= 1,
        ;
        lemma_ramp_closes_gap(next, target, step, (n - 1) as nat);
    } else {
        assert(step * n == 0) by (nonlinear_arith)
            requires
                n == 0,
        ;
    }
}

/// A new target set with `set_target` is reached exactly after `ramp_ms / frame_ms` frames
/// (at least one): the ramp is linear and lands on the target.
pub proof fn law_ramp_reaches_target(current: int, target: int, ramp_ms: u32, frame_ms: u32)
    requires
        0 <= current,
        0 <= target,
    ensures
        ramp_after(
            current,
            target,
            ramp_step(current, target, ramp_ms, frame_ms),
            ramp_frames(ramp_ms, frame_ms) as nat,
        ) == target,
{
    let frames = ramp_frames(ramp_ms, frame_ms);
    let delta = if current >= target { current - target } else { target - current };
    let step = ramp_step(current, target, ramp_ms, frame_ms);
    let q = ceil_div(delta, frames);
    assert(frames >= 1);
    vstd::arithmetic::div_mod::lemma_fundamental_div_mod(delta + frames - 1, frames);
    assert(q * frames >= delta) by (nonlinear_arith)
        requires
            delta + frames - 1 == frames * q + (delta + frames - 1) % frames,
            0 <= (delta + frames - 1) % frames < frames,
    ;
    assert(step * frames >= delta) by (nonlinear_arith)
        requires
            step >= q,
            q * frames >= delta,
            frames >= 1,
    ;
    lemma_ramp_closes_gap(current, target, step, frames as nat);
}

/// Each frame moves the gain by at most one step, so `k` frames move it by at most `k`
/// steps.
proof fn lemma_ramp_progress_bounded(current: int, target: int, step: int, k: nat)
    requires
        step >= 1,
    ensures
        current - step * k <= ramp_after(current, target, step, k) <= current + step * k,
    decreases k,
{
    if k > 0 {
        let next = ramp_next(current, target, step);
        lemma_ramp_progress_bounded(next, target, step, (k - 1) as nat);
        assert(step * k == step * (k - 1) + step) by (nonlinear_arith);
    } else {
        assert(step * k == 0) by (nonlinear_arith)
            requires
                k == 0,
        ;
    }
}

/// A ramp set with `set_target` takes the whole ramp: with `frames = ramp_ms / frame_ms`
/// (a zero frame length counting as 1 ms, at least one frame) and `delta` the distance
/// to the target, the step is the smallest whole step that covers `delta` in `frames`
/// frames (`delta / frames` rounded up, at least 1). So the target is never reached in
/// fewer frames than `delta / step`, and when `frames` divides `delta` it is reached
/// after exactly `frames` frames and not before.
pub proof fn law_ramp_spans_the_whole_ramp(current: int, target: int, ramp_ms: u32, frame_ms: u32, k: nat)
    requires
        0 <= current,
        0 <= target,
    ensures
        ({
            let per = if frame_ms == 0 { ramp_ms as int } else { ramp_ms as int / frame_ms as int };
            let frames = if per == 0 { 1 } else { per };
            let delta = if current >= target { current - target } else { target - current };
            let step = ramp_step(current, target, ramp_ms, frame_ms);
            &&& step >= 1
            &&& step * frames >= delta
            &&& delta > 0 ==> (step - 1) * frames < delta
            &&& ramp_after(current, target, step, k) == target ==> k * step >= delta
            &&& (delta > 0 && delta % frames == 0 && k < frames) ==> ramp_after(current, target, step, k)
                != target
        }),
{
    let per = if frame_ms == 0 { ramp_ms as int } else { ramp_ms as int / frame_ms as int };
    let frames = if per == 0 { 1 } else { per };
    let delta = if current >= target { current - target } else { target - current };
    let step = ramp_step(current, target, ramp_ms, frame_ms);
    assert(frames == ramp_frames(ramp_ms, frame_ms));
    assert(frames >= 1);
    let q = ceil_div(delta, frames);
    let r = (delta + frames - 1) % frames;
    vstd::arithmetic::div_mod::lemma_fundamental_div_mod(delta + frames - 1, frames);
    assert(delta + frames - 1 == frames * q + r);
    assert(0 <= r < frames);
    assert(q * frames >= delta) by (nonlinear_arith)
        requires
            delta + frames - 1 == frames * q + r,
            0 <= r < frames,
    ;
    assert((q - 1) * frames < delta + 1) by (nonlinear_arith)
        requires
            delta + frames - 1 == frames * q + r,
            0 <= r < frames,
    ;
    if delta > 0 {
        assert(q >= 1) by (nonlinear_arith)
            requires
                delta + frames - 1 == frames * q + r,
                0 <= r < frames,
                delta >= 1,
                frames >= 1,
        ;
        assert(step == q);
    } else {
        assert(q * frames < frames) by (nonlinear_arith)
            requires
                delta + frames - 1 == frames * q + r,
                0 <= r,
                delta == 0,
        ;
        assert(q < 1) by (nonlinear_arith)
            requires
                q * frames < frames,
                frames >= 1,
        ;
        assert(step == 1);
    }
    assert(step * frames >= delta) by (nonlinear_arith)
        requires
            step >= q,
            q * frames >= delta,
            frames >= 1,
    ;
    if delta > 0 {
        assert((step - 1) * frames < delta) by {
            assert((q - 1) * frames <= delta) by (nonlinear_arith)
                requires
                    (q - 1) * frames < delta + 1,
            ;
            if (q - 1) * frames == delta {
                assert(false) by (nonlinear_arith)
                    requires
                        delta + frames - 1 == frames * q + r,
                        (q - 1) * frames == delta,
                        r >= 0,
                ;
            }
        }
    }
    lemma_ramp_progress_bounded(current, target, step, k);
    if ramp_after(current, target, step, k) == target {
        assert(k * step >= delta) by (nonlinear_arith)
            requires
                current - step * k <= target <= current + step * k,
                delta == (if current >= target { current - target } else { target - current }),
        ;
        if delta > 0 && delta % frames == 0 && k < frames {
            let m = delta / frames;
            vstd::arithmetic::div_mod::lemma_fundamental_div_mod(delta, frames);
            assert(delta == frames * m);
            assert(step == m) by (nonlinear_arith)
                requires
                    delta == frames * m,
                    step * frames >= delta,
                    (step - 1) * frames < delta,
                    frames >= 1,
            ;
            assert(false) by (nonlinear_arith)
                requires
                    k * step >= delta,
                    delta == frames * m,
                    step == m,
                    k < frames,
                    delta > 0,
                    k >= 0,
            ;
        }
    }
}

} // verus!
