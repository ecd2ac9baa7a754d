//! Adaptive bitrate rule table: packet loss lowers the target bitrate, a clean
//! link raises it again, one step at a time.
use vstd::prelude::*;
use vstd::string::*;

verus! {

/// Lower bound of the target bitrate (bps).
pub const MIN_BITRATE_BPS: i32 = 96_000;

/// Upper bound of the target bitrate (bps).
pub const MAX_BITRATE_BPS: i32 = 320_000;

/// Lossy seconds needed before a step down.
pub const LOSS_WINDOW_SECS: u32 = 3;

/// Clean seconds needed before a step up.
pub const CLEAN_WINDOW_SECS: u32 = 10;

/// Minimum spacing of two step ups (s).
pub const RAISE_INTERVAL_SECS: u64 = 5;

/// Minimum spacing of two step ups (µs).
pub const RAISE_INTERVAL_US: u64 = 5_000_000;

/// Loss threshold (percent × 100) above which a second counts as lossy.
pub const LOSS_THRESHOLD_X100: u16 = 100;

/// Severe loss threshold (percent × 100).
pub const SEVERE_LOSS_THRESHOLD_X100: u16 = 500;

/// RTT above which no step up happens (µs).
pub const RTT_LIMIT_US: u32 = 30_000;

/// Link severity of the latest sample.
#[derive(Debug, Clone, Copy, PartialEq, Eq)]
pub enum LinkSeverity {
    /// Loss within the threshold.
    Nominal,
    /// Loss above 1 %.
    Loss,
    /// Loss above 5 %.
    SevereLoss,
}

impl LinkSeverity {
    /// Stable name for events and logs.
    pub fn name(self) -> (r: &'static str)
        ensures
            r@ == link_severity_name(self),
    {
        match self {
            LinkSeverity::Nominal => "ok",
            LinkSeverity::Loss => "loss",
            LinkSeverity::SevereLoss => "severe_loss",
        }
    }
}

/// Names of the severities.
pub open spec fn link_severity_name(s: LinkSeverity) -> Seq<char> {
    match s {
        LinkSeverity::Nominal => "ok"@,
        LinkSeverity::Loss => "loss"@,
        LinkSeverity::SevereLoss => "severe_loss"@,
    }
}

/// Why the bitrate changed.
#[derive(Debug, Clone, Copy, PartialEq, Eq)]
pub enum BitrateReason {
    /// Sustained loss: a step down.
    PacketLoss {
        /// Loss of the triggering sample (percent × 100).
        loss_pct_x100: u16,
    },
    /// Sustained clean link: a step up.
    Recovered,
}

/// The decimal digit `d` (0–9) as a character.
pub open spec fn digit_char(d: int) -> char {
    (48 + d) as char
}

/// Decimal text of `n`, without leading zeros.
pub open spec fn decimal(n: nat) -> Seq<char>
    decreases n,
{
    if n < 10 {
        seq![digit_char(n as int)]
    } else {
        decimal(n / 10).push(digit_char((n % 10) as int))
    }
}

/// `x / 100` in decimal with the shortest fraction: "2.5" for 250, "3" for 300, "0.07" for 7.
pub open spec fn hundredths_text(x: nat) -> Seq<char> {
    let f = x % 100;
    decimal(x / 100) + if f == 0 {
        Seq::<char>::empty()
    } else if f % 10 == 0 {
        seq!['.', digit_char((f / 10) as int)]
    } else {
        seq!['.', digit_char((f / 10) as int), digit_char((f % 10) as int)]
    }
}

/// Append the digit `d` to `s`.
fn push_digit(s: &mut String, d: u32)
    requires
        d < 10,
    ensures
        final(s)@ == old(s)@.push(digit_char(d as int)),
{
    proof {
        reveal_strlit("0");
        reveal_strlit("1");
        reveal_strlit("2");
        reveal_strlit("3");
        reveal_strlit("4");
        reveal_strlit("5");
        reveal_strlit("6");
        reveal_strlit("7");
        reveal_strlit("8");
        reveal_strlit("9");
    }
    let text = match d {
        0 => "0",
        1 => "1",
        2 => "2",
        3 => "3",
        4 => "4",
        5 => "5",
        6 => "6",
        7 => "7",
        8 => "8",
        _ => "9",
    };
    s.append(text);
    proof {
        assert(s@ =~= old(s)@.push(digit_char(d as int)));
    }
}

/// Append the decimal text of `n` to `s`.
pub(crate) fn push_decimal(s: &mut String, n: u32)
    ensures
        final(s)@ == old(s)@ + decimal(n as nat),
    decreases n,
{
    if n >= 10 {
        push_decimal(s, n / 10);
    }
    push_digit(s, n % 10);
    proof {
        if n >= 10 {
            assert(s@ =~= old(s)@ + decimal(n as nat));
        } else {
            assert(s@ =~= old(s)@ + decimal(n as nat));
        }
    }
}

/// Human readable text of a bitrate change, as events and acceptance records carry it.
pub open spec fn describe_text(reason: BitrateReason) -> Seq<char> {
    match reason {
        BitrateReason::PacketLoss { loss_pct_x100 } => "丢包 "@ + hundredths_text(loss_pct_x100 as nat)
            + "% 持续 "@ + decimal(LOSS_WINDOW_SECS as nat) + " s → 降级"@,
        BitrateReason::Recovered => "连续 "@ + decimal(CLEAN_WINDOW_SECS as nat) + " s 无丢包 → 恢复一级"@,
    }
}

impl BitrateReason {
    /// Human readable reason (events and acceptance records), see [`describe_text`].
    pub fn describe(self) -> (r: String)
        ensures
            r@ == describe_text(self),
    {
        match self {
            BitrateReason::PacketLoss { loss_pct_x100 } => {
                let mut s = String::from_str("丢包 ");
                let x: u32 = loss_pct_x100 as u32;
                push_decimal(&mut s, x / 100);
                let f: u32 = x % 100;
                if f != 0 {
                    s.append(".");
                    push_digit(&mut s, f / 10);
                    if f % 10 != 0 {
                        push_digit(&mut s, f % 10);
                    }
                }
                s.append("% 持续 ");
                push_decimal(&mut s, LOSS_WINDOW_SECS);
                s.append(" s → 降级");
                proof {
                    reveal_strlit(".");
                }
                assert(s@ =~= describe_text(self));
                s
            },
            BitrateReason::Recovered => {
                let mut s = String::from_str("连续 ");
                push_decimal(&mut s, CLEAN_WINDOW_SECS);
                s.append(" s 无丢包 → 恢复一级");
                assert(s@ =~= describe_text(self));
                s
            },
        }
    }
}

/// One bitrate change.
#[derive(Debug, Clone, Copy, PartialEq, Eq)]
pub struct BitrateChange {
    /// Bitrate before (bps).
    pub from_bps: i32,
    /// Bitrate after (bps).
    pub to_bps: i32,
    /// Cause.
    pub reason: BitrateReason,
}

/// The adaptive bitrate state machine.
#[derive(Debug)]
pub struct AdaptiveBitrate {
    current_bps: i32,
    loss_seconds: u32,
    clean_seconds: u32,
    last_raise_at_us: Option<u64>,
    last_loss_pct_x100: u16,
}

/// Abstract state of the bitrate machine.
pub struct BitrateModel {
    pub current_bps: int,
    pub loss_seconds: int,
    pub clean_seconds: int,
    pub last_raise_at_us: Option<u64>,
    pub last_loss_pct_x100: int,
}

impl View for AdaptiveBitrate {
    type V = BitrateModel;

    closed spec fn view(&self) -> BitrateModel {
        BitrateModel {
            current_bps: self.current_bps as int,
            loss_seconds: self.loss_seconds as int,
            clean_seconds: self.clean_seconds as int,
            last_raise_at_us: self.last_raise_at_us,
            last_loss_pct_x100: self.last_loss_pct_x100 as int,
        }
    }
}

/// `x` clamped into `[lo, hi]`.
pub open spec fn clamp_int(x: int, lo: int, hi: int) -> int {
    if x < lo {
        lo
    } else if x > hi {
        hi
    } else {
        x
    }
}

/// Severity for a loss rate.
pub open spec fn severity_of(loss_pct_x100: int) -> LinkSeverity {
    if loss_pct_x100 > SEVERE_LOSS_THRESHOLD_X100 {
        LinkSeverity::SevereLoss
    } else if loss_pct_x100 > LOSS_THRESHOLD_X100 {
        LinkSeverity::Loss
    } else {
        LinkSeverity::Nominal
    }
}

/// One step down: −20 %, not below the floor.
pub open spec fn step_down(bps: int) -> int {
    if bps * 4 / 5 < MIN_BITRATE_BPS {
        MIN_BITRATE_BPS as int
    } else {
        bps * 4 / 5
    }
}

/// One step up: +10 %, not above the ceiling.
pub open spec fn step_up(bps: int) -> int {
    if bps * 11 / 10 > MAX_BITRATE_BPS {
        MAX_BITRATE_BPS as int
    } else {
        bps * 11 / 10
    }
}

/// Whether enough time passed since the last step up.
pub open spec fn raise_ready(last: Option<u64>, at_us: u64) -> bool {
    match last {
        None => true,
        Some(t) => (if at_us >= t { at_us - t } else { 0 }) >= RAISE_INTERVAL_US,
    }
}

/// Saturating `u32` increment.
pub open spec fn inc_sat(x: int) -> int {
    if x + 1 > u32::MAX { u32::MAX as int } else { x + 1 }
}

impl AdaptiveBitrate {
    /// Invariant: the target stays within the documented range.
    pub closed spec fn inv(&self) -> bool {
        MIN_BITRATE_BPS <= self.current_bps <= MAX_BITRATE_BPS
    }

    /// A machine at `initial_bps` clamped into `[MIN_BITRATE_BPS, MAX_BITRATE_BPS]`.
    pub fn new(initial_bps: i32) -> (r: Self)
        ensures
            r.inv(),
            r@.current_bps == clamp_int(initial_bps as int, MIN_BITRATE_BPS as int, MAX_BITRATE_BPS as int),
            r@.loss_seconds == 0,
            r@.clean_seconds == 0,
            r@.last_raise_at_us is None,
            r@.last_loss_pct_x100 == 0,
    {
        let current_bps = if initial_bps < MIN_BITRATE_BPS {
            MIN_BITRATE_BPS
        } else if initial_bps > MAX_BITRATE_BPS {
            MAX_BITRATE_BPS
        } else {
            initial_bps
        };
        AdaptiveBitrate {
            current_bps,
            loss_seconds: 0,
            clean_seconds: 0,
            last_raise_at_us: None,
            last_loss_pct_x100: 0,
        }
    }

    /// Current target bitrate (bps).
    pub fn current_bps(&self) -> (r: i32)
        ensures
            r == self@.current_bps,
    {
        self.current_bps
    }

    /// Severity of the latest sample.
    pub fn severity(&self) -> (r: LinkSeverity)
        ensures
            r == severity_of(self@.last_loss_pct_x100),
    {
        if self.last_loss_pct_x100 > SEVERE_LOSS_THRESHOLD_X100 {
            LinkSeverity::SevereLoss
        } else if self.last_loss_pct_x100 > LOSS_THRESHOLD_X100 {
            LinkSeverity::Loss
        } else {
            LinkSeverity::Nominal
        }
    }

    /// Feed one 1 Hz link sample taken at `at_us` (monotonic µs); returns the change of
    /// target bitrate when one is due. A step down takes precedence over a step up.
    pub fn observe(&mut self, at_us: u64, loss_pct_x100: u16, rtt_us: u32) -> (r: Option<BitrateChange>)
        requires
            old(self).inv(),
        ensures
            final(self).inv(),
            final(self)@.last_loss_pct_x100 == loss_pct_x100,
            ({
                let o = old(self)@;
                let n = final(self)@;
                let lossy = loss_pct_x100 > LOSS_THRESHOLD_X100;
                let l = if lossy { inc_sat(o.loss_seconds) } else { 0 };
                let c = if lossy { 0 } else { inc_sat(o.clean_seconds) };
                if l >= LOSS_WINDOW_SECS {
                    if step_down(o.current_bps) < o.current_bps {
                        &&& r == Some(BitrateChange {
                            from_bps: o.current_bps as i32,
                            to_bps: step_down(o.current_bps) as i32,
                            reason: BitrateReason::PacketLoss { loss_pct_x100 },
                        })
                        &&& n.current_bps == step_down(o.current_bps)
                        &&& n.loss_seconds == 0 && n.clean_seconds == 0
                        &&& n.last_raise_at_us == o.last_raise_at_us
                    } else {
                        &&& r is None
                        &&& n.current_bps == o.current_bps
                        &&& n.loss_seconds == l && n.clean_seconds == c
                        &&& n.last_raise_at_us == o.last_raise_at_us
                    }
                } else if c >= CLEAN_WINDOW_SECS && rtt_us <= RTT_LIMIT_US
                    && raise_ready(o.last_raise_at_us, at_us) && step_up(o.current_bps)
                    > o.current_bps {
                    &&& r == Some(BitrateChange {
                        from_bps: o.current_bps as i32,
                        to_bps: step_up(o.current_bps) as i32,
                        reason: BitrateReason::Recovered,
                    })
                    &&& n.current_bps == step_up(o.current_bps)
                    &&& n.loss_seconds == l
                    &&& n.clean_seconds == CLEAN_WINDOW_SECS - RAISE_INTERVAL_SECS
                    &&& n.last_raise_at_us == Some(at_us)
                } else {
                    &&& r is None
                    &&& n.current_bps == o.current_bps
                    &&& n.loss_seconds == l && n.clean_seconds == c
                    &&& n.last_raise_at_us == o.last_raise_at_us
                }
            }),
    {
        self.last_loss_pct_x100 = loss_pct_x100;
        if loss_pct_x100 > LOSS_THRESHOLD_X100 {
            self.loss_seconds = self.loss_seconds.saturating_add(1);
            self.clean_seconds = 0;
        } else {
            self.loss_seconds = 0;
            self.clean_seconds = self.clean_seconds.saturating_add(1);
        }

        if self.loss_seconds >= LOSS_WINDOW_SECS {
            let scaled = self.current_bps * 4 / 5;
            let next = if scaled < MIN_BITRATE_BPS { MIN_BITRATE_BPS } else { scaled };
            if next < self.current_bps {
                let change = BitrateChange {
                    from_bps: self.current_bps,
                    to_bps: next,
                    reason: BitrateReason::PacketLoss { loss_pct_x100 },
                };
                self.current_bps = next;
                self.loss_seconds = 0;
                self.clean_seconds = 0;
                return Some(change);
            }
            return None;
        }

        if self.clean_seconds >= CLEAN_WINDOW_SECS && rtt_us <= RTT_LIMIT_US {
            let ready = match self.last_raise_at_us {
                None => true,
                Some(last) => at_us.saturating_sub(last) >= RAISE_INTERVAL_US,
            };
            if ready {
                let scaled = self.current_bps * 11 / 10;
                let next = if scaled > MAX_BITRATE_BPS { MAX_BITRATE_BPS } else { scaled };
                if next > self.current_bps {
                    let change = BitrateChange {
                        from_bps: self.current_bps,
                        to_bps: next,
                        reason: BitrateReason::Recovered,
                    };
                    self.current_bps = next;
                    self.last_raise_at_us = Some(at_us);
                    self.clean_seconds = CLEAN_WINDOW_SECS - RAISE_INTERVAL_SECS as u32;
                    return Some(change);
                }
            }
        }
        None
    }
}

/// The target bitrate never leaves `[MIN_BITRATE_BPS, MAX_BITRATE_BPS]`.
pub proof fn law_bitrate_within_range(machine: &AdaptiveBitrate)
    requires
        machine.inv(),
    ensures
        MIN_BITRATE_BPS <= machine@.current_bps <= MAX_BITRATE_BPS,
{
}

/// Both steps keep a bitrate of the documented range inside it: a step down never rises
/// and never falls below the floor, a step up never falls and never passes the ceiling.
pub proof fn law_steps_stay_in_range(bps: int)
    requires
        MIN_BITRATE_BPS <= bps <= MAX_BITRATE_BPS,
    ensures
        MIN_BITRATE_BPS <= step_down(bps) <= bps,
        bps <= step_up(bps) <= MAX_BITRATE_BPS,
        bps > MIN_BITRATE_BPS ==> step_down(bps) < bps,
        bps < MAX_BITRATE_BPS ==> step_up(bps) > bps,
{
}

/// Two step ups are at least `RAISE_INTERVAL_US` apart: a raise at `at_us` after one at
/// `last_us` is only ready once the interval has passed.
pub proof fn law_raises_are_spaced(last_us: u64, at_us: u64)
    ensures
        raise_ready(Some(last_us), at_us) ==> at_us >= last_us + RAISE_INTERVAL_US,
{
}

} // verus!
