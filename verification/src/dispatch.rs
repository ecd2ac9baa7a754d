//! Second-layer dispatch of control frames: an unknown opcode, an opcode without
//! semantics in this release, or a payload that does not decode is ignored and
//! counted, never fatal.
use vstd::prelude::*;

verus! {

/// Control opcodes that the envelope layer can name.
#[derive(Debug, Clone, Copy, PartialEq, Eq, Hash)]
pub enum OpCode {
    Hello,
    HelloAck,
    OpenStream,
    OpenStreamAck,
    CloseStream,
    StreamStats,
    SetGain,
    SetMute,
    ClockResult,
    GroupCreate,
    GroupJoin,
    GroupLeave,
    GroupEpoch,
    ReceiverEpoch,
    Ping,
    Pong,
    Error,
    Bye,
    SetVolumeLock,
    TelemetryPush,
}

/// Opcodes that are defined but have no semantics in this release.
pub open spec fn unimplemented_op(op: OpCode) -> bool {
    op is SetVolumeLock || op is TelemetryPush
}

impl OpCode {
    /// Whether this release gives the opcode a meaning.
    pub fn is_implemented(self) -> (r: bool)
        ensures
            r == !unimplemented_op(self),
    {
        match self {
            OpCode::SetVolumeLock | OpCode::TelemetryPush => false,
            _ => true,
        }
    }
}

/// How one control frame was handled.
#[derive(Debug, Clone, Copy, PartialEq, Eq)]
pub enum DispatchOutcome {
    /// Known opcode, valid payload: the request was produced.
    Handled,
    /// Unknown opcode: ignored and counted, the connection continues.
    IgnoredUnknownOp,
    /// Known opcode without semantics in this release: ignored and counted.
    IgnoredUnimplemented,
    /// The payload does not decode: ignored and counted.
    IgnoredBadPayload,
}

/// Stable names of the outcomes.
pub open spec fn outcome_name(o: DispatchOutcome) -> Seq<char> {
    match o {
        DispatchOutcome::Handled => "handled"@,
        DispatchOutcome::IgnoredUnknownOp => "ignored-unknown-op"@,
        DispatchOutcome::IgnoredUnimplemented => "ignored-unimplemented"@,
        DispatchOutcome::IgnoredBadPayload => "ignored-bad-payload"@,
    }
}

impl DispatchOutcome {
    /// One of the three ignored outcomes.
    pub fn is_ignored(self) -> (r: bool)
        ensures
            r == !(self is Handled),
    {
        match self {
            DispatchOutcome::Handled => false,
            _ => true,
        }
    }

    /// Snapshot name (logs, assertions).
    pub fn name(self) -> (r: &'static str)
        ensures
            r@ == outcome_name(self),
    {
        match self {
            DispatchOutcome::Handled => "handled",
            DispatchOutcome::IgnoredUnknownOp => "ignored-unknown-op",
            DispatchOutcome::IgnoredUnimplemented => "ignored-unimplemented",
            DispatchOutcome::IgnoredBadPayload => "ignored-bad-payload",
        }
    }
}

/// Dispatch counters.
#[derive(Debug, Clone, Copy, Default, PartialEq, Eq)]
pub struct DispatchStats {
    /// Control frames received, ignored ones included.
    pub received: u64,
    /// Unknown opcodes ignored.
    pub ignored_unknown_op: u64,
    /// Opcodes without semantics ignored.
    pub ignored_unimplemented: u64,
    /// Undecodable payloads ignored.
    pub ignored_bad_payload: u64,
    /// Requests handed to the caller.
    pub handled: u64,
}

/// Total of the ignored counters.
pub open spec fn ignored_total(s: DispatchStats) -> int {
    s.ignored_unknown_op + s.ignored_unimplemented + s.ignored_bad_payload
}

/// Counters are consistent: every frame has exactly one outcome.
pub open spec fn stats_consistent(s: DispatchStats) -> bool {
    s.received == s.handled + ignored_total(s)
}

impl DispatchStats {
    /// Zeroed counters.
    pub fn new() -> (r: Self)
        ensures
            r == (DispatchStats { received: 0, ignored_unknown_op: 0, ignored_unimplemented: 0, ignored_bad_payload: 0, handled: 0 }),
    {
        DispatchStats { received: 0, ignored_unknown_op: 0, ignored_unimplemented: 0, ignored_bad_payload: 0, handled: 0 }
    }

    /// Ignored frames in total.
    pub fn ignored(&self) -> (r: u64)
        requires
            ignored_total(*self) <= u64::MAX,
        ensures
            r == ignored_total(*self),
    {
        self.ignored_unknown_op + self.ignored_unimplemented + self.ignored_bad_payload
    }

    /// Ignore rate (percent × 100, 0 without frames).
    pub fn ignored_pct_x100(&self) -> (r: u16)
        requires
            ignored_total(*self) <= u64::MAX,
        ensures
            r == (if self.received == 0 {
                0
            } else {
                let scaled = (if ignored_total(*self) * 10_000 > u64::MAX { u64::MAX as int } else { ignored_total(*self) * 10_000 }) / (self.received as int);
                if scaled > 10_000 { 10_000 } else { scaled }
            }),
    {
        if self.received == 0 {
            return 0;
        }
        let scaled = crate::arith::mul_sat_u64(self.ignored(), 10_000) / self.received;
        if scaled > 10_000 { 10_000 } else { scaled as u16 }
    }

    /// Count one frame with its outcome.
    pub fn record(&mut self, outcome: DispatchOutcome)
        requires
            old(self).received < u64::MAX,
            old(self).handled < u64::MAX,
            old(self).ignored_unknown_op < u64::MAX,
            old(self).ignored_unimplemented < u64::MAX,
            old(self).ignored_bad_payload < u64::MAX,
        ensures
            final(self).received == old(self).received + 1,
            final(self).handled == old(self).handled + (if outcome is Handled { 1int } else { 0 }),
            final(self).ignored_unknown_op == old(self).ignored_unknown_op + (if outcome is IgnoredUnknownOp { 1int } else { 0 }),
            final(self).ignored_unimplemented == old(self).ignored_unimplemented + (if outcome is IgnoredUnimplemented { 1int } else { 0 }),
            final(self).ignored_bad_payload == old(self).ignored_bad_payload + (if outcome is IgnoredBadPayload { 1int } else { 0 }),
            stats_consistent(*old(self)) ==> stats_consistent(*final(self)),
    {
        self.received = self.received + 1;
        match outcome {
            DispatchOutcome::Handled => self.handled = self.handled + 1,
            DispatchOutcome::IgnoredUnknownOp => self.ignored_unknown_op = self.ignored_unknown_op + 1,
            DispatchOutcome::IgnoredUnimplemented => self.ignored_unimplemented = self.ignored_unimplemented + 1,
            DispatchOutcome::IgnoredBadPayload => self.ignored_bad_payload = self.ignored_bad_payload + 1,
        }
    }
}

/// The outcome for a frame with envelope opcode `op` whose payload decoded (or not).
pub open spec fn outcome_of(op: Option<OpCode>, decoded: bool) -> DispatchOutcome {
    match op {
        None => DispatchOutcome::IgnoredUnknownOp,
        Some(o) => if unimplemented_op(o) {
            DispatchOutcome::IgnoredUnimplemented
        } else if decoded {
            DispatchOutcome::Handled
        } else {
            DispatchOutcome::IgnoredBadPayload
        },
    }
}

/// Dispatch one control frame. `op` is the envelope opcode (`None` = unknown code);
/// `decoded` is the payload decoded as the request type of `op` (`None` = it does not
/// decode). Every frame is counted; only a known, implemented opcode with a valid payload
/// yields a request.
pub fn dispatch_into<T>(op: Option<OpCode>, decoded: Option<T>, stats: &mut DispatchStats) -> (r: (Option<T>, DispatchOutcome))
    requires
        old(stats).received < u64::MAX,
        old(stats).handled < u64::MAX,
        old(stats).ignored_unknown_op < u64::MAX,
        old(stats).ignored_unimplemented < u64::MAX,
        old(stats).ignored_bad_payload < u64::MAX,
    ensures
        r.1 == outcome_of(op, decoded is Some),
        r.1 is Handled ==> r.0 == decoded,
        !(r.1 is Handled) ==> r.0 is None,
        final(stats).received == old(stats).received + 1,
        final(stats).handled == old(stats).handled + (if r.1 is Handled { 1int } else { 0 }),
        final(stats).ignored_unknown_op == old(stats).ignored_unknown_op + (if r.1 is IgnoredUnknownOp { 1int } else { 0 }),
        final(stats).ignored_unimplemented == old(stats).ignored_unimplemented + (if r.1 is IgnoredUnimplemented { 1int } else { 0 }),
        final(stats).ignored_bad_payload == old(stats).ignored_bad_payload + (if r.1 is IgnoredBadPayload { 1int } else { 0 }),
        stats_consistent(*old(stats)) ==> stats_consistent(*final(stats)),
{
    let outcome = match op {
        None => DispatchOutcome::IgnoredUnknownOp,
        Some(o) => {
            if !o.is_implemented() {
                DispatchOutcome::IgnoredUnimplemented
            } else if decoded.is_some() {
                DispatchOutcome::Handled
            } else {
                DispatchOutcome::IgnoredBadPayload
            }
        },
    };
    stats.record(outcome);
    match outcome {
        DispatchOutcome::Handled => (decoded, outcome),
        _ => (None, outcome),
    }
}

/// Dispatch one control frame and keep only the request.
pub fn dispatch<T>(op: Option<OpCode>, decoded: Option<T>, stats: &mut DispatchStats) -> (r: Option<T>)
    requires
        old(stats).received < u64::MAX,
        old(stats).handled < u64::MAX,
        old(stats).ignored_unknown_op < u64::MAX,
        old(stats).ignored_unimplemented < u64::MAX,
        old(stats).ignored_bad_payload < u64::MAX,
    ensures
        outcome_of(op, decoded is Some) is Handled ==> r == decoded,
        !(outcome_of(op, decoded is Some) is Handled) ==> r is None,
        final(stats).received == old(stats).received + 1,
        ({
            let o = outcome_of(op, decoded is Some);
            &&& final(stats).handled == old(stats).handled + (if o is Handled { 1int } else { 0 })
            &&& final(stats).ignored_unknown_op == old(stats).ignored_unknown_op + (if o is IgnoredUnknownOp { 1int } else { 0 })
            &&& final(stats).ignored_unimplemented == old(stats).ignored_unimplemented + (if o is IgnoredUnimplemented { 1int } else { 0 })
            &&& final(stats).ignored_bad_payload == old(stats).ignored_bad_payload + (if o is IgnoredBadPayload { 1int } else { 0 })
        }),
        stats_consistent(*old(stats)) ==> stats_consistent(*final(stats)),
{
    dispatch_into(op, decoded, stats).0
}

} // verus!
