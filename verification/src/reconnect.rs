//! Decisions of link recovery: what a lost link turns the session into, and
//! the reconnect loop that retries within a fixed budget with a bounded,
//! doubling backoff. Dialing, sleeping and the session table stay with the
//! caller, which reports each attempt's outcome back.
use vstd::prelude::*;

use crate::session::{transition, SessionEvent, SessionMachine, SessionState};

verus! {

/// Total time a reconnect may take (µs).
pub const RECONNECT_BUDGET_US: u64 = 20_000_000;

/// Time limit of one attempt (µs).
pub const RECONNECT_ATTEMPT_TIMEOUT_US: u64 = 800_000;

/// First pause after a failed attempt (µs).
pub const RECONNECT_BACKOFF_MIN_US: u64 = 150_000;

/// Longest pause between attempts (µs).
pub const RECONNECT_BACKOFF_MAX_US: u64 = 400_000;

/// How one attempt ended.
pub enum AttemptOutcome<E> {
    /// A session was established; `same_peer` tells whether the peer is the one being restored.
    Connected { same_peer: bool },
    /// The attempt failed with `E`.
    Failed(E),
    /// The attempt did not finish within `RECONNECT_ATTEMPT_TIMEOUT_US`.
    TimedOut,
}

/// Why the last failed attempt failed.
pub enum ReconnectError<E> {
    /// A peer answered, but not the one being restored.
    IdentityMismatch,
    /// The attempt failed.
    Failed(E),
    /// The attempt timed out.
    TimedOut,
}

/// What the loop does next.
#[derive(Debug, Clone, Copy, PartialEq, Eq, Structural)]
pub enum ReconnectStep {
    /// Try again now.
    Attempt,
    /// The engine is shutting down: stop without a verdict.
    Stop,
    /// The budget is spent: the session fails.
    GiveUp,
}

/// State of one reconnect loop.
pub struct ReconnectLoop<E> {
    deadline_us: u64,
    backoff_us: u64,
    last_error: Option<ReconnectError<E>>,
}

/// The pause after a failed attempt that followed a pause of `backoff` (µs).
pub open spec fn next_backoff(backoff: u64) -> u64 {
    if backoff * 2 > RECONNECT_BACKOFF_MAX_US { RECONNECT_BACKOFF_MAX_US } else { (backoff * 2) as u64 }
}

/// The step of a loop with deadline `deadline` at `now`.
pub open spec fn step_at(deadline: u64, now_us: u64, shutting_down: bool) -> ReconnectStep {
    if now_us >= deadline {
        ReconnectStep::GiveUp
    } else if shutting_down {
        ReconnectStep::Stop
    } else {
        ReconnectStep::Attempt
    }
}

impl<E> ReconnectLoop<E> {
    /// When the budget ends (µs).
    pub closed spec fn deadline(&self) -> u64 {
        self.deadline_us
    }

    /// The pause after the next failed attempt (µs).
    pub closed spec fn backoff(&self) -> u64 {
        self.backoff_us
    }

    /// The failure of the last attempt, if any.
    pub closed spec fn last_error(&self) -> Option<ReconnectError<E>> {
        self.last_error
    }

    /// Invariant: the backoff stays within its bounds.
    pub closed spec fn wf(&self) -> bool {
        RECONNECT_BACKOFF_MIN_US <= self.backoff_us <= RECONNECT_BACKOFF_MAX_US
    }

    /// A loop started at `now_us` with the full budget.
    pub fn new(now_us: u64) -> (r: Self)
        requires
            now_us <= u64::MAX - RECONNECT_BUDGET_US,
        ensures
            r.wf(),
            r.deadline() == now_us + RECONNECT_BUDGET_US,
            r.backoff() == RECONNECT_BACKOFF_MIN_US,
            r.last_error() is None,
    {
        ReconnectLoop { deadline_us: now_us + RECONNECT_BUDGET_US, backoff_us: RECONNECT_BACKOFF_MIN_US, last_error: None }
    }

    /// What to do at `now_us`: give up once the budget is spent, stop when the engine shuts
    /// down, attempt otherwise.
    pub fn next_step(&self, now_us: u64, shutting_down: bool) -> (r: ReconnectStep)
        ensures
            r == step_at(self.deadline(), now_us, shutting_down),
    {
        if now_us >= self.deadline_us {
            ReconnectStep::GiveUp
        } else if shutting_down {
            ReconnectStep::Stop
        } else {
            ReconnectStep::Attempt
        }
    }

    /// Record how an attempt ended. `None` when the same peer is back (the loop is done);
    /// otherwise the failure is kept and the pause before the next attempt is returned, the
    /// following pause doubling up to `RECONNECT_BACKOFF_MAX_US`.
    pub fn on_outcome(&mut self, outcome: AttemptOutcome<E>) -> (r: Option<u64>)
        requires
            old(self).wf(),
        ensures
            final(self).wf(),
            final(self).deadline() == old(self).deadline(),
            match outcome {
                AttemptOutcome::Connected { same_peer: true } => {
                    &&& r is None
                    &&& final(self).backoff() == old(self).backoff()
                    &&& final(self).last_error() == old(self).last_error()
                },
                _ => {
                    &&& r == Some(old(self).backoff())
                    &&& final(self).backoff() == next_backoff(old(self).backoff())
                    &&& final(self).last_error() == Some(
                        match outcome {
                            AttemptOutcome::Connected { .. } => ReconnectError::IdentityMismatch,
                            AttemptOutcome::Failed(e) => ReconnectError::Failed(e),
                            AttemptOutcome::TimedOut => ReconnectError::TimedOut,
                        },
                    )
                },
            },
    {
        let error = match outcome {
            AttemptOutcome::Connected { same_peer } => {
                if same_peer {
                    return None;
                }
                ReconnectError::IdentityMismatch
            },
            AttemptOutcome::Failed(e) => ReconnectError::Failed(e),
            AttemptOutcome::TimedOut => ReconnectError::TimedOut,
        };
        self.last_error = Some(error);
        let pause = self.backoff_us;
        let doubled = self.backoff_us * 2;
        self.backoff_us = if doubled > RECONNECT_BACKOFF_MAX_US { RECONNECT_BACKOFF_MAX_US } else { doubled };
        Some(pause)
    }

    /// The failure of the last attempt when the loop gives up (`None` = the budget ended
    /// before any attempt).
    pub fn into_last_error(self) -> (r: Option<ReconnectError<E>>)
        ensures
            r == self.last_error(),
    {
        self.last_error
    }
}

/// What a lost link turns a session into.
#[derive(Debug, Clone, Copy, PartialEq, Eq, Structural)]
pub struct PeerGonePlan {
    /// The state shown for the session.
    pub state: SessionState,
    /// Hand a reconnect request to the supervisor (this call took the single-flight gate).
    pub request_reconnect: bool,
}

/// The plan for a lost link: reconnecting when this side may redial and the engine is not
/// shutting down (a request only when none is in flight), failed otherwise.
pub open spec fn peer_gone_plan_of(allow_reconnect: bool, shutting_down: bool, in_flight: bool) -> PeerGonePlan {
    if allow_reconnect && !shutting_down {
        PeerGonePlan { state: SessionState::Reconnecting, request_reconnect: !in_flight }
    } else {
        PeerGonePlan { state: SessionState::Failed, request_reconnect: false }
    }
}

/// Decide what a lost link becomes; `allow_reconnect` holds when this side initiated and is
/// streaming, `in_flight` when a reconnect for the session is already running.
pub fn peer_gone_plan(allow_reconnect: bool, shutting_down: bool, in_flight: bool) -> (r: PeerGonePlan)
    ensures
        r == peer_gone_plan_of(allow_reconnect, shutting_down, in_flight),
{
    if allow_reconnect && !shutting_down {
        PeerGonePlan { state: SessionState::Reconnecting, request_reconnect: !in_flight }
    } else {
        PeerGonePlan { state: SessionState::Failed, request_reconnect: false }
    }
}

/// Count a successful reconnect on the session now in the table: a session that already
/// reports `Streaming` is taken back through `LinkLost` and `ReconnectOk`, so the transition
/// table accepts it and the reconnect is counted; a session in another state is left to the
/// caller. Returns whether it was counted.
pub fn count_reconnect(machine: &mut SessionMachine) -> (r: bool)
    requires
        old(machine).inv(),
        old(machine)@.handshakes < u64::MAX - 1,
        old(machine)@.degradations < u64::MAX - 1,
    ensures
        final(machine).inv(),
        r == (old(machine)@.state == SessionState::Streaming),
        r ==> {
            &&& final(machine)@.state == SessionState::Streaming
            &&& final(machine)@.reconnects == old(machine)@.reconnects + 1
            &&& final(machine)@.handshakes == old(machine)@.handshakes + 1
            &&& final(machine)@.degradations == old(machine)@.degradations
            &&& final(machine)@.last_event == Some(SessionEvent::ReconnectOk)
        },
        !r ==> final(machine)@ == old(machine)@,
{
    match machine.state() {
        SessionState::Streaming => {
            let _lost = machine.apply(SessionEvent::LinkLost);
            let _ok = machine.apply(SessionEvent::ReconnectOk);
            true
        },
        _ => false,
    }
}

/// The backoff doubles from `RECONNECT_BACKOFF_MIN_US` and never exceeds
/// `RECONNECT_BACKOFF_MAX_US`; a loop never attempts at or after its deadline.
pub proof fn law_reconnect_backoff_and_budget(backoff: u64, deadline: u64, now_us: u64, shutting_down: bool)
    requires
        RECONNECT_BACKOFF_MIN_US <= backoff <= RECONNECT_BACKOFF_MAX_US,
    ensures
        RECONNECT_BACKOFF_MIN_US <= next_backoff(backoff) <= RECONNECT_BACKOFF_MAX_US,
        next_backoff(backoff) >= backoff,
        step_at(deadline, now_us, shutting_down) is Attempt ==> now_us < deadline && !shutting_down,
        now_us >= deadline ==> step_at(deadline, now_us, shutting_down) is GiveUp,
{
}

/// A lost link never leaves a session looking connected: it is either reconnecting or
/// failed, and at most one reconnect request is in flight per session.
pub proof fn law_peer_gone_is_single_flight(allow_reconnect: bool, shutting_down: bool, in_flight: bool)
    ensures
        ({
            let plan = peer_gone_plan_of(allow_reconnect, shutting_down, in_flight);
            &&& (plan.state is Reconnecting || plan.state is Failed)
            &&& (plan.request_reconnect ==> !in_flight && plan.state is Reconnecting)
            &&& (shutting_down ==> plan.state is Failed)
        }),
{
}

/// The two-step count is the only way the table accepts a reconnect of a streaming session:
/// `Streaming` goes to `Reconnecting` on `LinkLost`, which goes back on `ReconnectOk`.
pub proof fn law_reconnect_goes_through_the_table()
    ensures
        transition(SessionState::Streaming, SessionEvent::LinkLost) == Some(SessionState::Reconnecting),
        transition(SessionState::Reconnecting, SessionEvent::ReconnectOk) == Some(SessionState::Streaming),
        transition(SessionState::Streaming, SessionEvent::ReconnectOk) is None,
{
}

/// Silence after which a streaming initiator declares the link lost (ms).
pub const LINK_STALL_THRESHOLD_MS: u64 = 3_000;

/// Milliseconds since the peer was last heard at `last_rx_us` (0 = never heard, which
/// never counts as silence).
pub open spec fn silence_ms(last_rx_us: u64, now_us: u64) -> int {
    if last_rx_us == 0 || now_us <= last_rx_us { 0 } else { (now_us - last_rx_us) / 1_000 }
}

/// Milliseconds since the peer was last heard, see [`silence_ms`].
pub fn silent_for_ms(last_rx_us: u64, now_us: u64) -> (r: u64)
    ensures
        r == silence_ms(last_rx_us, now_us),
{
    if last_rx_us == 0 || now_us <= last_rx_us {
        return 0;
    }
    (now_us - last_rx_us) / 1_000
}

/// Whether a tick declares the link lost: once per session, only for the initiator
/// while it streams, after `LINK_STALL_THRESHOLD_MS` without hearing the peer.
pub open spec fn stalled(already_reported: bool, streaming: bool, initiator: bool, silent_ms: int) -> bool {
    !already_reported && streaming && initiator && silent_ms >= LINK_STALL_THRESHOLD_MS
}

/// Whether this tick declares the link lost, see [`stalled`].
pub fn link_stalled(already_reported: bool, streaming: bool, initiator: bool, silent_ms: u64) -> (r: bool)
    ensures
        r == stalled(already_reported, streaming, initiator, silent_ms as int),
{
    !already_reported && streaming && initiator && silent_ms >= LINK_STALL_THRESHOLD_MS
}

/// A session that never heard its peer is never declared stalled, and a stall is
/// reported at most once.
pub proof fn law_stall_needs_a_heard_peer(
    now_us: u64,
    already_reported: bool,
    streaming: bool,
    initiator: bool,
    silent_ms: int,
)
    ensures
        !stalled(already_reported, streaming, initiator, silence_ms(0, now_us)),
        !stalled(true, streaming, initiator, silent_ms),
{
}

} // verus!
