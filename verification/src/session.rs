//! Session state machine: the transition diagram written as a table, plus a
//! machine that counts handshakes, reconnects and degradations.
use vstd::prelude::*;

use crate::handshake::Role;

verus! {

/// Session state.
#[derive(Debug, Clone, Copy, PartialEq, Eq, Hash, Structural)]
pub enum SessionState {
    /// Not started (initial state, and where a closed session returns).
    Idle,
    /// Transport connected, running the HELLO exchange.
    Handshaking,
    /// Audio datagrams flowing.
    Streaming,
    /// Link quality dropped but audio still flows.
    Degraded,
    /// Link lost, reconnecting with backoff.
    Reconnecting,
    /// Terminal failure of this round (a new connect restarts it).
    Failed,
}

impl Default for SessionState {
    fn default() -> (r: Self)
        ensures
            r == SessionState::Idle,
    {
        SessionState::Idle
    }
}

/// Stable names of the states (the desktop UI matches these literals).
pub open spec fn session_state_name(s: SessionState) -> Seq<char> {
    match s {
        SessionState::Idle => "idle"@,
        SessionState::Handshaking => "handshaking"@,
        SessionState::Streaming => "streaming"@,
        SessionState::Degraded => "degraded"@,
        SessionState::Reconnecting => "reconnecting"@,
        SessionState::Failed => "failed"@,
    }
}

/// Whether audio datagrams should be flowing in state `s`.
pub open spec fn is_streaming_state(s: SessionState) -> bool {
    s is Streaming || s is Degraded
}

impl SessionState {
    /// Every state, for exhaustive iteration.
    pub fn all() -> (r: [SessionState; 6])
        ensures
            r@ == seq![
                SessionState::Idle,
                SessionState::Handshaking,
                SessionState::Streaming,
                SessionState::Degraded,
                SessionState::Reconnecting,
                SessionState::Failed,
            ],
    {
        [
            SessionState::Idle,
            SessionState::Handshaking,
            SessionState::Streaming,
            SessionState::Degraded,
            SessionState::Reconnecting,
            SessionState::Failed,
        ]
    }

    /// Snapshot name (logs, telemetry, UI contract).
    pub fn name(self) -> (r: &'static str)
        ensures
            r@ == session_state_name(self),
    {
        match self {
            SessionState::Idle => "idle",
            SessionState::Handshaking => "handshaking",
            SessionState::Streaming => "streaming",
            SessionState::Degraded => "degraded",
            SessionState::Reconnecting => "reconnecting",
            SessionState::Failed => "failed",
        }
    }

    /// Whether audio should be flowing (`Degraded` counts: degradation is no reason to stop).
    pub fn is_streaming(self) -> (r: bool)
        ensures
            r == is_streaming_state(self),
    {
        match self {
            SessionState::Streaming | SessionState::Degraded => true,
            _ => false,
        }
    }
}

/// Events that drive the machine.
#[derive(Debug, Clone, Copy, PartialEq, Eq, Hash, Structural)]
pub enum SessionEvent {
    /// Outbound connect requested.
    ConnectRequested,
    /// Inbound connection accepted.
    AcceptedInbound,
    /// Handshake completed.
    HandshakeOk,
    /// Handshake failed.
    HandshakeFailed,
    /// Link quality dropped.
    LinkDegraded,
    /// Link quality recovered.
    LinkRecovered,
    /// Link lost.
    LinkLost,
    /// Reconnect succeeded.
    ReconnectOk,
    /// Reconnect gave up.
    ReconnectFailed,
    /// Explicit shutdown (valid from every state).
    Shutdown,
}

/// Stable names of the events.
pub open spec fn session_event_name(e: SessionEvent) -> Seq<char> {
    match e {
        SessionEvent::ConnectRequested => "connect-requested"@,
        SessionEvent::AcceptedInbound => "accepted-inbound"@,
        SessionEvent::HandshakeOk => "handshake-ok"@,
        SessionEvent::HandshakeFailed => "handshake-failed"@,
        SessionEvent::LinkDegraded => "link-degraded"@,
        SessionEvent::LinkRecovered => "link-recovered"@,
        SessionEvent::LinkLost => "link-lost"@,
        SessionEvent::ReconnectOk => "reconnect-ok"@,
        SessionEvent::ReconnectFailed => "reconnect-failed"@,
        SessionEvent::Shutdown => "shutdown"@,
    }
}

impl SessionEvent {
    /// Every event, for exhaustive iteration.
    pub fn all() -> (r: [SessionEvent; 10])
        ensures
            r@ == seq![
                SessionEvent::ConnectRequested,
                SessionEvent::AcceptedInbound,
                SessionEvent::HandshakeOk,
                SessionEvent::HandshakeFailed,
                SessionEvent::LinkDegraded,
                SessionEvent::LinkRecovered,
                SessionEvent::LinkLost,
                SessionEvent::ReconnectOk,
                SessionEvent::ReconnectFailed,
                SessionEvent::Shutdown,
            ],
    {
        [
            SessionEvent::ConnectRequested,
            SessionEvent::AcceptedInbound,
            SessionEvent::HandshakeOk,
            SessionEvent::HandshakeFailed,
            SessionEvent::LinkDegraded,
            SessionEvent::LinkRecovered,
            SessionEvent::LinkLost,
            SessionEvent::ReconnectOk,
            SessionEvent::ReconnectFailed,
            SessionEvent::Shutdown,
        ]
    }

    /// Snapshot name (logs).
    pub fn name(self) -> (r: &'static str)
        ensures
            r@ == session_event_name(self),
    {
        match self {
            SessionEvent::ConnectRequested => "connect-requested",
            SessionEvent::AcceptedInbound => "accepted-inbound",
            SessionEvent::HandshakeOk => "handshake-ok",
            SessionEvent::HandshakeFailed => "handshake-failed",
            SessionEvent::LinkDegraded => "link-degraded",
            SessionEvent::LinkRecovered => "link-recovered",
            SessionEvent::LinkLost => "link-lost",
            SessionEvent::ReconnectOk => "reconnect-ok",
            SessionEvent::ReconnectFailed => "reconnect-failed",
            SessionEvent::Shutdown => "shutdown",
        }
    }
}

/// The transition table of the session diagram.
pub open spec fn transition(from: SessionState, event: SessionEvent) -> Option<SessionState> {
    if event is Shutdown {
        Some(SessionState::Idle)
    } else {
        match (from, event) {
            (SessionState::Idle, SessionEvent::ConnectRequested)
            | (SessionState::Idle, SessionEvent::AcceptedInbound)
            | (SessionState::Failed, SessionEvent::ConnectRequested)
            | (SessionState::Failed, SessionEvent::AcceptedInbound) => Some(SessionState::Handshaking),
            (SessionState::Handshaking, SessionEvent::HandshakeOk) => Some(SessionState::Streaming),
            (SessionState::Handshaking, SessionEvent::HandshakeFailed)
            | (SessionState::Handshaking, SessionEvent::LinkLost) => Some(SessionState::Failed),
            (SessionState::Streaming, SessionEvent::LinkDegraded) => Some(SessionState::Degraded),
            (SessionState::Streaming, SessionEvent::LinkLost) => Some(SessionState::Reconnecting),
            (SessionState::Degraded, SessionEvent::LinkRecovered) => Some(SessionState::Streaming),
            (SessionState::Degraded, SessionEvent::LinkLost) => Some(SessionState::Reconnecting),
            (SessionState::Reconnecting, SessionEvent::ReconnectOk) => Some(SessionState::Streaming),
            (SessionState::Reconnecting, SessionEvent::ReconnectFailed) => Some(SessionState::Failed),
            _ => None,
        }
    }
}

/// Next state for `(from, event)`; `None` when the pair is not in the table.
pub fn next_state(from: SessionState, event: SessionEvent) -> (r: Option<SessionState>)
    ensures
        r == transition(from, event),
{
    if let SessionEvent::Shutdown = event {
        return Some(SessionState::Idle);
    }
    match (from, event) {
        (SessionState::Idle, SessionEvent::ConnectRequested)
        | (SessionState::Idle, SessionEvent::AcceptedInbound)
        | (SessionState::Failed, SessionEvent::ConnectRequested)
        | (SessionState::Failed, SessionEvent::AcceptedInbound) => Some(SessionState::Handshaking),
        (SessionState::Handshaking, SessionEvent::HandshakeOk) => Some(SessionState::Streaming),
        (SessionState::Handshaking, SessionEvent::HandshakeFailed)
        | (SessionState::Handshaking, SessionEvent::LinkLost) => Some(SessionState::Failed),
        (SessionState::Streaming, SessionEvent::LinkDegraded) => Some(SessionState::Degraded),
        (SessionState::Streaming, SessionEvent::LinkLost) => Some(SessionState::Reconnecting),
        (SessionState::Degraded, SessionEvent::LinkRecovered) => Some(SessionState::Streaming),
        (SessionState::Degraded, SessionEvent::LinkLost) => Some(SessionState::Reconnecting),
        (SessionState::Reconnecting, SessionEvent::ReconnectOk) => Some(SessionState::Streaming),
        (SessionState::Reconnecting, SessionEvent::ReconnectFailed) => Some(SessionState::Failed),
        _ => None,
    }
}

/// Outcome of one transition attempt.
#[derive(Debug, Clone, Copy, PartialEq, Eq)]
pub enum SessionTransition {
    /// The pair is in the table.
    Applied { from: SessionState, to: SessionState, event: SessionEvent },
    /// The pair is not in the table; the state is unchanged.
    Invalid { from: SessionState, event: SessionEvent },
}

/// Current state plus transition counters.
#[derive(Debug, Clone)]
pub struct SessionMachine {
    state: SessionState,
    handshakes: u64,
    reconnects: u64,
    degradations: u64,
    last_event: Option<SessionEvent>,
}

/// Abstract state of the session machine.
pub struct SessionModel {
    pub state: SessionState,
    pub handshakes: int,
    pub reconnects: int,
    pub degradations: int,
    pub last_event: Option<SessionEvent>,
}

impl View for SessionMachine {
    type V = SessionModel;

    closed spec fn view(&self) -> SessionModel {
        SessionModel {
            state: self.state,
            handshakes: self.handshakes as int,
            reconnects: self.reconnects as int,
            degradations: self.degradations as int,
            last_event: self.last_event,
        }
    }
}

impl Default for SessionMachine {
    fn default() -> (r: Self)
        ensures
            r@.state == SessionState::Idle,
            r@.handshakes == 0 && r@.reconnects == 0 && r@.degradations == 0,
            r@.last_event is None,
    {
        SessionMachine::new()
    }
}

/// Whether the accepted pair counts as a completed handshake.
pub open spec fn counts_handshake(from: SessionState, event: SessionEvent) -> bool {
    (from is Handshaking && event is HandshakeOk) || (from is Reconnecting && event is ReconnectOk)
}

/// Whether the accepted pair counts as a reconnect.
pub open spec fn counts_reconnect(from: SessionState, event: SessionEvent) -> bool {
    from is Reconnecting && event is ReconnectOk
}

/// Whether the accepted pair counts as a degradation.
pub open spec fn counts_degradation(from: SessionState, event: SessionEvent) -> bool {
    from is Streaming && event is LinkDegraded
}

impl SessionMachine {
    /// Invariant: every reconnect was also counted as a handshake.
    pub closed spec fn inv(&self) -> bool {
        self.reconnects <= self.handshakes
    }

    /// A machine in `Idle` with zeroed counters.
    pub fn new() -> (r: Self)
        ensures
            r.inv(),
            r@.state == SessionState::Idle,
            r@.handshakes == 0 && r@.reconnects == 0 && r@.degradations == 0,
            r@.last_event is None,
    {
        SessionMachine {
            state: SessionState::Idle,
            handshakes: 0,
            reconnects: 0,
            degradations: 0,
            last_event: None,
        }
    }

    pub fn state(&self) -> (r: SessionState)
        ensures
            r == self@.state,
    {
        self.state
    }

    pub fn last_event(&self) -> (r: Option<SessionEvent>)
        ensures
            r == self@.last_event,
    {
        self.last_event
    }

    pub fn handshakes(&self) -> (r: u64)
        ensures
            r == self@.handshakes,
    {
        self.handshakes
    }

    pub fn reconnects(&self) -> (r: u64)
        ensures
            r == self@.reconnects,
    {
        self.reconnects
    }

    pub fn degradations(&self) -> (r: u64)
        ensures
            r == self@.degradations,
    {
        self.degradations
    }

    /// Apply an event; a pair outside the table leaves the machine untouched.
    pub fn apply(&mut self, event: SessionEvent) -> (r: SessionTransition)
        requires
            old(self).inv(),
            old(self)@.handshakes < u64::MAX,
            old(self)@.degradations < u64::MAX,
        ensures
            final(self).inv(),
            ({
                let o = old(self)@;
                let n = final(self)@;
                match transition(o.state, event) {
                    None => {
                        &&& r == SessionTransition::Invalid { from: o.state, event }
                        &&& n == o
                    },
                    Some(to) => {
                        &&& r == SessionTransition::Applied { from: o.state, to, event }
                        &&& n.state == to
                        &&& n.last_event == Some(event)
                        &&& n.handshakes == o.handshakes + (if counts_handshake(o.state, event) { 1int } else { 0 })
                        &&& n.reconnects == o.reconnects + (if counts_reconnect(o.state, event) { 1int } else { 0 })
                        &&& n.degradations == o.degradations + (if counts_degradation(o.state, event) { 1int } else { 0 })
                    },
                }
            }),
    {
        let from = self.state;
        let to = match next_state(from, event) {
            Some(to) => to,
            None => {
                return SessionTransition::Invalid { from, event };
            },
        };
        match (from, event) {
            (SessionState::Handshaking, SessionEvent::HandshakeOk) => {
                self.handshakes = self.handshakes + 1;
            },
            (SessionState::Reconnecting, SessionEvent::ReconnectOk) => {
                self.handshakes = self.handshakes + 1;
                self.reconnects = self.reconnects + 1;
            },
            (SessionState::Streaming, SessionEvent::LinkDegraded) => {
                self.degradations = self.degradations + 1;
            },
            _ => {},
        }
        self.state = to;
        self.last_event = Some(event);
        SessionTransition::Applied { from, to, event }
    }

    /// Event for an error, given whether the error is statistical (the link still runs):
    /// statistical errors are a degradation signal, contract failures have no automatic edge.
    pub fn event_for_error(statistical: bool) -> (r: Option<SessionEvent>)
        ensures
            r == (if statistical { Some(SessionEvent::LinkDegraded) } else { None }),
    {
        if statistical {
            Some(SessionEvent::LinkDegraded)
        } else {
            None
        }
    }
}

/// Degradation is not failure: no event takes `Degraded` straight to `Failed`;
/// only a lost link, a recovery or a shutdown leaves it.
pub proof fn law_degraded_never_fails_directly(event: SessionEvent)
    ensures
        transition(SessionState::Degraded, event) != Some(SessionState::Failed),
        transition(SessionState::Degraded, event) is Some <==> (event is LinkRecovered
            || event is LinkLost || event is Shutdown),
{
}

/// `Failed` is restartable: both an outbound and an inbound connection bring it back to
/// `Handshaking`.
pub proof fn law_failed_can_restart()
    ensures
        transition(SessionState::Failed, SessionEvent::ConnectRequested) == Some(
            SessionState::Handshaking,
        ),
        transition(SessionState::Failed, SessionEvent::AcceptedInbound) == Some(
            SessionState::Handshaking,
        ),
{
}

/// `Shutdown` is valid in every state and always lands in `Idle`; shutting down again is
/// valid too (idempotent).
pub proof fn law_shutdown_from_every_state(state: SessionState)
    ensures
        transition(state, SessionEvent::Shutdown) == Some(SessionState::Idle),
        transition(SessionState::Idle, SessionEvent::Shutdown) == Some(SessionState::Idle),
{
}

/// `Reconnecting` does not accept `HandshakeOk`: a rebuilt session reports `ReconnectOk`.
pub proof fn law_reconnecting_rejects_handshake_ok()
    ensures
        transition(SessionState::Reconnecting, SessionEvent::HandshakeOk) is None,
{
}

/// The only self-loop of the table is the idempotent `Idle` + `Shutdown`.
pub proof fn law_no_self_loop_but_idle_shutdown(state: SessionState, event: SessionEvent)
    ensures
        transition(state, event) == Some(state) ==> (state is Idle && event is Shutdown),
{
}

/// A statistical error never fails a session: the event it maps to moves no state to
/// `Failed`.
pub proof fn law_statistical_errors_never_fail(state: SessionState)
    ensures
        transition(state, SessionEvent::LinkDegraded) != Some(SessionState::Failed),
{
}

/// Every reconnect is also counted as a handshake.
pub proof fn law_reconnects_within_handshakes(machine: &SessionMachine)
    requires
        machine.inv(),
    ensures
        machine@.reconnects <= machine@.handshakes,
{
}

/// A lost link has a fixed destination in every state: while audio flows (`Streaming`
/// or `Degraded`) the session redials (`Reconnecting`), during the handshake the round
/// fails, and in any other state a lost link is not an event the session accepts.
pub proof fn law_lost_link_is_redialled_while_audio_flows(state: SessionState)
    ensures
        is_streaming_state(state) ==> transition(state, SessionEvent::LinkLost) == Some(
            SessionState::Reconnecting,
        ),
        state is Handshaking ==> transition(state, SessionEvent::LinkLost) == Some(SessionState::Failed),
        !is_streaming_state(state) && !(state is Handshaking) ==> transition(state, SessionEvent::LinkLost)
            is None,
{
}

/// `Reconnecting` is entered only when a link with audio flowing is lost, and from every
/// such state.
pub proof fn law_reconnecting_only_after_losing_a_live_link(state: SessionState, event: SessionEvent)
    ensures
        transition(state, event) == Some(SessionState::Reconnecting) <==> (is_streaming_state(state)
            && event is LinkLost),
{
}

/// Audio starts flowing (`Streaming`) only from a completed handshake, a recovered link
/// or a completed reconnect.
pub proof fn law_streaming_entered_only_by_success(state: SessionState, event: SessionEvent)
    ensures
        transition(state, event) == Some(SessionState::Streaming) <==> ((state is Handshaking
            && event is HandshakeOk) || (state is Degraded && event is LinkRecovered) || (
        state is Reconnecting && event is ReconnectOk)),
{
}

/// A round fails only while it is being set up: a failed or cut handshake, or a failed
/// reconnect. Audio that flows never fails directly.
pub proof fn law_failure_only_while_setting_up(state: SessionState, event: SessionEvent)
    ensures
        transition(state, event) == Some(SessionState::Failed) <==> ((state is Handshaking && (
        event is HandshakeFailed || event is LinkLost)) || (state is Reconnecting
            && event is ReconnectFailed)),
{
}

/// The session goes idle only when it is shut down, and a handshake starts only from
/// `Idle` or `Failed` on an outbound connect or an accepted inbound connection.
pub proof fn law_idle_and_handshake_entries(state: SessionState, event: SessionEvent)
    ensures
        transition(state, event) == Some(SessionState::Idle) <==> event is Shutdown,
        transition(state, event) == Some(SessionState::Handshaking) <==> ((state is Idle
            || state is Failed) && (event is ConnectRequested || event is AcceptedInbound)),
        transition(state, event) == Some(SessionState::Degraded) <==> (state is Streaming
            && event is LinkDegraded),
{
}

/// The event a session task starts with: the initiator has just connected, the responder
/// has just accepted the inbound connection.
pub open spec fn start_event_of(role: Role) -> SessionEvent {
    match role {
        Role::Initiator => SessionEvent::ConnectRequested,
        Role::Responder => SessionEvent::AcceptedInbound,
    }
}

/// The event a session task starts with, see [`start_event_of`].
pub fn start_event(role: Role) -> (r: SessionEvent)
    ensures
        r == start_event_of(role),
{
    match role {
        Role::Initiator => SessionEvent::ConnectRequested,
        Role::Responder => SessionEvent::AcceptedInbound,
    }
}

/// What the handshake deadline does to a session that is not established yet.
#[derive(Debug, Clone, Copy, PartialEq, Eq, Structural)]
pub enum DeadlineVerdict {
    /// Nothing happened on the connection: report "handshake timed out" and drop it.
    TimedOut,
    /// Clock probes were answered: a measurement connection, kept until the peer stops.
    KeepServingProbes,
}

/// The verdict of the handshake deadline after `probes_answered` clock probes were answered.
pub fn handshake_deadline_verdict(probes_answered: u64) -> (r: DeadlineVerdict)
    ensures
        r == (if probes_answered == 0 { DeadlineVerdict::TimedOut } else { DeadlineVerdict::KeepServingProbes }),
{
    if probes_answered == 0 {
        DeadlineVerdict::TimedOut
    } else {
        DeadlineVerdict::KeepServingProbes
    }
}

/// Whichever side a session task plays, its start event takes a new (`Idle`) or failed
/// session to `Handshaking` without counting a handshake, a reconnect or a degradation.
pub proof fn law_session_starts_handshaking(role: Role, state: SessionState)
    requires
        state == SessionState::Idle || state == SessionState::Failed,
    ensures
        transition(state, start_event_of(role)) == Some(SessionState::Handshaking),
        !counts_handshake(state, start_event_of(role)),
        !counts_reconnect(state, start_event_of(role)),
        !counts_degradation(state, start_event_of(role)),
{
}

} // verus!
