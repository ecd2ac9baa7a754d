use audiolink_engine::handshake::Role;
use audiolink_engine::session::{
    handshake_deadline_verdict, next_state, start_event, DeadlineVerdict, SessionEvent, SessionMachine,
    SessionState, SessionTransition,
};

fn drive_to(machine: &mut SessionMachine, target: SessionState) -> SessionState {
    let path: &[SessionEvent] = match target {
        SessionState::Idle => &[],
        SessionState::Handshaking => &[SessionEvent::ConnectRequested],
        SessionState::Streaming => &[SessionEvent::ConnectRequested, SessionEvent::HandshakeOk],
        SessionState::Degraded => &[
            SessionEvent::ConnectRequested,
            SessionEvent::HandshakeOk,
            SessionEvent::LinkDegraded,
        ],
        SessionState::Reconnecting => &[
            SessionEvent::ConnectRequested,
            SessionEvent::HandshakeOk,
            SessionEvent::LinkLost,
        ],
        SessionState::Failed => &[SessionEvent::ConnectRequested, SessionEvent::HandshakeFailed],
    };
    for event in path {
        machine.apply(*event);
    }
    machine.state()
}

#[test]
fn fresh_machine_starts_idle() {
    let machine = SessionMachine::new();
    assert_eq!(machine.state(), SessionState::Idle);
    assert_eq!(machine.last_event(), None);
    assert_eq!(machine.handshakes(), 0);
}

#[test]
fn happy_path_walks_the_documented_diagram() {
    let mut machine = SessionMachine::new();
    for (event, expected) in [
        (SessionEvent::ConnectRequested, SessionState::Handshaking),
        (SessionEvent::HandshakeOk, SessionState::Streaming),
        (SessionEvent::LinkDegraded, SessionState::Degraded),
        (SessionEvent::LinkRecovered, SessionState::Streaming),
        (SessionEvent::LinkLost, SessionState::Reconnecting),
        (SessionEvent::ReconnectOk, SessionState::Streaming),
        (SessionEvent::Shutdown, SessionState::Idle),
    ] {
        let transition = machine.apply(event);
        assert!(
            matches!(transition, SessionTransition::Applied { to, .. } if to == expected),
            "{event:?} should lead to {expected:?}, got {transition:?}"
        );
        assert_eq!(machine.state(), expected);
    }
    assert_eq!(machine.handshakes(), 2);
    assert_eq!(machine.reconnects(), 1);
    assert_eq!(machine.degradations(), 1);
}

#[test]
fn handshake_failure_lands_in_failed_and_failed_can_restart() {
    let mut machine = SessionMachine::new();
    machine.apply(SessionEvent::AcceptedInbound);
    assert!(matches!(
        machine.apply(SessionEvent::HandshakeFailed),
        SessionTransition::Applied { to: SessionState::Failed, .. }
    ));
    assert!(matches!(
        machine.apply(SessionEvent::ConnectRequested),
        SessionTransition::Applied { to: SessionState::Handshaking, .. }
    ));
}

#[test]
fn invalid_transition_is_reported_and_leaves_state_untouched() {
    let mut machine = SessionMachine::new();
    let transition = machine.apply(SessionEvent::HandshakeOk);
    assert_eq!(
        transition,
        SessionTransition::Invalid { from: SessionState::Idle, event: SessionEvent::HandshakeOk }
    );
    assert_eq!(machine.state(), SessionState::Idle);
    assert_eq!(machine.handshakes(), 0);
}

#[test]
fn reconnecting_rejects_handshake_ok_to_keep_the_two_paths_distinct() {
    let mut machine = SessionMachine::new();
    machine.apply(SessionEvent::ConnectRequested);
    machine.apply(SessionEvent::HandshakeOk);
    machine.apply(SessionEvent::LinkLost);
    assert_eq!(machine.state(), SessionState::Reconnecting);
    assert!(matches!(machine.apply(SessionEvent::HandshakeOk), SessionTransition::Invalid { .. }));
    assert_eq!(machine.state(), SessionState::Reconnecting);
}

#[test]
fn shutdown_is_idempotent_from_every_state() {
    for state in SessionState::all() {
        let mut machine = SessionMachine::new();
        let _ = drive_to(&mut machine, state);
        assert!(matches!(
            machine.apply(SessionEvent::Shutdown),
            SessionTransition::Applied { to: SessionState::Idle, .. }
        ));
        assert!(matches!(
            machine.apply(SessionEvent::Shutdown),
            SessionTransition::Applied { to: SessionState::Idle, .. }
        ));
    }
}

#[test]
fn every_state_event_pair_is_covered_by_the_table() {
    for state in SessionState::all() {
        for event in SessionEvent::all() {
            let mut machine = SessionMachine::new();
            let _ = drive_to(&mut machine, state);
            if machine.state() != state {
                continue;
            }
            let before = machine.state();
            match machine.apply(event) {
                SessionTransition::Applied { from, to, .. } => {
                    assert_eq!(from, before);
                    assert_eq!(machine.state(), to);
                    if !(before == SessionState::Idle && event == SessionEvent::Shutdown) {
                        assert_ne!(to, before);
                    }
                }
                SessionTransition::Invalid { from, .. } => {
                    assert_eq!(from, before);
                    assert_eq!(machine.state(), before);
                }
            }
        }
    }
}

#[test]
fn streaming_is_true_for_both_streaming_and_degraded() {
    assert!(SessionState::Streaming.is_streaming());
    assert!(SessionState::Degraded.is_streaming());
    assert!(!SessionState::Idle.is_streaming());
    assert!(!SessionState::Handshaking.is_streaming());
    assert!(!SessionState::Reconnecting.is_streaming());
    assert!(!SessionState::Failed.is_streaming());
}

#[test]
fn state_names_match_the_desktop_ts_contract() {
    assert_eq!(SessionState::Idle.name(), "idle");
    assert_eq!(SessionState::Handshaking.name(), "handshaking");
    assert_eq!(SessionState::Streaming.name(), "streaming");
    assert_eq!(SessionState::Degraded.name(), "degraded");
    assert_eq!(SessionState::Reconnecting.name(), "reconnecting");
    assert_eq!(SessionState::Failed.name(), "failed");
}

#[test]
fn event_names_are_stable() {
    assert_eq!(SessionEvent::ConnectRequested.name(), "connect-requested");
    assert_eq!(SessionEvent::LinkLost.name(), "link-lost");
    assert_eq!(SessionEvent::Shutdown.name(), "shutdown");
}

#[test]
fn statistical_errors_degrade_and_contract_errors_have_no_edge() {
    assert_eq!(SessionMachine::event_for_error(true), Some(SessionEvent::LinkDegraded));
    assert_eq!(SessionMachine::event_for_error(false), None);
}

#[test]
fn degraded_never_fails_directly() {
    for event in SessionEvent::all() {
        assert_ne!(next_state(SessionState::Degraded, event), Some(SessionState::Failed));
    }
}

#[test]
fn session_task_starts_by_role_and_reaches_handshaking() {
    assert_eq!(start_event(Role::Initiator), SessionEvent::ConnectRequested);
    assert_eq!(start_event(Role::Responder), SessionEvent::AcceptedInbound);
    for role in [Role::Initiator, Role::Responder] {
        let mut machine = SessionMachine::new();
        machine.apply(start_event(role));
        assert_eq!(machine.state(), SessionState::Handshaking);
        assert_eq!(machine.handshakes(), 0);
    }
}

#[test]
fn handshake_deadline_keeps_a_probe_serving_connection() {
    assert_eq!(handshake_deadline_verdict(0), DeadlineVerdict::TimedOut);
    assert_eq!(handshake_deadline_verdict(1), DeadlineVerdict::KeepServingProbes);
    assert_eq!(handshake_deadline_verdict(u64::MAX), DeadlineVerdict::KeepServingProbes);
}
