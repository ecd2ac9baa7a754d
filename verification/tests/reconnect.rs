use audiolink_engine::reconnect::{
    count_reconnect, link_stalled, silent_for_ms, LINK_STALL_THRESHOLD_MS, peer_gone_plan, AttemptOutcome, ReconnectError, ReconnectLoop, ReconnectStep,
    RECONNECT_BACKOFF_MAX_US, RECONNECT_BACKOFF_MIN_US, RECONNECT_BUDGET_US,
};
use audiolink_engine::session::{SessionEvent, SessionMachine, SessionState};

const START: u64 = 5_000_000;

#[test]
fn backoff_doubles_up_to_its_ceiling() {
    let mut lp: ReconnectLoop<&str> = ReconnectLoop::new(START);
    let mut pauses = Vec::new();
    for _ in 0..5 {
        pauses.push(lp.on_outcome(AttemptOutcome::Failed("refused")).unwrap());
    }
    assert_eq!(pauses, vec![150_000, 300_000, 400_000, 400_000, 400_000]);
    assert_eq!(pauses[0], RECONNECT_BACKOFF_MIN_US);
    assert_eq!(pauses[4], RECONNECT_BACKOFF_MAX_US);
}

#[test]
fn the_budget_ends_the_loop() {
    let lp: ReconnectLoop<&str> = ReconnectLoop::new(START);
    assert_eq!(lp.next_step(START, false), ReconnectStep::Attempt);
    assert_eq!(lp.next_step(START + RECONNECT_BUDGET_US - 1, false), ReconnectStep::Attempt);
    assert_eq!(lp.next_step(START + RECONNECT_BUDGET_US, false), ReconnectStep::GiveUp);
    assert_eq!(lp.next_step(START + 1, true), ReconnectStep::Stop, "shutdown stops without a verdict");
    assert!(lp.into_last_error().is_none(), "no attempt, no error");
}

#[test]
fn the_same_peer_ends_the_loop_another_peer_does_not() {
    let mut lp: ReconnectLoop<&str> = ReconnectLoop::new(START);
    assert_eq!(lp.on_outcome(AttemptOutcome::Connected { same_peer: false }), Some(150_000));
    assert_eq!(lp.on_outcome(AttemptOutcome::TimedOut), Some(300_000));
    assert_eq!(lp.on_outcome(AttemptOutcome::Connected { same_peer: true }), None);
    assert!(matches!(lp.into_last_error(), Some(ReconnectError::TimedOut)));

    let mut other: ReconnectLoop<&str> = ReconnectLoop::new(START);
    other.on_outcome(AttemptOutcome::Connected { same_peer: false });
    assert!(matches!(other.into_last_error(), Some(ReconnectError::IdentityMismatch)));
}

#[test]
fn lost_link_reconnects_only_when_allowed_and_once() {
    let first = peer_gone_plan(true, false, false);
    assert_eq!(first.state, SessionState::Reconnecting);
    assert!(first.request_reconnect);

    let again = peer_gone_plan(true, false, true);
    assert_eq!(again.state, SessionState::Reconnecting);
    assert!(!again.request_reconnect, "one reconnect in flight per session");

    assert_eq!(peer_gone_plan(false, false, false).state, SessionState::Failed);
    assert_eq!(peer_gone_plan(true, true, false).state, SessionState::Failed);
}

#[test]
fn a_reconnect_is_counted_on_a_streaming_session() {
    let mut machine = SessionMachine::new();
    machine.apply(SessionEvent::ConnectRequested);
    machine.apply(SessionEvent::HandshakeOk);
    assert!(count_reconnect(&mut machine));
    assert_eq!(machine.state(), SessionState::Streaming);
    assert_eq!(machine.reconnects(), 1);
    assert_eq!(machine.handshakes(), 2);
    assert_eq!(machine.last_event(), Some(SessionEvent::ReconnectOk));

    let mut idle = SessionMachine::new();
    assert!(!count_reconnect(&mut idle));
    assert_eq!(idle.reconnects(), 0);
    assert_eq!(idle.state(), SessionState::Idle);
}

#[test]
fn silence_counts_from_the_last_packet_and_never_before_the_first() {
    assert_eq!(silent_for_ms(0, 99_000_000), 0, "never heard: not silent");
    assert_eq!(silent_for_ms(1_000_000, 4_500_999), 3_500);
    assert_eq!(silent_for_ms(5_000_000, 4_000_000), 0, "clock before the packet");
}

#[test]
fn only_a_streaming_initiator_reports_a_stall_once() {
    assert!(link_stalled(false, true, true, LINK_STALL_THRESHOLD_MS));
    assert!(!link_stalled(false, true, true, LINK_STALL_THRESHOLD_MS - 1));
    assert!(!link_stalled(true, true, true, 10_000), "already reported");
    assert!(!link_stalled(false, false, true, 10_000), "not streaming");
    assert!(!link_stalled(false, true, false, 10_000), "responder waits to be dialed");
}
