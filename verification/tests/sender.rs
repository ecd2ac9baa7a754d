use std::sync::atomic::{AtomicUsize, Ordering};

use audiolink_engine::jitter::AdaptiveJitterDepth;
use audiolink_engine::nack::{MissingTracker, RetransmitBuffer};
use audiolink_engine::reconnect::LINK_STALL_THRESHOLD_MS;
use audiolink_engine::sender::{depth_tick, SenderState, StartSendPlan, FIRST_STREAM_ID};

#[test]
fn a_second_start_is_busy_and_a_new_stream_forgets_the_old_holes() {
    let mut state = SenderState::new();
    let mut missing = MissingTracker::new();
    let mut retransmit = RetransmitBuffer::new();
    assert_eq!(state.start_send_plan(), StartSendPlan::Start);

    missing.observe(10, 1_000);
    missing.observe(13, 2_000);
    assert_eq!(missing.pending(), 2);
    retransmit.record(5, 0, &[1, 2, 3], 1_000);
    assert_eq!(retransmit.len(), 1);

    state.stream_started(&mut missing, &mut retransmit);
    assert!(state.capturing);
    assert_eq!(state.stream_id, Some(FIRST_STREAM_ID));
    assert_eq!(missing.pending(), 0, "holes of the last stream are forgotten");
    assert_eq!(retransmit.len(), 0, "copies of the last stream are forgotten");
    assert_eq!(state.start_send_plan(), StartSendPlan::Busy, "one capture per session");

    assert_eq!(state.close_stream(&mut missing, &mut retransmit), Some(FIRST_STREAM_ID));
    assert!(!state.capturing);
    assert_eq!(state.close_stream(&mut missing, &mut retransmit), None, "nothing left to close");
    assert_eq!(state.start_send_plan(), StartSendPlan::Start);
}

#[test]
fn a_failed_open_stops_the_capture() {
    let mut state = SenderState::new();
    let mut missing = MissingTracker::new();
    let mut retransmit = RetransmitBuffer::new();
    state.stream_started(&mut missing, &mut retransmit);
    state.open_failed();
    assert!(!state.capturing);
    assert_eq!(state.stream_id, None);
}

#[test]
fn the_stall_is_reported_once() {
    let mut state = SenderState::new();
    assert!(!state.stall_check(true, 10_000), "not streaming yet");
    let mut missing = MissingTracker::new();
    let mut retransmit = RetransmitBuffer::new();
    state.stream_started(&mut missing, &mut retransmit);
    assert!(!state.stall_check(false, 10_000), "a responder waits to be dialed");
    assert!(!state.stall_check(true, LINK_STALL_THRESHOLD_MS - 1));
    assert!(state.stall_check(true, LINK_STALL_THRESHOLD_MS));
    assert!(!state.stall_check(true, 60_000), "reported once");
}

#[test]
fn depth_tick_counts_new_underruns_and_keeps_a_concurrent_raise() {
    let mut state = SenderState::new();
    let mut depth = AdaptiveJitterDepth::new(20);
    let shared = AtomicUsize::new(1);

    // Two underruns so far: the controller keeps the target (a raise needs measured jitter).
    let tick = depth_tick(&mut state, &mut depth, &shared, 1, 2, None, 20_000);
    assert_eq!(tick.new_underruns, 2);
    assert_eq!(state.last_underruns, 2);
    assert_eq!(tick.target, 1);

    // High jitter: the controller raises to 3 frames and publishes it.
    let tick = depth_tick(&mut state, &mut depth, &shared, 1, 2, Some(40_000), 20_000);
    assert_eq!(tick.new_underruns, 0);
    assert_eq!(tick.desired, 3);
    assert_eq!(tick.target, 3);
    assert_eq!(shared.load(Ordering::Relaxed), 3);

    // The playout thread raised to 5 meanwhile: its value stays in effect.
    shared.store(5, Ordering::Relaxed);
    let tick = depth_tick(&mut state, &mut depth, &shared, 3, 2, Some(100), 20_000);
    assert_eq!(tick.target, 5);
    assert_eq!(depth.target_frames(), 5);

    // The counter went backwards (a reset): no new underruns.
    let tick = depth_tick(&mut state, &mut depth, &shared, 5, 0, None, 20_000);
    assert_eq!(tick.new_underruns, 0);
}
