use audiolink_engine::dispatch::{dispatch, dispatch_into, DispatchOutcome, DispatchStats, OpCode};

#[test]
fn outcome_names_are_stable_for_logs() {
    assert_eq!(DispatchOutcome::Handled.name(), "handled");
    assert_eq!(DispatchOutcome::IgnoredUnknownOp.name(), "ignored-unknown-op");
    assert_eq!(DispatchOutcome::IgnoredUnimplemented.name(), "ignored-unimplemented");
    assert_eq!(DispatchOutcome::IgnoredBadPayload.name(), "ignored-bad-payload");
    assert!(DispatchOutcome::IgnoredUnknownOp.is_ignored());
    assert!(!DispatchOutcome::Handled.is_ignored());
}

#[test]
fn unknown_opcode_is_ignored_and_counted_not_fatal() {
    let mut stats = DispatchStats::default();
    let (request, outcome) = dispatch_into::<u32>(None, None, &mut stats);
    assert_eq!(request, None);
    assert_eq!(outcome, DispatchOutcome::IgnoredUnknownOp);
    assert_eq!(stats.received, 1);
    assert_eq!(stats.ignored_unknown_op, 1);
}

#[test]
fn bad_payload_is_ignored_and_counted_not_fatal() {
    let mut stats = DispatchStats::default();
    let (request, outcome) = dispatch_into::<u32>(Some(OpCode::Hello), None, &mut stats);
    assert_eq!(request, None);
    assert_eq!(outcome, DispatchOutcome::IgnoredBadPayload);
    assert_eq!(stats.ignored_bad_payload, 1);
    assert_eq!(stats.handled, 0);
}

#[test]
fn unimplemented_opcodes_are_distinguished_from_bad_payloads() {
    let mut stats = DispatchStats::default();
    for op in [OpCode::SetVolumeLock, OpCode::TelemetryPush] {
        let (request, outcome) = dispatch_into(Some(op), Some(7u32), &mut stats);
        assert_eq!(request, None);
        assert_eq!(outcome, DispatchOutcome::IgnoredUnimplemented);
    }
    assert_eq!(stats.ignored_unimplemented, 2);
    assert_eq!(stats.ignored_bad_payload, 0);
}

#[test]
fn stats_arithmetic_is_sane() {
    let mut stats = DispatchStats::default();
    assert_eq!(stats.ignored_pct_x100(), 0);
    dispatch_into::<u32>(None, None, &mut stats);
    dispatch_into::<u32>(Some(OpCode::Hello), None, &mut stats);
    dispatch_into(Some(OpCode::Ping), Some(1u32), &mut stats);
    assert_eq!(stats.received, 3);
    assert_eq!(stats.handled, 1);
    assert_eq!(stats.ignored(), 2);
    assert_eq!(stats.ignored_pct_x100(), 6_666);
}

#[test]
fn a_decoded_request_is_handed_over() {
    let mut stats = DispatchStats::new();
    assert_eq!(dispatch(Some(OpCode::Bye), Some("bye"), &mut stats), Some("bye"));
    assert_eq!(stats.handled, 1);
    assert!(OpCode::Bye.is_implemented());
    assert!(!OpCode::TelemetryPush.is_implemented());
}
