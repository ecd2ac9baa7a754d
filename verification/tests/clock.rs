use audiolink_engine::clock::{
    as_i64, clamp_i64, ClockProbeState, ClockProbeStats, RttSummary, FAST_INTERVAL_MS, FAST_PROBES,
    MAX_OUTSTANDING, STEADY_INTERVAL_MS,
};

#[test]
fn responder_echoes_probe_with_28_byte_payload_and_t2_equal_t3() {
    let mut state = ClockProbeState::new();
    let reply = state.on_probe(4242, 1_234_567, 9_000_111);
    assert_eq!(reply.probe_seq, 4242, "probe_seq is echoed");
    assert_eq!(reply.t1, 1_234_567, "t1 is echoed");
    assert_eq!(reply.t2, 9_000_111, "t2 is when the probe arrived");
    assert_eq!(reply.t3, reply.t2, "t3 = t2: no processing delay is added");

    let stats = state.stats(0, None);
    assert_eq!(stats.received, 1);
    assert_eq!(stats.sent, 0, "the responder sent no probe");
}

#[test]
fn reply_without_matching_probe_is_unmatched_and_never_enters_the_window() {
    let mut state = ClockProbeState::new();
    // No probe was ever sent: the sequence number pairs with nothing.
    assert!(state.on_reply(7, 100, 200, 200).is_none());

    let stats = state.stats(0, None);
    assert_eq!(stats.unmatched, 1);
    assert_eq!(stats.replies, 0);
    assert_eq!(stats.sent, 0);
    assert_eq!(stats.rtt_samples, 0);
}

#[test]
fn echoed_t1_that_differs_from_ours_is_unmatched() {
    let mut state = ClockProbeState::new();
    let _ = state.build_probe(1_000);

    // The sequence number matches (0) but the echoed t1 is not the 1000 we sent.
    assert!(state.on_reply(0, 4_242, 5_000, 5_000).is_none());

    assert_eq!(state.stats(0, None).unmatched, 1);
    assert_eq!(state.stats(0, None).replies, 0);
}

#[test]
fn a_replayed_reply_pairs_only_once() {
    let mut state = ClockProbeState::new();
    let (probe_seq, t1) = state.build_probe(1_000_000);

    assert!(state.on_reply(probe_seq, t1, 1_000_500, 1_000_500).is_some());
    // The same reply again must be refused.
    assert!(state.on_reply(probe_seq, t1, 1_000_500, 1_000_500).is_none());

    assert_eq!(state.stats(0, None).replies, 1);
    assert_eq!(state.stats(0, None).unmatched, 1);
}

#[test]
fn probe_rhythm_is_100ms_for_the_first_50_then_one_second() {
    let mut state = ClockProbeState::new();

    for index in 0..u64::from(FAST_PROBES) {
        assert_eq!(state.probe_interval_ms(), FAST_INTERVAL_MS, "probe {} is still fast", index + 1);
        let _ = state.build_probe(index);
    }

    assert_eq!(state.probe_interval_ms(), STEADY_INTERVAL_MS, "steady after 50 probes");
    assert_eq!(state.stats(0, None).sent, u64::from(FAST_PROBES));

    let _ = state.build_probe(999_999);
    assert_eq!(state.probe_interval_ms(), STEADY_INTERVAL_MS, "never back to the fast phase");
}

#[test]
fn outstanding_table_is_bounded_and_evicts_the_oldest() {
    let mut state = ClockProbeState::new();
    for index in 0..(MAX_OUTSTANDING as u64 + 8) {
        let _ = state.build_probe(index);
    }
    assert_eq!(state.outstanding_count(), MAX_OUTSTANDING, "the table is capped");

    // The oldest probe (seq 0) was evicted: its reply pairs with nothing.
    assert!(state.on_reply(0, 0, 1, 1).is_none());
    assert_eq!(state.stats(0, None).unmatched, 1);
    assert_eq!(state.stats(0, None).replies, 0);
}

#[test]
fn extreme_timestamps_do_not_panic() {
    let mut state = ClockProbeState::new();

    // Nothing sent and every timestamp at the extreme: only unmatched, no panic.
    assert!(state.on_reply(u32::MAX, i64::MAX, i64::MAX, i64::MAX).is_none());
    assert_eq!(state.stats(0, None).unmatched, 1);

    // Answering side: a negative t1 is echoed as is.
    let reply = state.on_probe(u32::MAX, i64::MIN, u64::MAX);
    assert_eq!(reply.t1, i64::MIN, "a negative t1 is echoed");
    assert_eq!(reply.t2, reply.t3);
    assert_eq!(reply.t2, i64::MAX, "an out-of-range local time saturates");
}

#[test]
fn zero_timestamps_are_still_a_sample_not_a_dead_clock() {
    let mut state = ClockProbeState::new();
    let (probe_seq, t1) = state.build_probe(0);
    assert_eq!(t1, 0);
    let paired = state.on_reply(probe_seq, t1, 500, 500).expect("0 is a valid timestamp");
    assert_eq!(paired.t1_us, 0);
    assert_eq!(state.stats(0, None).replies, 1);
}

#[test]
fn negative_timestamps_are_unmatched_and_consume_the_probe() {
    let mut state = ClockProbeState::new();
    let (probe_seq, t1) = state.build_probe(10_000);
    assert!(state.on_reply(probe_seq, t1, -1, 20_000).is_none());
    assert_eq!(state.stats(0, None).unmatched, 1);
    // The probe left the table: the correct reply now pairs with nothing.
    assert!(state.on_reply(probe_seq, t1, 15_000, 15_000).is_none());
    assert_eq!(state.stats(0, None).unmatched, 2);
    assert_eq!(state.outstanding_count(), 0);
}

#[test]
fn paired_reply_carries_the_timestamps_as_sent() {
    let mut state = ClockProbeState::new();
    let _ = state.build_probe(1_000);
    let (probe_seq, t1) = state.build_probe(2_000);
    assert_eq!(probe_seq, 1);
    let paired = state.on_reply(probe_seq, t1, 2_600, 2_650).expect("pairs");
    assert_eq!((paired.probe_seq, paired.t1_us, paired.t2_us, paired.t3_us), (1, 2_000, 2_600, 2_650));
    assert_eq!(state.outstanding_count(), 1, "probe 0 is still outstanding");
}

#[test]
fn rtt_percentiles_need_eight_samples() {
    let state = ClockProbeState::new();
    let few = state.stats(7, Some(RttSummary { count: 7, p50_us: 2_000, p95_us: 3_000 }));
    assert_eq!(few.rtt_samples, 7);
    assert_eq!(few.rtt_p50_us, None, "not Some(0): below eight samples nothing is reported");
    assert_eq!(few.rtt_p95_us, None);
    let enough = state.stats(8, Some(RttSummary { count: 8, p50_us: 2_000, p95_us: 3_000 }));
    assert_eq!(enough.rtt_p50_us, Some(2_000));
    assert_eq!(enough.rtt_p95_us, Some(3_000));
}

#[test]
fn fresh_stats_are_all_zero() {
    assert_eq!(ClockProbeState::new().stats(0, None), ClockProbeStats::default());
}

#[test]
fn conversions_saturate() {
    assert_eq!(as_i64(5), 5);
    assert_eq!(as_i64(u64::MAX), i64::MAX);
    assert_eq!(clamp_i64(-37_500), -37_500);
    assert_eq!(clamp_i64(i64::MIN), i32::MIN);
    assert_eq!(clamp_i64(i64::MAX), i32::MAX);
}

/// One probe and its reply for a peer `offset_us` ahead with `rtt_us` of round trip;
/// returns the round trip measured from the paired timestamps (t4 − t1 − (t3 − t2)).
fn round_trip(state: &mut ClockProbeState, now_us: u64, rtt_us: u64, offset_us: i64) -> u32 {
    let (probe_seq, t1) = state.build_probe(now_us);
    let t2 = t1 + offset_us + i64::try_from(rtt_us / 2).unwrap();
    let paired = state.on_reply(probe_seq, t1, t2, t2).expect("the reply pairs with its probe");
    let t4 = i64::try_from(now_us + rtt_us).unwrap();
    u32::try_from(t4 - paired.t1_us as i64 - (paired.t3_us as i64 - paired.t2_us as i64)).unwrap()
}

/// Summary of the RTT ring kept by the caller (nearest-rank percentiles).
fn summary_of(rtts: &[u32]) -> Option<RttSummary> {
    if rtts.is_empty() {
        return None;
    }
    let mut sorted = rtts.to_vec();
    sorted.sort_unstable();
    let rank = |q: usize| sorted[((sorted.len() * q).div_ceil(100)).max(1) - 1];
    Some(RttSummary { count: sorted.len(), p50_us: rank(50), p95_us: rank(95) })
}

#[test]
fn rtt_percentiles_are_none_until_eight_samples() {
    const OFFSET_US: i64 = -37_500;
    let mut state = ClockProbeState::new();
    let mut rtts = Vec::new();

    for index in 0..7u64 {
        rtts.push(round_trip(&mut state, 1_000_000 + index * 100_000, 2_000, OFFSET_US));
        let stats = state.stats(rtts.len(), summary_of(&rtts));
        assert_eq!(stats.rtt_samples, u32::try_from(index + 1).unwrap());
        assert_eq!(stats.rtt_p50_us, None, "below eight samples: no percentile, not Some(0)");
        assert_eq!(stats.rtt_p95_us, None);
    }

    rtts.push(round_trip(&mut state, 1_800_000, 2_000, OFFSET_US));
    let stats = state.stats(rtts.len(), summary_of(&rtts));
    assert_eq!(stats.rtt_samples, 8);
    assert_eq!(stats.rtt_p50_us, Some(2_000));
    assert_eq!(stats.rtt_p95_us, Some(2_000));
}
