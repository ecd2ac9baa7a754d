use audiolink_engine::nack::{
    nack_enabled, retransmit_grace_us, MissingTracker, NACK_MAX_RTT_US, NACK_RETRANSMIT_GRACE_US, RetransmitBuffer, NACK_BATCH_MAX, NACK_MAX_RETRIES, NACK_MAX_TRACKED,
    NACK_RESYNC_GAP, NACK_RETRANSMIT_CAPACITY, NACK_RETRY_INTERVAL_US, NACK_WINDOW_US,
};

/// Test instant: `millis` after an arbitrary base (µs).
fn at(millis: u64) -> u64 {
    5_000_000 + millis * 1_000
}

#[test]
fn in_order_arrivals_create_no_missing_entries() {
    let mut tracker = MissingTracker::new();
    for seq in 0..10u32 {
        assert_eq!(tracker.observe(seq, at(u64::from(seq) * 20)), 0);
    }
    assert_eq!(tracker.pending(), 0);
    assert!(tracker.due_batch(at(1_000)).is_empty());
}

#[test]
fn gap_is_tracked_and_requested_oldest_first() {
    let mut tracker = MissingTracker::new();
    tracker.observe(0, at(0));
    assert_eq!(tracker.observe(5, at(100)), 4);
    assert_eq!(tracker.pending(), 4);
    assert_eq!(tracker.due_batch(at(100)), vec![1, 2, 3, 4]);
}

#[test]
fn retry_is_capped_at_five_with_ten_millisecond_spacing() {
    let mut tracker = MissingTracker::new();
    tracker.observe(0, at(0));
    tracker.observe(2, at(0));
    let mut requests = 0;
    let mut sent_at = Vec::new();
    let mut now = at(0);
    while now < at(500) {
        for _ in tracker.due_batch(now) {
            requests += 1;
            sent_at.push(now);
        }
        now += 1_000;
    }
    assert_eq!(requests, usize::from(NACK_MAX_RETRIES));
    assert!(sent_at.windows(2).all(|pair| pair[1] - pair[0] >= NACK_RETRY_INTERVAL_US));
}

#[test]
fn window_closes_after_one_second_and_entries_expire() {
    let mut tracker = MissingTracker::new();
    tracker.observe(0, at(0));
    tracker.observe(2, at(0));
    assert!(tracker.due_batch(at(1_001)).is_empty());
    tracker.expire(at(1_001));
    assert_eq!(tracker.pending(), 0);
}

#[test]
fn late_arrival_fills_the_hole_and_stops_requests() {
    let mut tracker = MissingTracker::new();
    tracker.observe(0, at(0));
    tracker.observe(2, at(0));
    assert_eq!(tracker.pending(), 1);
    tracker.observe(1, at(15));
    assert_eq!(tracker.pending(), 0);
    assert!(tracker.due_batch(at(20)).is_empty());
}

#[test]
fn duplicate_and_out_of_order_copies_do_not_disturb_tracking() {
    let mut tracker = MissingTracker::new();
    tracker.observe(5, at(0));
    tracker.observe(5, at(5));
    tracker.observe(4, at(10));
    assert_eq!(tracker.pending(), 0);
    assert_eq!(tracker.overflowed(), 0);
}

#[test]
fn big_jump_rebuilds_the_timeline_instead_of_tracking_thousand_gaps() {
    let mut tracker = MissingTracker::new();
    tracker.observe(0, at(0));
    tracker.observe(NACK_RESYNC_GAP + 1, at(1));
    assert_eq!(tracker.pending(), 0);
}

#[test]
fn tracked_holes_are_bounded_and_overflow_is_counted() {
    let mut tracker = MissingTracker::new();
    tracker.observe(0, at(0));
    tracker.observe(200, at(1));
    assert_eq!(tracker.pending(), NACK_MAX_TRACKED);
    assert_eq!(tracker.overflowed(), 199 - NACK_MAX_TRACKED as u64);
    assert_eq!(tracker.due_batch(at(2)).len(), NACK_BATCH_MAX);
}

#[test]
fn sequence_wrap_is_tracked_in_the_normal_order() {
    let mut tracker = MissingTracker::new();
    tracker.observe(u32::MAX - 2, at(0));
    tracker.observe(1, at(40));
    assert_eq!(tracker.pending(), 3);
    assert_eq!(tracker.due_batch(at(40)), vec![u32::MAX - 1, u32::MAX, 0]);
}

#[test]
fn retransmit_buffer_keeps_only_the_window_and_finds_by_seq() {
    let mut buffer = RetransmitBuffer::with_window(NACK_WINDOW_US);
    buffer.record(10, 4_800, b"ten", at(0));
    buffer.record(11, 5_760, b"eleven", at(20));
    buffer.record(11, 5_760, b"copy", at(30));
    assert_eq!(buffer.len(), 2);
    assert_eq!(buffer.find(11), Some((5_760, &b"eleven"[..])));
    buffer.expire(at(1_000));
    assert_eq!(buffer.len(), 1);
    assert_eq!(buffer.find(10), None);
    assert_eq!(buffer.find(11), Some((5_760, &b"eleven"[..])));
    buffer.expire(at(1_021));
    assert!(buffer.is_empty());
}

#[test]
fn retransmit_buffer_capacity_is_bounded() {
    let mut buffer = RetransmitBuffer::new();
    for seq in 0..(NACK_RETRANSMIT_CAPACITY as u32 + 10) {
        buffer.record(seq, seq.wrapping_mul(960), b"x", at(u64::from(seq)));
    }
    assert_eq!(buffer.len(), NACK_RETRANSMIT_CAPACITY);
    assert_eq!(buffer.find(0), None);
    assert!(buffer.find(NACK_RETRANSMIT_CAPACITY as u32 + 9).is_some());
}

#[test]
fn a_batch_holds_at_most_sixteen_and_the_oldest_first() {
    let mut tracker = MissingTracker::new();
    tracker.observe(100, at(0));
    tracker.observe(130, at(1));
    let batch = tracker.due_batch(at(2));
    assert_eq!(batch, (101..=116).collect::<Vec<u32>>());
    let next = tracker.due_batch(at(2));
    assert_eq!(next, (117..=129).collect::<Vec<u32>>());
}

#[test]
fn clear_forgets_everything() {
    let mut tracker = MissingTracker::new();
    tracker.observe(0, at(0));
    tracker.observe(300, at(1));
    tracker.clear();
    assert_eq!(tracker.pending(), 0);
    assert_eq!(tracker.overflowed(), 0);
    assert_eq!(tracker.observe(7, at(2)), 0);
    assert_eq!(tracker.pending(), 0);
}

#[test]
fn nack_is_gated_by_rtt() {
    assert!(nack_enabled(0));
    assert!(nack_enabled(NACK_MAX_RTT_US - 1));
    assert!(!nack_enabled(NACK_MAX_RTT_US));
    assert!(!nack_enabled(80_000));
}

#[test]
fn retransmit_grace_is_two_rtts_plus_five_ms_capped() {
    assert_eq!(retransmit_grace_us(1, 2, 5_000), 15_000);
    assert_eq!(retransmit_grace_us(3, 4, 12_500), NACK_RETRANSMIT_GRACE_US, "30 ms cap");
    assert_eq!(retransmit_grace_us(1, 2, u64::MAX), NACK_RETRANSMIT_GRACE_US);
    assert_eq!(retransmit_grace_us(0, 8, 5_000), 0, "no hole: no wait");
    assert_eq!(retransmit_grace_us(2, 1, 5_000), 0, "queue too shallow to wait");
}

#[test]
fn batches_over_time_stay_small_distinct_and_within_the_window() {
    let mut tracker = MissingTracker::new();
    tracker.observe(0, at(0));
    tracker.observe(60, at(0));
    tracker.observe(30, at(5));
    let mut requested = 0usize;
    for step in 0..150u64 {
        let now = at(step * 10);
        let batch = tracker.due_batch(now);
        assert!(batch.len() <= NACK_BATCH_MAX);
        let mut seen = batch.clone();
        seen.sort();
        seen.dedup();
        assert_eq!(seen.len(), batch.len());
        assert!(!batch.contains(&30));
        if now - at(0) >= NACK_WINDOW_US {
            assert!(batch.is_empty());
        }
        requested += batch.len();
        tracker.expire(now);
    }
    assert_eq!(requested, 58 * NACK_MAX_RETRIES as usize);
}
