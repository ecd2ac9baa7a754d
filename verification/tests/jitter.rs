use std::sync::atomic::{AtomicUsize, Ordering};

use audiolink_engine::jitter::{
    arrival_jitter_us, frames_for_ms, publish_target, rescale_depth_frames, AdaptiveJitterDepth, PacketReorderBuffer,
    PlayoutDepthAction, PlayoutDepthState, ReorderBatch, DEFAULT_TARGET_MS, FULL_REORDER_MS,
    INITIAL_TARGET_MS, MAX_TARGET_MS, MIN_TARGET_MS, REORDER_CAPACITY_MS,
    SETTLE_EXCESS_WINDOW_US, STABLE_WINDOWS_TO_SHRINK,
};

const MS: u64 = 1_000;
/// An arbitrary monotonic instant (µs).
const START: u64 = 7_000_000;

fn push(buffer: &mut PacketReorderBuffer, seq: u32, now: u64) -> ReorderBatch {
    buffer.push(seq, vec![seq as u8], now)
}

fn seqs(batch: &ReorderBatch) -> Vec<u32> {
    batch.ready.iter().map(|packet| packet.seq).collect()
}

#[test]
fn in_order_packets_pass_without_waiting() {
    let now = START;
    let mut buffer = PacketReorderBuffer::new(20 * MS);
    assert_eq!(seqs(&push(&mut buffer, 7, now)), [7]);
    assert_eq!(seqs(&push(&mut buffer, 8, now)), [8]);
    assert!(buffer.next_deadline().is_none());
}

#[test]
fn sixty_ms_target_repairs_one_packet_reordering() {
    let now = START;
    let mut buffer = PacketReorderBuffer::new(20 * MS);
    buffer.set_target_frames(3);
    assert_eq!(seqs(&push(&mut buffer, 0, now)), [0]);
    assert!(push(&mut buffer, 2, now + 20 * MS).ready.is_empty());
    let repaired = push(&mut buffer, 1, now + 25 * MS);
    assert_eq!(seqs(&repaired), [1, 2]);
    assert_eq!(repaired.late_drops, 0);
}

#[test]
fn deadline_releases_future_packet_and_late_packet_is_dropped() {
    let now = START;
    let mut buffer = PacketReorderBuffer::new(20 * MS);
    buffer.set_target_frames(3);
    assert_eq!(seqs(&push(&mut buffer, 0, now)), [0]);
    assert!(push(&mut buffer, 2, now + 20 * MS).ready.is_empty());
    let expired = buffer.flush_expired(now + 40 * MS);
    assert_eq!(seqs(&expired), [2]);
    let late = push(&mut buffer, 1, now + 41 * MS);
    assert!(late.ready.is_empty());
    assert_eq!(late.late_drops, 1);
}

#[test]
fn sequence_wrap_is_reordered_in_half_range_order() {
    let now = START;
    let mut buffer = PacketReorderBuffer::new(20 * MS);
    buffer.set_target_frames(3);
    assert_eq!(seqs(&push(&mut buffer, u32::MAX, now)), [u32::MAX]);
    assert!(push(&mut buffer, 1, now).ready.is_empty());
    assert_eq!(seqs(&push(&mut buffer, 0, now)), [0, 1]);
}

#[test]
fn delayed_redundant_copies_are_silently_deduplicated() {
    let now = START;
    let mut buffer = PacketReorderBuffer::new(20 * MS);
    buffer.set_target_frames(3);
    assert!(push(&mut buffer, 0, now).accepted_new_seq);
    assert!(push(&mut buffer, 1, now + 20 * MS).accepted_new_seq);
    let duplicate = push(&mut buffer, 0, now + 20 * MS);
    assert!(!duplicate.accepted_new_seq);
    assert_eq!(duplicate.late_drops, 0);
    assert!(duplicate.ready.is_empty());
}

#[test]
fn duplicate_pending_copy_does_not_consume_reorder_capacity() {
    let now = START;
    let mut buffer = PacketReorderBuffer::new(20 * MS);
    buffer.set_target_frames(3);
    assert_eq!(seqs(&push(&mut buffer, 0, now)), [0]);
    assert!(push(&mut buffer, 2, now).accepted_new_seq);
    let duplicate = push(&mut buffer, 2, now + MS);
    assert!(!duplicate.accepted_new_seq);
    assert_eq!(duplicate.late_drops, 0);
    assert_eq!(seqs(&push(&mut buffer, 1, now)), [1, 2]);
}

#[test]
fn depth_rises_immediately_and_shrinks_only_after_stable_hysteresis() {
    let mut depth = AdaptiveJitterDepth::new(20);
    depth.raise_to(frames_for_ms(DEFAULT_TARGET_MS, 20));
    depth.raise_to(3);
    assert_eq!(depth.observe(Some(2_000), 1, 20_000), 3);
    for _ in 0..STABLE_WINDOWS_TO_SHRINK - 1 {
        assert_eq!(depth.observe(Some(2_000), 0, 20_000), 3);
    }
    assert_eq!(depth.observe(Some(2_000), 0, 20_000), 2);
    for _ in 0..STABLE_WINDOWS_TO_SHRINK {
        depth.observe(Some(2_000), 0, 20_000);
    }
    assert_eq!(depth.target_frames(), 1);
}

#[test]
fn one_playout_underrun_raises_only_once_at_ten_ms() {
    let mut depth = AdaptiveJitterDepth::new(10);
    depth.raise_to(3);
    assert_eq!(depth.observe(Some(2_000), 1, 10_000), 3);
    for _ in 0..STABLE_WINDOWS_TO_SHRINK - 1 {
        assert_eq!(depth.observe(Some(2_000), 0, 10_000), 3);
    }
    assert_eq!(depth.observe(Some(2_000), 0, 10_000), 2);
}

#[test]
fn a_fresh_controller_starts_at_the_minimum_depth() {
    let mut depth = AdaptiveJitterDepth::new(20);
    assert_eq!(depth.target_frames(), frames_for_ms(INITIAL_TARGET_MS, 20));
    assert_eq!(INITIAL_TARGET_MS, MIN_TARGET_MS);
    assert_eq!(frames_for_ms(MIN_TARGET_MS, 20), 1);
    assert_eq!(depth.observe(None, 0, 20_000), frames_for_ms(MIN_TARGET_MS, 20));
}

#[test]
fn jitter_thresholds_map_to_twenty_forty_and_sixty_ms() {
    let mut low = AdaptiveJitterDepth::new(20);
    for _ in 0..STABLE_WINDOWS_TO_SHRINK {
        low.observe(Some(5_000), 0, 20_000);
    }
    assert_eq!(low.target_frames(), 1);
    let mut medium = AdaptiveJitterDepth::new(20);
    assert_eq!(medium.observe(Some(20_000), 0, 20_000), 2);
    let mut high = AdaptiveJitterDepth::new(20);
    assert_eq!(high.observe(Some(20_001), 0, 20_000), 3);
}

#[test]
fn renewed_jitter_or_missing_measurements_cancel_fast_recovery() {
    let mut depth = AdaptiveJitterDepth::new(20);
    depth.raise_to(6);
    for _ in 0..4 {
        assert_eq!(depth.observe(Some(2_000), 0, 20_000), 6);
    }
    assert_eq!(depth.observe(None, 0, 20_000), 6);
    for _ in 0..4 {
        assert_eq!(depth.observe(Some(2_000), 0, 20_000), 6);
    }
    assert_eq!(depth.observe(Some(2_000), 1, 20_000), 6);
    for _ in 0..4 {
        assert_eq!(depth.observe(Some(2_000), 0, 20_000), 6);
    }
    assert_eq!(depth.observe(Some(2_000), 0, 20_000), 5);
}

#[test]
fn burst_jitter_gets_bounded_headroom_and_eventually_returns_to_low_latency() {
    let mut depth = AdaptiveJitterDepth::new(20);
    assert_eq!(depth.observe(Some(70_000), 0, 20_000), 5);
    assert_eq!(depth.observe(Some(u32::MAX), 1, 20_000), 6);
    for _ in 0..25 {
        depth.observe(Some(2_000), 0, 20_000);
    }
    assert_eq!(depth.target_frames(), 1);
}

#[test]
fn ten_ms_frames_double_every_protection_pad() {
    assert_eq!(frames_for_ms(MIN_TARGET_MS, 20), 1);
    assert_eq!(frames_for_ms(INITIAL_TARGET_MS, 20), 1);
    assert_eq!(frames_for_ms(DEFAULT_TARGET_MS, 20), 2);
    assert_eq!(frames_for_ms(MAX_TARGET_MS, 20), 6);
    assert_eq!(frames_for_ms(FULL_REORDER_MS, 20), 3);
    assert_eq!(frames_for_ms(REORDER_CAPACITY_MS, 20), 3);

    assert_eq!(frames_for_ms(MIN_TARGET_MS, 10), 2);
    assert_eq!(frames_for_ms(INITIAL_TARGET_MS, 10), 2);
    assert_eq!(frames_for_ms(DEFAULT_TARGET_MS, 10), 4);
    assert_eq!(frames_for_ms(MAX_TARGET_MS, 10), 12);
    assert_eq!(frames_for_ms(FULL_REORDER_MS, 10), 6);
    assert_eq!(frames_for_ms(REORDER_CAPACITY_MS, 10), 6);
}

#[test]
fn ten_ms_controller_uses_doubled_depths() {
    let mut depth = AdaptiveJitterDepth::new(10);
    assert_eq!(depth.target_frames(), 2);
    assert_eq!(depth.observe(Some(10_000), 0, 10_000), 4);
    let mut high = AdaptiveJitterDepth::new(10);
    high.raise_to(11);
    assert_eq!(high.observe(Some(u32::MAX), 1, 10_000), 12);
}

#[test]
fn ten_ms_reorder_buffer_repairs_reordering_at_sixty_ms_target() {
    let now = START;
    let mut buffer = PacketReorderBuffer::new(10 * MS);
    buffer.set_target_frames(6);
    assert_eq!(seqs(&push(&mut buffer, 0, now)), [0]);
    assert!(push(&mut buffer, 2, now + 10 * MS).ready.is_empty());
    let repaired = push(&mut buffer, 1, now + 15 * MS);
    assert_eq!(seqs(&repaired), [1, 2]);
    assert_eq!(repaired.late_drops, 0);
}

#[test]
fn ten_ms_reorder_capacity_holds_six_future_packets() {
    let now = START;
    let mut buffer = PacketReorderBuffer::new(10 * MS);
    buffer.set_target_frames(6);
    push(&mut buffer, 0, now);
    for seq in 2..=7 {
        assert!(push(&mut buffer, seq, now).ready.is_empty(), "{seq} waits within 60 ms");
    }
    let overflow = push(&mut buffer, 9, now);
    assert_eq!(seqs(&overflow), [2, 3, 4, 5, 6, 7]);
}

#[test]
fn frame_length_switch_rescales_depth_by_wall_clock() {
    assert_eq!(rescale_depth_frames(1, 20, 10), 2);
    assert_eq!(rescale_depth_frames(2, 10, 20), 1);
    assert_eq!(rescale_depth_frames(6, 20, 10), 12);
    assert_eq!(rescale_depth_frames(12, 10, 20), 6);
    assert_eq!(rescale_depth_frames(usize::MAX, 20, 10), 12);
    assert_eq!(rescale_depth_frames(0, 20, 10), 2);
}

#[test]
fn controller_switch_to_ten_ms_rescales_target_and_bounds() {
    let mut depth = AdaptiveJitterDepth::new(20);
    depth.set_frame_ms(10);
    assert_eq!(depth.target_frames(), 2);
    assert_eq!(depth.observe(Some(10_000), 0, 10_000), 4);
    let mut high = AdaptiveJitterDepth::new(20);
    high.raise_to(6);
    high.set_frame_ms(10);
    assert_eq!(high.target_frames(), 12);
    assert_eq!(high.observe(Some(u32::MAX), 1, 10_000), 12);
}

#[test]
fn controller_switch_to_twenty_ms_rescales_target_and_bounds() {
    let mut depth = AdaptiveJitterDepth::new(10);
    depth.raise_to(4);
    depth.set_frame_ms(20);
    assert_eq!(depth.target_frames(), 2);
    assert_eq!(depth.observe(Some(u32::MAX), 1, 20_000), 6);
    depth.set_frame_ms(20);
    assert_eq!(depth.target_frames(), 6);
}

#[test]
fn playout_rebuffer_holds_only_the_bounded_depth_deficit() {
    let now = START;
    let mut from_forty = PlayoutDepthState::new(2, 20);
    assert_eq!(from_forty.action(3, 0, now), PlayoutDepthAction::Hold);
    assert_eq!(from_forty.action(3, 0, now), PlayoutDepthAction::Hold);
    assert_eq!(from_forty.action(3, 0, now), PlayoutDepthAction::Hold);
    assert_eq!(from_forty.action(3, 0, now), PlayoutDepthAction::Play);
    assert_eq!(from_forty.active_frames(), 3);

    let mut from_twenty = PlayoutDepthState::new(1, 20);
    assert_eq!(from_twenty.action(3, 1, now), PlayoutDepthAction::Hold);
    assert_eq!(from_twenty.action(3, 2, now), PlayoutDepthAction::Hold);
    assert_eq!(from_twenty.action(3, 3, now), PlayoutDepthAction::Play);
    assert_eq!(from_twenty.active_frames(), 3);
}

#[test]
fn playout_rebuffer_finishes_early_when_target_depth_arrives() {
    let now = START;
    let mut state = PlayoutDepthState::new(2, 20);
    assert_eq!(state.action(3, 1, now), PlayoutDepthAction::Hold);
    assert_eq!(state.action(3, 3, now), PlayoutDepthAction::Play);
    assert_eq!(state.active_frames(), 3);
}

#[test]
fn max_depth_underrun_can_refill_without_another_depth_raise() {
    let now = START;
    let mut state = PlayoutDepthState::new(3, 20);
    state.refill_after_underrun(1);
    assert_eq!(state.action(3, 1, now), PlayoutDepthAction::Hold);
    assert_eq!(state.action(3, 2, now), PlayoutDepthAction::Hold);
    assert_eq!(state.action(3, 3, now), PlayoutDepthAction::Play);
    assert_eq!(state.active_frames(), 3);
}

#[test]
fn playout_downshift_drops_only_real_excess_depth() {
    let now = START;
    let mut state = PlayoutDepthState::new(3, 20);
    assert_eq!(state.action(2, 3, now), PlayoutDepthAction::DropOldest(1));
    assert_eq!(state.active_frames(), 2);
    let mut already_shallow = PlayoutDepthState::new(3, 20);
    assert_eq!(already_shallow.action(2, 2, now), PlayoutDepthAction::Play);
    assert_eq!(already_shallow.active_frames(), 2);
}

#[test]
fn steady_state_settles_sustained_excess_one_frame_per_window() {
    let start = START;
    let mut state = PlayoutDepthState::new(2, 20);
    assert_eq!(state.action(2, 5, start), PlayoutDepthAction::Play);
    assert_eq!(state.action(2, 5, start + SETTLE_EXCESS_WINDOW_US - MS), PlayoutDepthAction::Play);
    assert_eq!(state.action(2, 5, start + SETTLE_EXCESS_WINDOW_US), PlayoutDepthAction::DropOldest(1));
    let after = start + SETTLE_EXCESS_WINDOW_US + 20 * MS;
    assert_eq!(state.action(2, 4, after), PlayoutDepthAction::Play);
    assert_eq!(state.action(2, 4, after + SETTLE_EXCESS_WINDOW_US), PlayoutDepthAction::DropOldest(1));
}

#[test]
fn transient_excess_restarts_the_settlement_window() {
    let start = START;
    let mut state = PlayoutDepthState::new(2, 20);
    assert_eq!(state.action(2, 5, start), PlayoutDepthAction::Play);
    assert_eq!(state.action(2, 2, start + 300 * MS), PlayoutDepthAction::Play);
    let again = start + 400 * MS;
    assert_eq!(state.action(2, 5, again), PlayoutDepthAction::Play);
    assert_eq!(state.action(2, 5, again + SETTLE_EXCESS_WINDOW_US), PlayoutDepthAction::DropOldest(1));
}

#[test]
fn one_frame_swing_above_target_never_settles() {
    let start = START;
    let mut state = PlayoutDepthState::new(2, 20);
    for beat in 0..100u64 {
        assert_eq!(state.action(2, 3, start + beat * 20 * MS), PlayoutDepthAction::Play);
    }
}

#[test]
fn gear_change_resets_the_settlement_window() {
    let start = START;
    let mut state = PlayoutDepthState::new(3, 20);
    assert_eq!(state.action(3, 6, start), PlayoutDepthAction::Play);
    assert_eq!(state.action(2, 6, start + 300 * MS), PlayoutDepthAction::DropOldest(1));
    let raised = start + 600 * MS;
    assert_eq!(state.action(2, 5, raised), PlayoutDepthAction::Play);
    assert_eq!(state.action(2, 5, raised + SETTLE_EXCESS_WINDOW_US), PlayoutDepthAction::DropOldest(1));
}

#[test]
fn controller_publish_does_not_overwrite_concurrent_underrun_raise() {
    let shared = AtomicUsize::new(3);
    assert_eq!(publish_target(&shared, 2, 1, 20), 3);
    assert_eq!(shared.load(Ordering::Relaxed), 3);
}

#[test]
fn controller_publish_stores_the_decision_when_uncontended() {
    let shared = AtomicUsize::new(2);
    assert_eq!(publish_target(&shared, 2, 1, 20), 1);
    assert_eq!(shared.load(Ordering::Relaxed), 1);
}

#[test]
fn retransmit_grace_holds_a_gap_until_the_deadline() {
    let mut buffer = PacketReorderBuffer::new(20 * MS);
    buffer.set_retransmit_grace(30 * MS);
    let start = START;
    assert_eq!(seqs(&push(&mut buffer, 0, start)), vec![0]);
    let batch = push(&mut buffer, 2, start + 20 * MS);
    assert!(batch.ready.is_empty());
    assert!(buffer.next_deadline().is_some());
    let batch = push(&mut buffer, 1, start + 40 * MS);
    assert_eq!(seqs(&batch), vec![1, 2]);
    assert!(buffer.next_deadline().is_none());
}

#[test]
fn retransmit_grace_expires_and_original_behaviour_resumes() {
    let mut buffer = PacketReorderBuffer::new(20 * MS);
    buffer.set_retransmit_grace(30 * MS);
    let start = START;
    push(&mut buffer, 0, start);
    push(&mut buffer, 2, start + 20 * MS);
    let deadline = buffer.next_deadline().expect("a hole has a deadline");
    let batch = buffer.flush_expired(deadline + MS);
    assert_eq!(seqs(&batch), vec![2]);
}

#[test]
fn retransmit_grace_does_not_delay_a_contiguous_stream() {
    let mut buffer = PacketReorderBuffer::new(20 * MS);
    buffer.set_retransmit_grace(30 * MS);
    let start = START;
    assert_eq!(seqs(&push(&mut buffer, 0, start)), vec![0]);
    assert_eq!(seqs(&push(&mut buffer, 1, start + 20 * MS)), vec![1]);
    assert!(buffer.next_deadline().is_none());
}

#[test]
fn closing_retransmit_grace_keeps_only_the_short_redundancy_window() {
    let mut buffer = PacketReorderBuffer::new(20 * MS);
    buffer.set_retransmit_grace(30 * MS);
    let start = START;
    push(&mut buffer, 0, start);
    buffer.set_retransmit_grace(0);
    let batch = push(&mut buffer, 2, start + 20 * MS);
    assert!(batch.ready.is_empty());
    assert_eq!(buffer.next_deadline(), Some(start + 25 * MS));
    assert!(buffer.flush_expired(start + 24 * MS).ready.is_empty());
    assert_eq!(seqs(&buffer.flush_expired(start + 25 * MS)), [2]);
    assert_eq!(push(&mut buffer, 1, start + 26 * MS).late_drops, 1);
}

#[test]
fn a_large_jump_restarts_the_window_and_counts_the_waiting_packets() {
    let mut buffer = PacketReorderBuffer::new(20 * MS);
    buffer.set_target_frames(3);
    push(&mut buffer, 0, START);
    assert!(push(&mut buffer, 2, START).ready.is_empty());
    let jump = push(&mut buffer, 5_000, START + MS);
    assert_eq!(jump.late_drops, 1);
    assert_eq!(seqs(&jump), [5_000]);
    assert!(jump.accepted_new_seq);
}

#[test]
fn packets_carry_their_payload_through_the_window() {
    let mut buffer = PacketReorderBuffer::new(20 * MS);
    buffer.set_target_frames(3);
    let batch = buffer.push(4, vec![1, 2, 3], START);
    assert_eq!(batch.ready[0].payload, vec![1, 2, 3]);
    assert_eq!(batch.ready[0].arrived_at_us(), START);
}

#[test]
fn arrival_jitter_is_distance_from_the_frame_period() {
    assert_eq!(arrival_jitter_us(20_000, 20), 0);
    assert_eq!(arrival_jitter_us(23_500, 20), 3_500);
    assert_eq!(arrival_jitter_us(1_000, 20), 19_000, "back-to-back arrival");
    assert_eq!(arrival_jitter_us(500, 0), 500, "0 ms counts as 1 ms");
    assert_eq!(arrival_jitter_us(u64::MAX, 10), u32::MAX - 10_000, "gap capped at u32::MAX");
}

#[test]
fn delivery_across_calls_is_in_wrapping_order_and_never_repeats() {
    let mut buffer = PacketReorderBuffer::new(20_000);
    buffer.set_target_frames(3);
    let mut delivered: Vec<u32> = Vec::new();
    let start = u32::MAX - 3;
    let arrivals = [0u32, 2, 1, 2, 5, 4, 3, 0, 7, 9, 8, 6];
    let mut now = 1_000_000u64;
    for offset in arrivals {
        delivered.extend(seqs(&buffer.push(start.wrapping_add(offset), vec![1], now)));
        now += 20_000;
        delivered.extend(seqs(&buffer.flush_expired(now)));
    }
    now += 1_000_000;
    delivered.extend(seqs(&buffer.flush_expired(now)));
    for pair in delivered.windows(2) {
        let step = pair[1].wrapping_sub(pair[0]);
        assert!((1..=0x8000_0000).contains(&step), "{delivered:?}");
    }
    let mut unique = delivered.clone();
    unique.sort_unstable();
    unique.dedup();
    assert_eq!(unique.len(), delivered.len(), "no number is handed out twice");
}

#[test]
fn depth_needs_five_stable_windows_for_each_frame_down() {
    let mut depth = AdaptiveJitterDepth::new(20);
    depth.raise_to(5);
    assert_eq!(depth.target_frames(), 5);
    let mut targets = Vec::new();
    for _ in 0..10 {
        targets.push(depth.observe(Some(100), 0, 20_000));
    }
    assert_eq!(targets, vec![5, 5, 5, 5, 4, 4, 4, 4, 4, 3]);
    // An underrun or a missing measurement never lowers it, and resets the count.
    assert_eq!(depth.observe(Some(100), 1, 20_000), 3);
    assert_eq!(depth.observe(None, 0, 20_000), 3);
}

#[test]
fn a_fresh_window_hands_out_each_number_once_in_wrapping_order() {
    let mut buffer = PacketReorderBuffer::new(20 * MS);
    assert!(buffer.flush_expired(START).ready.is_empty());
    let arrivals: [u32; 12] = [
        u32::MAX - 2, u32::MAX, u32::MAX - 1, u32::MAX - 1, 1, 0, 3, 2, 2, 6, 4, 5,
    ];
    let mut out: Vec<u32> = Vec::new();
    for (i, seq) in arrivals.iter().enumerate() {
        let now = START + (i as u64) * MS;
        let batch = push(&mut buffer, *seq, now);
        if !batch.accepted_new_seq {
            assert!(batch.ready.is_empty());
        }
        out.extend(seqs(&batch));
        out.extend(seqs(&buffer.flush_expired(now)));
    }
    out.extend(seqs(&buffer.flush_expired(START + 10_000 * MS)));
    assert_eq!(out, vec![u32::MAX - 2, u32::MAX - 1, u32::MAX, 0, 1, 2, 3, 4, 5, 6]);
    for pair in out.windows(2) {
        let step = pair[1].wrapping_sub(pair[0]);
        assert!(step >= 1 && step <= 1 << 31);
    }
}
