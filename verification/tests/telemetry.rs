use audiolink_engine::telemetry::{publish_clock, ClockReading, CodecStats, TelemetryAggregator};

fn codec() -> CodecStats {
    CodecStats { frame_ms: 20, channels: 2, complexity: 10 }
}

#[test]
fn fresh_aggregator_reports_zeros_not_garbage() {
    let aggregator = TelemetryAggregator::new(7, codec());
    // Empty sample windows report 0 percentiles.
    let stats = aggregator.snapshot(0, 0, 0);

    assert_eq!(stats.stream_id, 7);
    assert_eq!(stats.e2e_latency_us, 0);
    assert_eq!(stats.jitter_us, 0);
    assert_eq!(stats.loss_pct_x100, 0);
    assert_eq!(stats.bitrate_bps, 0);
    assert_eq!(stats.underruns, 0);
}

#[test]
fn loss_rate_uses_expected_as_denominator() {
    let mut aggregator = TelemetryAggregator::new(1, codec());

    for _ in 0..98 {
        aggregator.record_expected();
        aggregator.record_received(400);
    }
    for _ in 0..2 {
        aggregator.record_expected();
        aggregator.record_lost(1);
    }

    let (loss, _) = aggregator.roll();
    assert_eq!(loss, 200, "2/100 = 2.00%");
    assert_eq!(aggregator.snapshot(0, 0, 0).loss_pct_x100, 200);
}

#[test]
fn bitrate_is_settled_per_one_second_window_then_resets() {
    let mut aggregator = TelemetryAggregator::new(1, codec());

    // 50 packets of 400 B in one window: 50 × 400 × 8 = 160 kbps.
    for _ in 0..50 {
        aggregator.record_expected();
        aggregator.record_received(400);
    }
    let (_, bitrate) = aggregator.roll();
    assert_eq!(bitrate, 160_000);

    // The next window has no data: back to 0, and no division by zero.
    let (loss, bitrate) = aggregator.roll();
    assert_eq!(bitrate, 0);
    assert_eq!(loss, 0);
}

#[test]
fn counters_accumulate_across_rolls_while_window_metrics_reset() {
    let mut aggregator = TelemetryAggregator::new(1, codec());

    aggregator.record_underrun();
    aggregator.record_late_drop();
    aggregator.record_plc();
    aggregator.record_nack();

    aggregator.record_expected();
    aggregator.record_lost(1);
    aggregator.roll();

    aggregator.roll();
    let stats = aggregator.snapshot(0, 0, 0);

    assert_eq!(stats.loss_pct_x100, 0, "the loss rate is settled per window");
    assert_eq!(stats.underruns, 1, "cumulative counts survive the roll");
    assert_eq!(stats.late_drops, 1);
    assert_eq!(stats.plc_count, 1);
    assert_eq!(stats.nack_count, 1);
}

#[test]
fn set_values_are_echoed_verbatim() {
    let mut aggregator = TelemetryAggregator::new(3, codec());
    aggregator.set_rtt_us(4_321);
    aggregator.set_clock(-1_500, 23);
    aggregator.set_buffer_level_us(60_000);
    aggregator.set_codec(CodecStats { frame_ms: 10, channels: 1, complexity: 5 });

    let stats = aggregator.snapshot(0, 0, 0);
    assert_eq!(stats.rtt_us, 4_321);
    assert_eq!(stats.clock_offset_us, -1_500);
    assert_eq!(stats.drift_ppm, 23);
    assert_eq!(stats.buffer_level_us, 60_000);
    assert_eq!(stats.codec.frame_ms, 10);
}

#[test]
fn telemetry_reset_clears_everything_for_session_rebuild() {
    let mut aggregator = TelemetryAggregator::new(1, codec());
    aggregator.record_underrun();
    aggregator.record_expected();
    aggregator.record_received(400);
    aggregator.roll();

    aggregator.reset();

    let stats = aggregator.snapshot(0, 0, 0);
    assert_eq!(stats.underruns, 0);
    assert_eq!(stats.bitrate_bps, 0);
    assert_eq!(aggregator.packets_received(), 0);
}

#[test]
fn saturation_does_not_overflow_on_absurd_inputs() {
    let mut aggregator = TelemetryAggregator::new(1, codec());
    aggregator.record_lost(u32::MAX);
    aggregator.record_lost(u32::MAX);
    aggregator.record_expected();

    let (loss, _) = aggregator.roll();
    assert_eq!(loss, 10_000, "at most 100 %");

    aggregator.record_received(usize::MAX);
    aggregator.record_received(usize::MAX);
    let (_, bitrate) = aggregator.roll();
    assert_eq!(bitrate, u32::MAX, "the bitrate saturates instead of wrapping");
}

#[test]
fn snapshot_carries_the_window_percentiles() {
    let aggregator = TelemetryAggregator::new(2, codec());
    let stats = aggregator.snapshot(40_000, 1_000, 30_000);
    assert_eq!(stats.e2e_latency_us, 40_000);
    assert_eq!(stats.jitter_us, 1_000);
    assert_eq!(stats.jitter_p95_us, 30_000);
}

#[test]
fn loss_rate_rounds_down() {
    let mut aggregator = TelemetryAggregator::new(1, codec());
    for _ in 0..3 {
        aggregator.record_expected();
    }
    aggregator.record_lost(1);
    assert_eq!(aggregator.roll().0, 3_333);
}

#[test]
fn clock_estimate_is_published_clamped_and_absence_keeps_the_fields() {
    let mut aggregator = TelemetryAggregator::new(1, codec());
    publish_clock(&mut aggregator, None);
    assert_eq!(aggregator.snapshot(0, 0, 0).clock_offset_us, 0, "no estimate: nothing published");

    publish_clock(&mut aggregator, Some(ClockReading { offset_us: -37_500, drift_ppm: 12 }));
    let stats = aggregator.snapshot(0, 0, 0);
    assert_eq!(stats.clock_offset_us, -37_500);
    assert_eq!(stats.drift_ppm, 12);

    publish_clock(&mut aggregator, None);
    assert_eq!(aggregator.snapshot(0, 0, 0).clock_offset_us, -37_500, "the last estimate stays");

    publish_clock(&mut aggregator, Some(ClockReading { offset_us: i64::MAX, drift_ppm: 0 }));
    assert_eq!(aggregator.snapshot(0, 0, 0).clock_offset_us, i32::MAX);
}
