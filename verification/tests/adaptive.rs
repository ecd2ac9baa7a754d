use audiolink_engine::adaptive::{
    AdaptiveBitrate, BitrateChange, BitrateReason, LinkSeverity, MAX_BITRATE_BPS, MIN_BITRATE_BPS,
    RTT_LIMIT_US,
};

const SECOND_US: u64 = 1_000_000;

/// Feed a sample at "second n".
fn feed(model: &mut AdaptiveBitrate, secs: u64, loss_pct_x100: u16) -> Option<BitrateChange> {
    model.observe(secs * SECOND_US, loss_pct_x100, 2_000)
}

#[test]
fn loss_below_threshold_never_drops() {
    let mut model = AdaptiveBitrate::new(160_000);
    let mut lowest = model.current_bps();
    for secs in 0..120 {
        if let Some(change) = feed(&mut model, secs, 100) {
            assert!(change.to_bps > change.from_bps, "exactly 1% must not step down: {change:?}");
        }
        lowest = lowest.min(model.current_bps());
    }
    assert_eq!(lowest, 160_000);
}

#[test]
fn three_seconds_above_one_percent_drops_twenty_percent() {
    let mut model = AdaptiveBitrate::new(160_000);
    assert_eq!(feed(&mut model, 0, 200), None);
    assert_eq!(feed(&mut model, 1, 200), None);
    let change = feed(&mut model, 2, 200).expect("third second steps down");
    assert_eq!(change.from_bps, 160_000);
    assert_eq!(change.to_bps, 128_000);
    assert_eq!(change.reason, BitrateReason::PacketLoss { loss_pct_x100: 200 });
    assert_eq!(model.current_bps(), 128_000);
}

#[test]
fn sustained_loss_steps_down_every_three_seconds_until_the_floor() {
    let mut model = AdaptiveBitrate::new(160_000);
    let mut steps = Vec::new();
    for secs in 0..30 {
        if let Some(change) = feed(&mut model, secs, 300) {
            steps.push(change.to_bps);
        }
    }
    assert_eq!(steps, vec![128_000, 102_400, 96_000]);
    assert_eq!(model.current_bps(), MIN_BITRATE_BPS);
    assert_eq!(model.severity(), LinkSeverity::Loss);
}

#[test]
fn recovery_needs_ten_clean_seconds_and_then_steps_every_five() {
    let mut model = AdaptiveBitrate::new(160_000);
    for secs in 0..9 {
        assert_eq!(feed(&mut model, secs, 0), None, "sample {secs} is too early");
    }
    let first = feed(&mut model, 9, 0).expect("ten clean samples step up");
    assert_eq!(first.to_bps, 176_000);
    assert_eq!(first.reason, BitrateReason::Recovered);
    for secs in 10..14 {
        assert_eq!(feed(&mut model, secs, 0), None);
    }
    let second = feed(&mut model, 14, 0).expect("five seconds later another step");
    assert_eq!(second.from_bps, 176_000);
    assert_eq!(second.to_bps, 193_600);
}

#[test]
fn recovery_stops_at_the_ceiling() {
    let mut model = AdaptiveBitrate::new(304_000);
    let mut now = 0_u64;
    let mut last = None;
    for _ in 0..20 {
        now += 6;
        last = feed(&mut model, now, 0);
    }
    assert_eq!(model.current_bps(), MAX_BITRATE_BPS);
    assert!(last.is_none());
}

#[test]
fn high_rtt_blocks_recovery() {
    let mut model = AdaptiveBitrate::new(160_000);
    for secs in 0..30 {
        let change = model.observe(secs * SECOND_US, 0, RTT_LIMIT_US + 1);
        assert_eq!(change, None);
    }
    assert_eq!(model.current_bps(), 160_000);
}

#[test]
fn loss_after_recovery_drops_again() {
    let mut model = AdaptiveBitrate::new(160_000);
    for secs in 0..12 {
        feed(&mut model, secs, 0);
    }
    assert!(model.current_bps() > 160_000);
    let before = model.current_bps();
    let mut dropped = None;
    for secs in 12..18 {
        if dropped.is_none() {
            dropped = feed(&mut model, secs, 900);
        } else {
            let _ = feed(&mut model, secs, 900);
        }
    }
    let dropped = dropped.expect("loss again steps down again");
    assert_eq!(dropped.from_bps, before);
    assert!(dropped.to_bps < before);
    assert_eq!(model.severity(), LinkSeverity::SevereLoss);
}

#[test]
fn initial_bitrate_is_clamped_into_the_documented_range() {
    assert_eq!(AdaptiveBitrate::new(10_000).current_bps(), MIN_BITRATE_BPS);
    assert_eq!(AdaptiveBitrate::new(900_000).current_bps(), MAX_BITRATE_BPS);
}

#[test]
fn severity_names_are_stable() {
    assert_eq!(LinkSeverity::Nominal.name(), "ok");
    assert_eq!(LinkSeverity::Loss.name(), "loss");
    assert_eq!(LinkSeverity::SevereLoss.name(), "severe_loss");
}

#[test]
fn a_step_down_restarts_the_loss_window() {
    let mut model = AdaptiveBitrate::new(320_000);
    assert_eq!(feed(&mut model, 0, 500), None);
    assert_eq!(feed(&mut model, 1, 500), None);
    assert_eq!(feed(&mut model, 2, 500).map(|c| c.to_bps), Some(256_000));
    assert_eq!(feed(&mut model, 3, 500), None);
    assert_eq!(feed(&mut model, 4, 500), None);
    assert_eq!(feed(&mut model, 5, 500).map(|c| c.to_bps), Some(204_800));
    assert_eq!(model.severity(), LinkSeverity::Loss);
}

#[test]
fn describe_prints_the_loss_as_a_shortest_decimal() {
    assert_eq!(
        BitrateReason::PacketLoss { loss_pct_x100: 250 }.describe(),
        "丢包 2.5% 持续 3 s → 降级"
    );
    assert_eq!(BitrateReason::PacketLoss { loss_pct_x100: 300 }.describe(), "丢包 3% 持续 3 s → 降级");
    assert_eq!(BitrateReason::PacketLoss { loss_pct_x100: 7 }.describe(), "丢包 0.07% 持续 3 s → 降级");
    assert_eq!(BitrateReason::Recovered.describe(), "连续 10 s 无丢包 → 恢复一级");
}

#[test]
fn describe_matches_the_floating_point_rendering_for_every_loss() {
    for x in 0..=u16::MAX {
        let expected = format!("丢包 {}% 持续 3 s → 降级", f64::from(x) / 100.0);
        assert_eq!(BitrateReason::PacketLoss { loss_pct_x100: x }.describe(), expected);
    }
}
