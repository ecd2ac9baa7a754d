use audiolink_engine::epoch::{frame_us, EpochSchedule, PlayoutAction};

fn schedule() -> EpochSchedule {
    EpochSchedule::new(0x1122_3344, 1_000_000, 0)
}

#[test]
fn maps_sample_index_along_the_epoch_axis() {
    let schedule = schedule();
    assert_eq!(schedule.local_target_us(0, 0), 1_000_000);
    assert_eq!(schedule.local_target_us(48_000, 0), 2_000_000);
    assert_eq!(schedule.local_target_us(960, 0), 1_020_000);
    assert_eq!(schedule.local_target_us(1, 0), 1_000_020);
}

#[test]
fn offset_shifts_the_epoch_the_right_way() {
    let schedule = schedule();
    assert_eq!(schedule.local_target_us(0, 1_000_000), 0);
    assert_eq!(schedule.local_target_us(0, -500_000), 1_500_000);
}

#[test]
fn lead_ms_is_added_on_top() {
    let schedule = EpochSchedule::new(1, 1_000_000, 50);
    assert_eq!(schedule.local_target_us(0, 0), 1_050_000);
    assert_eq!(schedule.local_target_us(48_000, 0), 2_050_000);
}

#[test]
fn action_waits_before_the_target() {
    let schedule = schedule();
    assert_eq!(schedule.action(999_000, 0, 0), PlayoutAction::Play);
    assert_eq!(schedule.action(997_000, 0, 0), PlayoutAction::Wait { wait_us: 3_000 });
    assert_eq!(schedule.action(0, 0, 0), PlayoutAction::Wait { wait_us: 1_000_000 });
}

#[test]
fn action_plays_inside_the_late_window() {
    let schedule = schedule();
    assert_eq!(schedule.action(1_000_000, 0, 0), PlayoutAction::Play);
    assert_eq!(schedule.action(1_000_001, 0, 0), PlayoutAction::Play);
    assert_eq!(schedule.action(1_020_000, 0, 0), PlayoutAction::Play);
}

#[test]
fn action_drops_when_too_late() {
    let schedule = schedule();
    assert_eq!(schedule.action(1_020_001, 0, 0), PlayoutAction::Drop { late_us: 20_001 });
    assert_eq!(schedule.action(1_500_000, 0, 0), PlayoutAction::Drop { late_us: 500_000 });
}

#[test]
fn target_is_played_on_the_tick_that_reaches_it() {
    let schedule = EpochSchedule::new(7, 1_010_000, 0);
    assert_eq!(schedule.target_us(0, 0), 1_010_000);
    assert!(matches!(schedule.action(1_007_000, 0, 0), PlayoutAction::Wait { .. }));
    assert_eq!(schedule.action(1_010_000, 0, 0), PlayoutAction::Play);
    assert_eq!(schedule.action(1_010_001, 0, 0), PlayoutAction::Play);
}

#[test]
fn early_tolerance_absorbs_tick_jitter() {
    let schedule = EpochSchedule::new(7, 1_010_000, 0);
    assert_eq!(schedule.action(1_010_000 - 1, 0, 0), PlayoutAction::Play);
    assert_eq!(schedule.action(1_010_000 - 1_999, 0, 0), PlayoutAction::Play);
    assert!(matches!(schedule.action(1_010_000 - 2_001, 0, 0), PlayoutAction::Wait { .. }));
    assert!(matches!(schedule.action(1_010_000 + 20_001, 0, 0), PlayoutAction::Drop { .. }));
}

#[test]
fn target_sits_exactly_on_the_epoch_phase_grid() {
    let schedule = EpochSchedule::new(7, 1_010_000, 0);
    let frame_samples = 960_u32;
    let frame = frame_us(frame_samples);
    for offset in [0_i64, 2_000, -2_000, 1_337] {
        for index in [0_u32, 960, 1_920, 48_000, 44_640] {
            let phase = schedule.phase_us(index, offset, frame_samples);
            let target = schedule.target_us(index, offset);
            assert_eq!((target - phase).rem_euclid(frame), 0, "offset={offset} index={index}");
        }
    }
}

#[test]
fn both_ends_play_the_same_frame_within_the_clock_estimate_error() {
    let schedule = EpochSchedule::new(7, 1_010_000, 0);
    let frame_samples = 960_u32;
    let frame = frame_us(frame_samples);
    let (offset_a, offset_b) = (0_i64, 2_000_i64);
    let (base_a, base_b) = (schedule.target_us(0, offset_a), schedule.target_us(0, offset_b));
    for tick in 0..20_i64 {
        let index = 960_u32 * (tick as u32 + 1);
        let now_a = base_a + (tick + 1) * frame;
        let now_b = base_b + (tick + 1) * frame;
        assert_eq!(schedule.action(now_a, index, offset_a), PlayoutAction::Play);
        assert_eq!(schedule.action(now_b, index, offset_b), PlayoutAction::Play);
        assert!((now_a - now_b).abs() <= 2_000);
    }
}

#[test]
fn huge_sample_index_does_not_overflow() {
    let schedule = EpochSchedule::new(1, 0, 0);
    let target = schedule.local_target_us(u32::MAX, 0);
    assert!(target > 0);
    assert!(target > schedule.local_target_us(u32::MAX - 1, 0));
}

#[test]
fn epoch_before_boot_still_decides_sanely() {
    let schedule = EpochSchedule::new(1, 1_000, 0);
    let action = schedule.action(5_000_000, 0, 10_000_000);
    assert!(matches!(action, PlayoutAction::Play | PlayoutAction::Drop { .. }));
}

#[test]
fn frame_length_in_microseconds() {
    assert_eq!(frame_us(960), 20_000);
    assert_eq!(frame_us(480), 10_000);
    assert_eq!(frame_us(0), 20);
    assert_eq!(frame_us(1), 20);
}

#[test]
fn phase_is_the_target_modulo_the_frame() {
    let schedule = EpochSchedule::new(7, 1_010_000, 0);
    assert_eq!(schedule.phase_us(0, 0, 960), 10_000);
    assert_eq!(schedule.phase_us(0, 1_020_000, 960), 10_000);
    assert_eq!(schedule.phase_us(0, 1_020_001, 960), 9_999);
}
