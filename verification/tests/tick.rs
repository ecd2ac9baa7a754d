use audiolink_engine::jitter::PlayoutDepthAction;
use audiolink_engine::tick::{
    after_underrun, catch_up, depth_action_for, prime_target, start_wait_us, TickPace,
};

#[test]
fn on_time_wake_up_moves_one_period() {
    let pace = catch_up(true, 1_000, 1_000, 20_000, Some(5));
    assert_eq!(pace, TickPace { missed: 0, next_write_us: 21_000, cursor: Some(5) });
    let early = catch_up(true, 900, 1_000, 20_000, Some(5));
    assert_eq!(early.missed, 0);
    assert_eq!(early.next_write_us, 21_000);
}

#[test]
fn late_wake_up_skips_whole_ticks_and_keeps_the_phase() {
    // 65 ms late on a 20 ms grid: three ticks are gone, the next write is on the grid.
    let pace = catch_up(true, 1_065_000, 1_000_000, 20_000, Some(10));
    assert_eq!(pace.missed, 3);
    assert_eq!(pace.cursor, Some(13), "the cursor moves past the lost ticks");
    assert_eq!(pace.next_write_us, 1_080_000);
    assert!(pace.next_write_us > 1_065_000, "never a tick in the past");
}

#[test]
fn nothing_is_skipped_before_priming_and_the_cursor_wraps() {
    let unprimed = catch_up(false, 5_000_000, 1_000_000, 20_000, Some(1));
    assert_eq!(unprimed.missed, 0);
    assert_eq!(unprimed.cursor, Some(1));
    let wrapped = catch_up(true, 1_040_000, 1_000_000, 20_000, Some(u32::MAX));
    assert_eq!(wrapped.missed, 2);
    assert_eq!(wrapped.cursor, Some(1));
    assert_eq!(catch_up(true, 1_040_000, 1_000_000, 20_000, None).cursor, None);
}

#[test]
fn priming_target_stays_within_the_depth_bounds() {
    assert_eq!(prime_target(2, 20), 2);
    assert_eq!(prime_target(0, 20), 1, "at least 20 ms");
    assert_eq!(prime_target(100, 20), 6, "at most 120 ms");
    assert_eq!(prime_target(100, 10), 12);
}

#[test]
fn first_tick_lands_on_the_grid_or_on_the_scheduled_target() {
    assert_eq!(start_wait_us(0, 0, 1_005_000, 20_000), 15_000);
    assert_eq!(start_wait_us(0, 0, 1_000_000, 20_000), 20_000, "a full period on the grid");
    assert_eq!(start_wait_us(2_500_000, 20_000, 2_000_000, 20_000), 500_000);
    assert_eq!(start_wait_us(1_000_000, 20_000, 2_000_000, 20_000), 0, "target passed: start now");
}

#[test]
fn scheduled_playout_never_holds_and_keeps_its_depth() {
    assert_eq!(depth_action_for(PlayoutDepthAction::Hold, true), PlayoutDepthAction::Play);
    assert_eq!(depth_action_for(PlayoutDepthAction::Hold, false), PlayoutDepthAction::Hold);
    assert_eq!(
        depth_action_for(PlayoutDepthAction::DropOldest(2), true),
        PlayoutDepthAction::DropOldest(2)
    );
    assert_eq!(after_underrun(3, true, 20), (3, false));
    assert_eq!(after_underrun(3, false, 20), (4, true));
    assert_eq!(after_underrun(6, false, 20), (6, true), "capped at 120 ms");
}
