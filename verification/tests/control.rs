use audiolink_engine::control::{
    receiver_local_epoch_us, schedule_frame_samples, OpenStreamPlan, StreamControl,
};
use audiolink_engine::epoch::EpochSchedule;
use audiolink_engine::payload::STREAM_ID_ALL;

fn schedule(epoch_id: u64) -> EpochSchedule {
    EpochSchedule::new(epoch_id, 1_000 * epoch_id, 120)
}

#[test]
fn first_stream_gets_id_one_and_a_second_open_is_refused() {
    let mut control = StreamControl::new();
    assert_eq!(control.open_stream(), OpenStreamPlan::Accept { stream_id: 1 });
    assert_eq!(control.stream_id, Some(1));
    assert_eq!(control.next_stream_id, 2);
    assert_eq!(control.playout_started(), None);

    let before = control;
    assert_eq!(control.open_stream(), OpenStreamPlan::Refuse { stream_id: 1 });
    assert_eq!(control, before, "the running stream is kept");
}

#[test]
fn reopening_after_close_takes_the_next_id() {
    let mut control = StreamControl::new();
    control.open_stream();
    control.playout_started();
    control.close_stream();
    assert_eq!(control.stream_id, None);
    assert!(!control.playback_open);
    assert_eq!(control.open_stream(), OpenStreamPlan::Accept { stream_id: 2 });
}

#[test]
fn stream_ids_saturate() {
    let mut control = StreamControl::new();
    control.next_stream_id = u32::MAX;
    assert_eq!(control.open_stream(), OpenStreamPlan::Accept { stream_id: u32::MAX });
    assert_eq!(control.next_stream_id, u32::MAX);
}

#[test]
fn schedule_before_the_stream_waits_and_is_applied_once_it_opens() {
    let mut control = StreamControl::new();
    assert!(!control.deliver_schedule(schedule(7)), "no playout yet: stashed");
    assert!(!control.deliver_schedule(schedule(8)), "a newer schedule replaces it");
    assert_eq!(control.open_stream(), OpenStreamPlan::Accept { stream_id: 1 });
    assert_eq!(control.playout_started(), Some(schedule(8)));
    assert_eq!(control.pending, None, "handed out once");
    assert!(control.deliver_schedule(schedule(9)), "playout runs: apply at once");
    assert_eq!(control.pending, None);
}

#[test]
fn clearing_the_schedule_drops_the_stash() {
    let mut control = StreamControl::new();
    control.deliver_schedule(schedule(3));
    assert!(!control.clear_schedule(), "no playout to clear");
    control.open_stream();
    assert_eq!(control.playout_started(), None);
    assert!(control.clear_schedule(), "the running playout drops its schedule");
}

#[test]
fn gain_commands_target_the_current_stream_or_all() {
    let mut control = StreamControl::new();
    assert!(control.targets(STREAM_ID_ALL));
    assert!(!control.targets(1), "no stream yet");
    control.stream_acked(5);
    assert!(control.targets(5));
    assert!(!control.targets(6));
    assert!(control.targets(STREAM_ID_ALL));
}

#[test]
fn receiver_epoch_is_moved_onto_the_local_clock() {
    assert_eq!(receiver_local_epoch_us(10_000, 2_500), (7_500, 7_500));
    assert_eq!(receiver_local_epoch_us(10_000, -2_500), (12_500, 12_500));
    assert_eq!(receiver_local_epoch_us(1_000, 5_000), (-4_000, 0), "before the origin: 0");
    assert_eq!(receiver_local_epoch_us(u64::MAX, 0), (i64::MAX, i64::MAX as u64));
    assert_eq!(receiver_local_epoch_us(0, i64::MIN), (i64::MAX, i64::MAX as u64));
}

#[test]
fn schedule_frames_count_48_samples_per_ms() {
    assert_eq!(schedule_frame_samples(20), 960);
    assert_eq!(schedule_frame_samples(0), 48);
    assert_eq!(schedule_frame_samples(10), 480);
}
