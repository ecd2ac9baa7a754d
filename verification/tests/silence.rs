use audiolink_engine::silence::{SilenceSnapshot, SilenceTracker, MIN_SILENCE_MS};

const FRAME: u32 = 20;
const SILENT: bool = true;
const LOUD: bool = false;

#[test]
fn a_short_dip_is_not_a_segment() {
    let mut tracker = SilenceTracker::default();
    for _ in 0..5 {
        // 5 × 20 ms = 100 ms < 200 ms
        assert!(tracker.observe(SILENT, FRAME, true).is_none());
    }
    assert!(tracker.observe(LOUD, FRAME, false).is_none());
    assert_eq!(tracker.snapshot().segments, 0);
    assert_eq!(tracker.snapshot().longest_ms, 100, "a short run still counts into the longest");
}

#[test]
fn a_long_silence_run_is_reported_when_it_ends() {
    let mut tracker = SilenceTracker::default();
    for _ in 0..50 {
        assert!(tracker.observe(SILENT, FRAME, false).is_none(), "no report while the run goes on");
    }
    let segment = tracker.observe(LOUD, FRAME, false).expect("the end of the run is reported");
    assert_eq!(segment.duration_ms, 1_000);
    assert_eq!(segment.content_ms, 1_000);
    assert_eq!(segment.synthetic_ms, 0);
    assert_eq!(segment.start_ms, 0);
    assert_eq!(tracker.snapshot().segments, 1);
    assert_eq!(tracker.snapshot().current_ms, 0, "no running run after the end");
    assert_eq!(tracker.snapshot().longest_ms, 1_000);
}

#[test]
fn content_and_synthetic_silence_are_booked_apart() {
    let mut tracker = SilenceTracker::default();
    for _ in 0..10 {
        assert!(tracker.observe(SILENT, FRAME, true).is_none()); // 200 ms filled in
    }
    for _ in 0..10 {
        assert!(tracker.observe(SILENT, FRAME, false).is_none()); // 200 ms silent content
    }
    let segment = tracker.observe(LOUD, FRAME, false).unwrap();
    assert_eq!(segment.duration_ms, 400);
    assert_eq!(segment.synthetic_ms, 200);
    assert_eq!(segment.content_ms, 200);
}

#[test]
fn in_progress_silence_is_visible_in_the_snapshot() {
    let mut tracker = SilenceTracker::default();
    for _ in 0..150 {
        // 3 s
        tracker.observe(SILENT, FRAME, false);
    }
    let snapshot = tracker.snapshot();
    assert_eq!(snapshot.current_ms, 3_000);
    assert_eq!(snapshot.longest_ms, 3_000, "the running run counts into the longest");
    assert_eq!(snapshot.silent_ms, 3_000);
    assert_eq!(snapshot.planned_ms, 3_000);
    assert_eq!(snapshot.segments, 0, "not ended, not counted");
}

#[test]
fn several_runs_accumulate_into_the_longest_one() {
    let mut tracker = SilenceTracker::default();
    // run 1: 300 ms
    for _ in 0..15 {
        tracker.observe(SILENT, FRAME, false);
    }
    tracker.observe(LOUD, FRAME, false);
    // run 2: 600 ms (the longest)
    for _ in 0..30 {
        tracker.observe(SILENT, FRAME, false);
    }
    tracker.observe(LOUD, FRAME, false);
    // run 3: 260 ms
    for _ in 0..13 {
        tracker.observe(SILENT, FRAME, true);
    }
    tracker.finish().unwrap();

    let snapshot = tracker.snapshot();
    assert_eq!(snapshot.segments, 3);
    assert_eq!(snapshot.longest_ms, 600);
    assert_eq!(snapshot.silent_ms, 300 + 600 + 260);
    assert_eq!(snapshot.planned_ms, 15 * 20 + 20 + 30 * 20 + 20 + 13 * 20);
}

#[test]
fn finish_closes_an_open_run_for_the_ledger() {
    let mut tracker = SilenceTracker::default();
    for _ in 0..25 {
        tracker.observe(SILENT, FRAME, false);
    }
    let segment = tracker.finish().expect("closing books the running run");
    assert_eq!(segment.duration_ms, 500);
    assert!(tracker.finish().is_none(), "a second finish books nothing");
    assert_eq!(tracker.snapshot().segments, 1);
}

#[test]
fn reset_clears_every_field() {
    let mut tracker = SilenceTracker::default();
    for _ in 0..50 {
        tracker.observe(SILENT, FRAME, false);
    }
    tracker.observe(LOUD, FRAME, false);
    tracker.reset();
    let snapshot = tracker.snapshot();
    assert_eq!(snapshot.planned_ms, 0);
    assert_eq!(snapshot.silent_ms, 0);
    assert_eq!(snapshot.longest_ms, 0);
    assert_eq!(snapshot.current_ms, 0);
    assert_eq!(snapshot.segments, 0);
    assert_eq!(snapshot, SilenceSnapshot::default());
}

#[test]
fn absurd_inputs_saturate_instead_of_panicking() {
    let mut tracker = SilenceTracker::default();
    for _ in 0..1_000 {
        tracker.observe(SILENT, u32::MAX, false);
    }
    let snapshot = tracker.snapshot();
    assert_eq!(snapshot.planned_ms, u64::from(u32::MAX) * 1_000);
    assert!(snapshot.longest_ms >= snapshot.current_ms);
}

#[test]
fn the_segment_threshold_is_inclusive() {
    let mut tracker = SilenceTracker::new(MIN_SILENCE_MS);
    for _ in 0..10 {
        tracker.observe(SILENT, FRAME, false);
    }
    // exactly 200 ms: a segment
    assert_eq!(tracker.observe(LOUD, FRAME, false).map(|run| run.duration_ms), Some(200));
    for _ in 0..9 {
        tracker.observe(SILENT, FRAME, false);
    }
    // 180 ms: not a segment
    assert!(tracker.observe(LOUD, FRAME, false).is_none());
    assert_eq!(tracker.snapshot().segments, 1);
}

#[test]
fn runs_start_where_their_first_tick_starts() {
    let mut tracker = SilenceTracker::default();
    for _ in 0..3 {
        tracker.observe(LOUD, FRAME, false);
    }
    for _ in 0..12 {
        tracker.observe(SILENT, FRAME, true);
    }
    let segment = tracker.finish().unwrap();
    assert_eq!(segment.start_ms, 60);
    assert_eq!(segment.duration_ms, 240);
    assert_eq!(segment.synthetic_ms, 240);
}
