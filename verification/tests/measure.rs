use audiolink_engine::measure::{MeasurementTap, DEFAULT_CAPACITY};

const MS: u64 = 1_000;
/// An arbitrary monotonic instant (µs).
const BASE: u64 = 9_000_000;

#[test]
fn matched_pair_produces_the_real_delta() {
    let mut tap = MeasurementTap::default();
    assert_eq!(tap.record_sealed(1, BASE), None);
    assert_eq!(tap.record_played(1, BASE + 42 * MS), Some(42_000), "42 ms is 42000 µs");
    assert_eq!(tap.orphan_counts(), (0, 0));
}

#[test]
fn out_of_order_playback_still_pairs_up() {
    let mut tap = MeasurementTap::default();
    tap.record_sealed(6, BASE);
    tap.record_sealed(7, BASE + 20 * MS);

    assert_eq!(tap.record_played(7, BASE + 20 * MS + 30 * MS), Some(30_000));
    assert_eq!(tap.record_played(6, BASE + 60 * MS), Some(60_000));

    assert_eq!(tap.orphan_counts(), (0, 0), "both pair up");
}

#[test]
fn unpaired_playback_does_not_fabricate_a_number() {
    let mut tap = MeasurementTap::default();
    assert_eq!(tap.record_played(99, BASE), None, "no pair, no sample");
    assert_eq!(tap.orphan_counts().1, 1, "but the record stays for diagnosis");
}

#[test]
fn orphan_buffer_is_bounded_under_a_flood() {
    let mut tap = MeasurementTap::new(8);
    for seq in 0..1_000u32 {
        tap.record_sealed(seq, BASE);
    }
    let (orphan_sealed, _) = tap.orphan_counts();
    assert_eq!(orphan_sealed, 8, "the capacity holds");
    // The oldest were dropped: seq 0 no longer pairs, seq 999 does.
    assert_eq!(tap.record_played(0, BASE + MS), None);
    assert_eq!(tap.record_played(999, BASE + MS), Some(1_000));
}

#[test]
fn measure_reset_clears_everything_for_session_rebuild() {
    let mut tap = MeasurementTap::default();
    tap.record_sealed(1, BASE);
    tap.record_played(1, BASE + 10 * MS);
    tap.record_sealed(2, BASE);
    tap.record_played(3, BASE);

    tap.reset();

    assert_eq!(tap.orphan_counts(), (0, 0));
    assert_eq!(tap.record_played(2, BASE + MS), None, "the seal of 2 was forgotten");
}

#[test]
fn zero_length_ranges_are_not_reported_as_latency() {
    let mut tap = MeasurementTap::default();
    tap.record_sealed(1, BASE);
    assert_eq!(tap.record_played(1, BASE), Some(0), "0 µs is a valid sample");
}

#[test]
fn playback_before_seal_pairs_up_too() {
    let mut tap = MeasurementTap::new(DEFAULT_CAPACITY);
    assert_eq!(tap.record_played(5, BASE + 25 * MS), None);
    assert_eq!(tap.record_sealed(5, BASE), Some(25_000));
    assert_eq!(tap.orphan_counts(), (0, 0));
}

#[test]
fn inverted_pair_counts_zero() {
    let mut tap = MeasurementTap::default();
    tap.record_played(4, BASE);
    assert_eq!(tap.record_sealed(4, BASE + MS), Some(0));
}

#[test]
fn zero_capacity_keeps_one_record() {
    let mut tap = MeasurementTap::new(0);
    tap.record_sealed(1, BASE);
    tap.record_sealed(2, BASE);
    assert_eq!(tap.orphan_counts(), (1, 0));
}
