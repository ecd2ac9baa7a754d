use audiolink_engine::gain::GainState;
use audiolink_engine::stream::{
    gap_level_x1000, mixer_slot_plan, stream_flags, with_copy, AudioCopy, MixerSlotPlan,
    StreamRxState,
};

#[test]
fn ten_ms_profile_sets_frame_flag_on_every_audio_copy() {
    let tight = stream_flags(10);
    let standard = stream_flags(20);
    assert!(tight.frame_10ms);
    assert!(!standard.frame_10ms);

    // Primary, redundant copy and NACK retransmission (which uses the stream flags).
    let primary = with_copy(tight, AudioCopy::Primary);
    let redundant = with_copy(tight, AudioCopy::Redundant);
    let retransmit = tight;
    for flags in [primary, redundant, retransmit] {
        assert!(flags.frame_10ms, "every copy of a 10 ms stream carries the bit");
    }
    assert!(redundant.fec_redundant, "the copy keeps its own bit");
    assert!(!primary.fec_redundant);

    for flags in [
        with_copy(standard, AudioCopy::Primary),
        with_copy(standard, AudioCopy::Redundant),
        standard,
    ] {
        assert!(!flags.frame_10ms, "no copy of a 20 ms stream carries the bit");
    }
}

#[test]
fn frame_flag_mismatch_is_counted_but_never_fatal() {
    let mut tight = StreamRxState::new(10);
    let mut standard = StreamRxState::new(20);

    assert!(tight.observe_frame_flag(stream_flags(10)));
    assert_eq!(tight.flag_mismatches, 0);
    assert!(!tight.observe_frame_flag(stream_flags(20)));
    assert_eq!(tight.flag_mismatches, 1, "a mismatch leaves a trace");
    let _ = tight.observe_frame_flag(stream_flags(20));
    let _ = tight.observe_frame_flag(stream_flags(20));
    assert_eq!(tight.flag_mismatches, 3);

    assert!(standard.observe_frame_flag(stream_flags(20)));
    assert_eq!(standard.flag_mismatches, 0);
    assert!(!standard.observe_frame_flag(stream_flags(10)));
    assert_eq!(standard.flag_mismatches, 1);

    // The redundant bit does not disturb the frame-length check.
    assert!(standard.observe_frame_flag(with_copy(stream_flags(20), AudioCopy::Redundant)));
    assert_eq!(standard.flag_mismatches, 1);
}

#[test]
fn retarget_rebuilds_every_frame_ms_derived_value() {
    let mut state = StreamRxState::new(20);
    assert_eq!(state.frame_ms, 20);
    assert_eq!(state.frame_us, 20_000);
    assert_eq!(state.frame_period_us, 20_000);

    assert!(state.retarget(10));
    assert_eq!(state.frame_ms, 10);
    assert_eq!(state.frame_us, 10_000, "the jitter controller's unit follows");
    assert_eq!(state.frame_period_us, 10_000);

    assert!(!state.retarget(10), "the same length again rebuilds nothing");
    assert_eq!(state.frame_ms, 10);

    assert!(state.retarget(20));
    assert_eq!(state.frame_ms, 20);
    assert_eq!(state.frame_us, 20_000);
    assert_eq!(state.frame_period_us, 20_000);
}

#[test]
fn idle_mixer_rebuilds_when_stream_frame_length_changes() {
    // No mixer yet: build one for 480-sample frames.
    assert_eq!(mixer_slot_plan(None, 480), MixerSlotPlan::Build);
    // It has a source: a 960-sample stream cannot share it.
    assert_eq!(mixer_slot_plan(Some((480, 1)), 960), MixerSlotPlan::Busy);
    assert_eq!(mixer_slot_plan(Some((480, 1)), 480), MixerSlotPlan::Reuse);
    // The source left: the idle mixer is rebuilt for the new length, and back again.
    assert_eq!(mixer_slot_plan(Some((480, 0)), 960), MixerSlotPlan::Build);
    assert_eq!(mixer_slot_plan(Some((960, 0)), 480), MixerSlotPlan::Build);
}

#[test]
fn prolonged_wifi_gap_fades_out_instead_of_looping_old_audio() {
    // One real frame, then nine ticks without data; 120 ms fade with 20 ms frames.
    let mut levels = vec![1_000u64];
    for missed in 0..9 {
        levels.push(gap_level_x1000(missed, 120, 20, 1_000));
    }
    assert!(levels[1] > 100, "a short gap is concealed first: {levels:?}");
    assert!(levels.windows(2).all(|pair| pair[1] <= pair[0]), "the gap fades out: {levels:?}");
    assert!(levels[7..].iter().all(|level| *level == 0), "after 120 ms old audio is not repeated: {levels:?}");
}

#[test]
fn muting_during_wifi_gap_also_mutes_concealed_audio() {
    let mut gain = GainState::new(1_000);
    let mut levels = vec![1_000u64];
    for missed in 0..3u32 {
        if missed == 1 {
            gain.set_target(0, 0, 20).unwrap();
        }
        let g = gain.next_frame_gain_x1000();
        levels.push(gap_level_x1000(missed, 120, 20, g));
    }
    assert!(levels[1] > 100, "concealment before the mute");
    assert!(levels[2..].iter().all(|level| *level == 0), "the mute reaches concealed audio: {levels:?}");
}

#[test]
fn gap_level_edges() {
    assert_eq!(gap_level_x1000(0, 120, 20, 1_000), 1_000);
    assert_eq!(gap_level_x1000(3, 120, 20, 1_000), 500);
    assert_eq!(gap_level_x1000(6, 120, 20, 1_000), 0);
    assert_eq!(gap_level_x1000(0, 120, 20, 500), 500);
    assert_eq!(gap_level_x1000(0, 0, 20, 1_000), 0, "no fade: silence at once");
    assert_eq!(gap_level_x1000(1, 25, 0, 1_000), 960, "0 ms frames count as 1 ms");
}
