use audiolink_engine::epoch::{EpochSchedule, PlayoutAction};
use audiolink_engine::payload::{negotiated_frame_ms, CodecPref, SourceKind};
use audiolink_engine::playout::{
    pack_rx_axis, NO_AXIS, playout_start_anchor, quic_ms, schedule_action_at, HubClock, PeerCapabilities, PlayoutSync, StreamAxis,
};

#[test]
fn negotiated_frame_ms_picks_the_first_opus_pref_or_falls_back() {
    let local = 20u32;
    let opus = |frame_ms: u8| CodecPref::Opus { frame_ms, bitrate_kbps: 160, fec: false, vbr: true };
    for wanted in [10u8, 20, 40, 60] {
        assert_eq!(negotiated_frame_ms(&[opus(wanted)], local), u32::from(wanted));
    }
    assert_eq!(negotiated_frame_ms(&[opus(10), opus(20)], local), 10);
    assert_eq!(negotiated_frame_ms(&[CodecPref::Pcm16, opus(40)], local), 40);
    assert_eq!(negotiated_frame_ms(&[CodecPref::Pcm16], local), local);
    assert_eq!(negotiated_frame_ms(&[], local), local);
    assert_eq!(negotiated_frame_ms(&[opus(15)], local), local);
    assert_eq!(negotiated_frame_ms(&[opus(15), opus(10)], local), local);
    assert_eq!(negotiated_frame_ms(&[opus(0)], local), local);
}

#[test]
fn epoch_schedule_maps_sequence_numbers_to_sample_indices() {
    let sync = PlayoutSync { schedule: None, offset_us: 0, frame_samples: 960, base: Some((50, 4_800_000)) };
    assert_eq!(sync.sample_index_of(50), Some(4_800_000));
    assert_eq!(sync.sample_index_of(51), Some(4_800_960));
    assert_eq!(sync.sample_index_of(49), Some(4_799_040));
    assert_eq!(PlayoutSync::default().sample_index_of(1), None);
}

#[test]
fn epoch_schedule_gates_playout_by_the_target_time() {
    let mut sync = PlayoutSync { schedule: None, offset_us: 0, frame_samples: 960, base: Some((0, 0)) };
    let now: i64 = 123_456_789;
    assert!(schedule_action_at(&sync, Some(0), now).is_none());
    let anchor = (now as u64) + 10_000_000;

    sync.offset_us = 0;
    sync.schedule = Some(EpochSchedule::new(11, anchor + 5_000_000, 0));
    match schedule_action_at(&sync, Some(0), now) {
        Some((PlayoutAction::Wait { wait_us }, 0)) => assert!(wait_us > 4_000_000, "wait = {wait_us}"),
        other => panic!("expected Wait, got {other:?}"),
    }

    sync.offset_us = 10_000_000;
    sync.schedule = Some(EpochSchedule::new(11, anchor, 0));
    assert!(matches!(schedule_action_at(&sync, Some(0), now), Some((PlayoutAction::Play, 0))));

    sync.offset_us = 15_000_000;
    match schedule_action_at(&sync, Some(0), now) {
        Some((PlayoutAction::Drop { late_us }, _)) => assert!(late_us > 4_000_000, "late = {late_us}"),
        other => panic!("expected Drop, got {other:?}"),
    }
    assert!(schedule_action_at(&sync, None, now).is_none());
}

#[test]
fn hub_clock_hands_out_one_timeline_to_every_session() {
    let mut clock = HubClock::default();
    assert_eq!(clock.next(960, 1_000_000), Some((0, 0)));
    assert_eq!(clock.next(960, 1_010_000), Some((1, 960)));
    assert_eq!(clock.next(960, 1_020_000), Some((2, 1_920)));
    let mut wrapped = HubClock { seq: u32::MAX, sample_index: u32::MAX - 100, start_at_us: None };
    assert_eq!(wrapped.next(960, 1_000_000), Some((u32::MAX, u32::MAX - 100)));
    assert_eq!(wrapped.next(960, 1_010_000), Some((0, 859)));
}

#[test]
fn hub_clock_aligns_sample_index_to_a_common_start() {
    let mut clock = HubClock::default();
    assert_eq!(clock.next(960, 1_000_000), Some((0, 0)));
    assert_eq!(clock.next(960, 1_010_000), Some((1, 960)));
    clock.align_epoch(2_000_000);
    assert_eq!(clock.next(960, 1_999_999), None);
    assert_eq!(clock.next(960, 2_000_000), Some((2, 0)));
    assert_eq!(clock.next(960, 2_020_000), Some((3, 960)));
}

#[test]
fn realigning_moves_the_zero_point_without_touching_seq() {
    let mut clock = HubClock::default();
    assert_eq!(clock.next(480, 100), Some((0, 0)));
    clock.align_epoch(500);
    assert_eq!(clock.next(480, 500), Some((1, 0)));
    clock.align_epoch(900);
    assert_eq!(clock.next(480, 900), Some((2, 0)));
    assert_eq!(clock.next(480, 1_400), Some((3, 480)));
}

#[test]
fn playout_anchor_is_the_first_frame_target() {
    let mut sync = PlayoutSync { schedule: None, offset_us: 0, frame_samples: 960, base: None };
    assert_eq!(playout_start_anchor(&sync), (0, 0));
    sync.schedule = Some(EpochSchedule::new(1, 1_010_000, 0));
    assert_eq!(playout_start_anchor(&sync), (0, 0));
    sync.base = Some((7, 960));
    assert_eq!(playout_start_anchor(&sync), (1_030_000, 20_000));
}

#[test]
fn missing_capabilities_are_the_local_bits_the_peer_lacks() {
    let caps = PeerCapabilities { local: 0b1011, peer: 0b0011, agreed: 0b0011 };
    assert_eq!(caps.missing_on_peer(), 0b1000);
}

#[test]
fn stream_axis_projects_the_sample_index() {
    let axis = StreamAxis { peer: [1; 32], sample_index: Some(1_000), at_ms: 100 };
    assert_eq!(axis.index_at(110), Some(1_480));
    assert_eq!(axis.index_at(50), Some(1_000));
    let silent = StreamAxis { peer: [1; 32], sample_index: None, at_ms: 0 };
    assert_eq!(silent.index_at(10), None);
}

#[test]
fn quic_fields_are_milliseconds_saturating() {
    assert_eq!(quic_ms(30_000_000), 30_000);
    assert_eq!(quic_ms(999), 0);
    assert_eq!(quic_ms(u64::MAX), u32::MAX);
}

#[test]
fn source_kinds_keep_their_wire_values() {
    assert_eq!(SourceKind::SystemLoopback.as_u8(), 0);
    assert_eq!(SourceKind::Microphone.as_u8(), 1);
    assert_eq!(SourceKind::PlaybackCapture.as_u8(), 2);
    assert_eq!(SourceKind::Other(9).as_u8(), 9);
}

#[test]
fn arrival_register_reads_back_what_was_written() {
    let packed = pack_rx_axis(123_456_789, 48_000);
    assert_eq!(packed, (123_456u64 << 32) | 48_000);
    let axis = StreamAxis::from_packed([3; 32], packed);
    assert_eq!(axis.peer, [3; 32]);
    assert_eq!(axis.sample_index, Some(48_000));
    assert_eq!(axis.at_ms, 123_456);

    let empty = StreamAxis::from_packed([3; 32], NO_AXIS);
    assert_eq!(empty.sample_index, None, "no frame yet");

    let late = pack_rx_axis(u64::MAX, 7);
    assert_eq!(StreamAxis::from_packed([0; 32], late).at_ms, u32::MAX, "ms saturate");
}
