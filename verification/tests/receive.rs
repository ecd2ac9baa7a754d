use std::collections::VecDeque;

use audiolink_engine::receive::{
    concealed_seq, due_step, peek_seq, plan_receive, receive_report, DueStep, ReceiveReport, Supply,
    TIMELINE_REBUILD_FRAMES,
};

/// A playout tick against a queue: late frames are dropped and counted until a decision.
fn take_due_frame(
    queue: &mut VecDeque<u32>,
    pending: &mut Option<(u32, u32)>,
    expected: &mut Option<u32>,
    late_drops: &mut u32,
) -> Option<u32> {
    loop {
        // The queue is only asked when no frame is waiting.
        let supply = if pending.is_some() {
            Supply::Empty
        } else {
            match queue.pop_front() {
                Some(seq) => Supply::Frame(seq, seq),
                None => Supply::Empty,
            }
        };
        match due_step(expected, pending, supply) {
            DueStep::Ready(seq) => return Some(seq),
            DueStep::Missing => return None,
            DueStep::Disconnected => panic!("the queue never disconnects here"),
            DueStep::Late => *late_drops += 1,
        }
    }
}

#[test]
fn missing_tick_advances_cursor_and_late_frame_is_never_played() {
    let mut queue: VecDeque<u32> = VecDeque::from(vec![8, 7, 9]);
    let mut pending = None;
    let mut expected = Some(7);
    let mut late_drops = 0;

    assert_eq!(take_due_frame(&mut queue, &mut pending, &mut expected, &mut late_drops), None);
    assert_eq!(expected, Some(8));
    assert_eq!(take_due_frame(&mut queue, &mut pending, &mut expected, &mut late_drops), Some(8));
    assert_eq!(take_due_frame(&mut queue, &mut pending, &mut expected, &mut late_drops), Some(9));
    assert_eq!(expected, Some(10));
    assert_eq!(late_drops, 1);
}

#[test]
fn sequence_cursor_and_stale_detection_cross_u32_wrap() {
    let mut queue: VecDeque<u32> = VecDeque::from(vec![u32::MAX, 0, u32::MAX, 1]);
    let mut pending = None;
    let mut expected = Some(u32::MAX);
    let mut late_drops = 0;

    for wanted in [u32::MAX, 0, 1] {
        assert_eq!(take_due_frame(&mut queue, &mut pending, &mut expected, &mut late_drops), Some(wanted));
    }
    assert_eq!(expected, Some(2));
    assert_eq!(late_drops, 1);
}

#[test]
fn empty_queue_without_cursor_keeps_no_cursor() {
    let mut pending: Option<(u32, u32)> = None;
    let mut expected = None;
    assert!(matches!(due_step(&mut expected, &mut pending, Supply::Empty), DueStep::Missing));
    assert_eq!(expected, None);
    assert!(matches!(due_step(&mut expected, &mut pending, Supply::Frame(41, 41)), DueStep::Ready(41)));
    assert_eq!(expected, Some(42));
    assert!(matches!(due_step(&mut expected, &mut pending, Supply::Disconnected), DueStep::Disconnected));
    assert_eq!(expected, Some(42));
}

#[test]
fn first_packet_sets_the_cursor() {
    let plan = plan_receive(None, 100, 6);
    assert!(!plan.stale && !plan.rebuild);
    assert_eq!((plan.gap, plan.conceal_frames), (0, 0));
    assert_eq!(plan.next_expected, Some(101));
    assert_eq!(receive_report(plan, 0, false), ReceiveReport { expected: 1, lost: 0, plc: 0, late_drops: 0 });
}

#[test]
fn gap_is_concealed_up_to_the_fade() {
    let plan = plan_receive(Some(10), 14, 6);
    assert_eq!(plan.gap, 4);
    assert_eq!(plan.conceal_frames, 4);
    assert!(!plan.reset_decoder_after_conceal);
    assert_eq!(concealed_seq(14, 4, 0), 10);
    assert_eq!(concealed_seq(14, 4, 3), 13);
    assert_eq!(receive_report(plan, 1, true), ReceiveReport { expected: 5, lost: 4, plc: 5, late_drops: 1 });

    let long = plan_receive(Some(10), 30, 6);
    assert_eq!(long.gap, 20);
    assert_eq!(long.conceal_frames, 6);
    assert!(long.reset_decoder_after_conceal, "the rest of the gap is left to the playout cursor");
}

#[test]
fn packet_behind_the_cursor_is_a_late_drop() {
    let plan = plan_receive(Some(10), 9, 6);
    assert!(plan.stale);
    assert_eq!(plan.next_expected, Some(10), "the cursor does not move back");
    assert_eq!(receive_report(plan, 0, false), ReceiveReport { expected: 0, lost: 0, plc: 0, late_drops: 1 });
}

#[test]
fn huge_jump_rebuilds_the_timeline() {
    let plan = plan_receive(Some(10), 10 + TIMELINE_REBUILD_FRAMES, 6);
    assert!(plan.rebuild);
    assert_eq!(plan.gap, 0);
    assert_eq!(plan.next_expected, Some(11 + TIMELINE_REBUILD_FRAMES));
    let just_below = plan_receive(Some(10), 10 + TIMELINE_REBUILD_FRAMES - 1, 6);
    assert!(!just_below.rebuild);
    assert_eq!(just_below.gap, TIMELINE_REBUILD_FRAMES - 1);
}

#[test]
fn concealment_wraps_around_the_sequence_circle() {
    let plan = plan_receive(Some(u32::MAX - 1), 1, 6);
    assert_eq!(plan.gap, 3);
    assert_eq!(concealed_seq(1, 3, 0), u32::MAX - 1);
    assert_eq!(concealed_seq(1, 3, 2), 0);
    assert_eq!(plan.next_expected, Some(2));
}

#[test]
fn peek_frame_does_not_consume_the_frame() {
    let mut queue: VecDeque<(u32, u64)> = VecDeque::new();
    queue.push_back((3, 333));
    let mut pending: Option<(u32, u64)> = None;

    // The queue is read only while nothing waits.
    let supply = |queue: &mut VecDeque<(u32, u64)>, pending: &Option<(u32, u64)>| match pending {
        Some(_) => Supply::Empty,
        None => match queue.pop_front() {
            Some((seq, frame)) => Supply::Frame(seq, frame),
            None => Supply::Empty,
        },
    };

    let offered = supply(&mut queue, &pending);
    assert_eq!(peek_seq(&mut pending, offered), Some(3));
    // A second peek shows the same frame (it waits in `pending`) and reads nothing more.
    let offered = supply(&mut queue, &pending);
    assert_eq!(peek_seq(&mut pending, offered), Some(3));
    assert!(queue.is_empty());
    assert_eq!(pending, Some((3, 333)));
}
