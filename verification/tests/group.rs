use audiolink_engine::group::{
    node_id_lt, receiver_epoch, receiver_epoch_with, sorted_members, GroupError, GroupTable,
};

fn id(first: u8) -> [u8; 32] {
    let mut out = [0u8; 32];
    out[0] = first;
    out
}

#[test]
fn fingerprints_order_lexicographically() {
    let mut a = [7u8; 32];
    let mut b = [7u8; 32];
    assert!(!node_id_lt(&a, &b), "equal fingerprints are not ordered");
    b[31] = 8;
    assert!(node_id_lt(&a, &b));
    assert!(!node_id_lt(&b, &a));
    a[0] = 6;
    assert!(node_id_lt(&a, &b), "the first differing byte decides");
}

#[test]
fn member_list_is_sorted_and_deduplicated() {
    let list = sorted_members(&[id(3), id(1), id(3), id(2), id(1)]);
    assert_eq!(list, vec![id(1), id(2), id(3)]);
    assert!(sorted_members(&[]).is_empty());
}

#[test]
fn creating_a_group_without_members_is_refused() {
    let mut table = GroupTable::new();
    assert_eq!(table.create(&[], 120, 5_000).unwrap_err(), GroupError::NoMembers);
    assert!(table.snapshot().is_empty());
}

#[test]
fn group_ids_come_from_the_seeds_and_are_never_zero() {
    let mut table = GroupTable::new();
    let first = table.create_with(&[id(1)], 100, 7, 0x1_0000_0000, 0).unwrap();
    assert_eq!(first.group_id, 1, "low 32 bits are zero: 1 is used");
    assert_eq!(first.epoch_id, 1, "seed 0 becomes epoch 1");
    let second = table.create_with(&[id(1)], 100, 7, 0xFFFF_FFFF_0000_002A, 99).unwrap();
    assert_eq!(second.group_id, 42, "the low 32 bits name the group");
    assert_eq!(second.epoch_id, 99);
}

#[test]
fn create_announces_epoch_and_sorted_members() {
    let mut table = GroupTable::new();
    let created = table.create(&[id(9), id(4), id(9)], 150, 123_456).unwrap();
    assert!(created.group_id >= 1);
    assert!(created.epoch_id >= 1);
    assert_eq!(created.epoch_local_us, 123_456);
    assert_eq!(created.lead_ms, 150);
    assert_eq!(created.members, vec![id(4), id(9)]);

    let snap = table.snapshot();
    assert_eq!(snap.len(), 1);
    assert_eq!(snap[0].group_id, created.group_id);
    assert_eq!(snap[0].epoch_id, created.epoch_id);
    assert_eq!(snap[0].members, vec![id(4), id(9)]);
}

#[test]
fn a_new_group_with_an_existing_id_replaces_it() {
    let mut table = GroupTable::new();
    table.create_with(&[id(1), id(2)], 100, 10, 5, 50).unwrap();
    table.create_with(&[id(3)], 200, 20, 5, 60).unwrap();
    let snap = table.snapshot();
    assert_eq!(snap.len(), 1);
    assert_eq!(snap[0].epoch_id, 60);
    assert_eq!(snap[0].lead_ms, 200);
    assert_eq!(snap[0].members, vec![id(3)]);
}

#[test]
fn join_keeps_the_whole_epoch_and_counts_members() {
    let mut table = GroupTable::new();
    let created = table.create_with(&[id(5)], 120, 1_000_000, 77, 4242).unwrap();
    let joined = table.join(77, id(2)).unwrap();
    assert_eq!(joined.epoch.epoch_id, 4242);
    assert_eq!(joined.epoch.epoch_local_us, created.epoch_local_us, "sample 0 stays where it was");
    assert_eq!(joined.epoch.lead_ms, 120);
    assert_eq!(joined.lead_ms, 120);
    assert_eq!(joined.members, 2);
    assert_eq!(table.members_of(77).unwrap(), vec![id(2), id(5)]);

    let again = table.join(77, id(2)).unwrap();
    assert_eq!(again.members, 2, "joining twice is joining once");
}

#[test]
fn joining_or_leaving_an_unknown_group_is_refused() {
    let mut table = GroupTable::new();
    table.create_with(&[id(1)], 100, 0, 3, 3).unwrap();
    assert_eq!(table.join(4, id(2)).unwrap_err(), GroupError::UnknownGroup);
    assert_eq!(table.leave(4, id(1)).unwrap_err(), GroupError::UnknownGroup);
    assert_eq!(table.members_of(3).unwrap(), vec![id(1)]);
    assert!(table.members_of(4).is_none());
}

#[test]
fn leaving_keeps_the_others_and_the_last_leaver_forgets_the_group() {
    let mut table = GroupTable::new();
    table.create_with(&[id(1), id(2)], 100, 0, 8, 80).unwrap();
    let left = table.leave(8, id(1)).unwrap();
    assert_eq!(left.epoch_id, 80);
    assert_eq!(left.members, 1);
    assert_eq!(table.members_of(8).unwrap(), vec![id(2)]);

    let stranger = table.leave(8, id(9)).unwrap();
    assert_eq!(stranger.members, 1, "a non-member leaving changes nothing");

    let last = table.leave(8, id(2)).unwrap();
    assert_eq!(last.members, 0);
    assert!(table.members_of(8).is_none(), "an empty group is forgotten");
    assert!(table.snapshot().is_empty());
}

#[test]
fn join_then_leave_restores_the_group() {
    let mut table = GroupTable::new();
    table.create_with(&[id(4), id(6)], 90, 0, 12, 1).unwrap();
    table.join(12, id(5)).unwrap();
    table.leave(12, id(5)).unwrap();
    assert_eq!(table.members_of(12).unwrap(), vec![id(4), id(6)]);
}

#[test]
fn snapshot_lists_groups_by_ascending_id() {
    let mut table = GroupTable::new();
    table.create_with(&[id(1)], 100, 0, 30, 1).unwrap();
    table.create_with(&[id(2)], 100, 0, 10, 2).unwrap();
    table.create_with(&[id(3)], 100, 0, 20, 3).unwrap();
    let ids: Vec<u32> = table.snapshot().iter().map(|g| g.group_id).collect();
    assert_eq!(ids, vec![10, 20, 30]);
}

#[test]
fn receiver_epoch_starts_after_the_lead_and_needs_a_peer() {
    assert_eq!(receiver_epoch_with(0, 1_000, 100, 5).unwrap_err(), GroupError::NoPeers);
    let epoch = receiver_epoch_with(2, 1_000, 100, 0).unwrap();
    assert_eq!(epoch.epoch_id, 1);
    assert_eq!(epoch.epoch_local_us, 101_000);
    assert_eq!(epoch.lead_ms, 100);
    assert_eq!(receiver_epoch_with(1, u64::MAX - 5, 100, 9).unwrap().epoch_local_us, u64::MAX);

    let random = receiver_epoch(1, 50, 20).unwrap();
    assert!(random.epoch_id >= 1);
    assert_eq!(random.epoch_local_us, 20_050);
    assert_eq!(receiver_epoch(0, 50, 20).unwrap_err(), GroupError::NoPeers);
}

#[test]
fn snapshot_orders_many_groups_by_id() {
    let mut table = GroupTable::new();
    for seed in [40u64, 7, 1_000, 3, 512, 0] {
        table.create_with(&[id(seed as u8)], 100, 10, seed, seed + 1).unwrap();
    }
    let ids: Vec<u32> = table.snapshot().iter().map(|g| g.group_id).collect();
    assert_eq!(ids, vec![1, 3, 7, 40, 512, 1_000]);
    assert!(table.leave(7, id(7)).is_ok());
    let ids: Vec<u32> = table.snapshot().iter().map(|g| g.group_id).collect();
    assert_eq!(ids, vec![1, 3, 40, 512, 1_000]);
}
