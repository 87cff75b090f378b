use fxhash::FxHashMap;
use ipv6_canvas::per_user_pps::{
    cleanup, ensure_existing_activity_updated_and_migrated, find_user_info_data,
    find_user_info_data_mut, get_all_pps_counters_and_reset, is_disabled, PpsPublicUser,
    PpsPrivateUser48, PpsPrivateUser64, PpsUserInfo, PpsUsers,
};

fn ip(s: [u16; 8]) -> [u16; 8] {
    s
}

fn count_packet(users: &mut FxHashMap<u64, PpsUserInfo>, source: [u16; 8]) -> bool {
    match find_user_info_data_mut(users, source) {
        Some(data) => {
            data.pps_counter += 1;
            true
        }
        None => false,
    }
}

#[test]
fn prefix_keys_pack_segments() {
    let a = ip([0x2001, 0x0db8, 0x0001, 0x0002, 9, 9, 9, 9]);
    assert_eq!(PpsPrivateUser48::from_addr(a).key(), 0x2001_0db8_0001);
    assert_eq!(PpsPrivateUser64::from_addr(a).key(), 0x2001_0db8_0001_0002);
}

#[test]
fn new_sources_get_increasing_ids() {
    let mut t = PpsUsers::new();
    let a = ip([1, 2, 3, 4, 0, 0, 0, 1]);
    let b = ip([1, 2, 3, 5, 0, 0, 0, 1]);
    let c = ip([1, 2, 4, 4, 0, 0, 0, 1]);
    for (n, x) in [a, b, c].iter().enumerate() {
        ensure_existing_activity_updated_and_migrated(&mut t.users, &mut t.next_user_id, 100, *x);
        assert_eq!(t.user_id_of(*x), Some(n as u64 + 1));
    }
    assert_eq!(t.next_user_id, PpsPublicUser { id: 4 });
    ensure_existing_activity_updated_and_migrated(&mut t.users, &mut t.next_user_id, 200, a);
    assert_eq!(t.next_user_id.id, 4);
    assert_eq!(find_user_info_data(&t.users, a).unwrap().last_seen, 200);
    assert_eq!(find_user_info_data(&t.users, a).unwrap().get_user_id().id, 1);
    assert_eq!(t.users.len(), 2);
}

#[test]
fn collapse_keeps_smallest_user_id() {
    let mut t = PpsUsers::new();
    t.next_user_id = PpsPublicUser { id: 50 };
    for i in 0..1024u16 {
        let x = ip([7, 7, 7, 1023 - i, 0, 0, 0, 1]);
        ensure_existing_activity_updated_and_migrated(&mut t.users, &mut t.next_user_id, 10, x);
    }
    assert_eq!(t.next_user_id.id, 50 + 1024);
    let first = ip([7, 7, 7, 1023, 0, 0, 0, 1]);
    count_packet(&mut t.users, first);
    let newcomer = ip([7, 7, 7, 5000, 0, 0, 0, 1]);
    ensure_existing_activity_updated_and_migrated(&mut t.users, &mut t.next_user_id, 20, newcomer);
    assert_eq!(t.next_user_id.id, 50 + 1024);
    match t.users.get(&PpsPrivateUser48::from_addr(newcomer).key()) {
        Some(PpsUserInfo::User48 { data }) => {
            assert_eq!(data.get_user_id().id, 50);
            assert_eq!(data.pps_counter, 0);
            assert_eq!(data.last_seen, 20);
        }
        _ => panic!("entry should have collapsed"),
    }
    assert_eq!(t.user_id_of(ip([7, 7, 7, 9999, 1, 1, 1, 1])), Some(50));
    ensure_existing_activity_updated_and_migrated(&mut t.users, &mut t.next_user_id, 30, newcomer);
    assert!(matches!(t.users.get(&PpsPrivateUser48::from_addr(newcomer).key()), Some(PpsUserInfo::User48 { .. })));
}

#[test]
fn overflow_clears_table_and_disables_for_30_seconds() {
    let mut t = PpsUsers::new();
    for i in 0..1024u16 {
        ensure_existing_activity_updated_and_migrated(&mut t.users, &mut t.next_user_id, 0, ip([1, 1, i, 0, 0, 0, 0, 0]));
    }
    assert_eq!(t.users.len(), 1024);
    let next = t.next_user_id;
    ensure_existing_activity_updated_and_migrated(&mut t.users, &mut t.next_user_id, 0, ip([2, 2, 2, 0, 0, 0, 0, 0]));
    assert_eq!(t.users.len(), 1024);
    assert_eq!(t.next_user_id, next);
    let now = 5_000_000u64;
    assert!(is_disabled(&mut t.users, &mut t.disabled_until, now));
    assert_eq!(t.users.len(), 0);
    assert_eq!(t.disabled_until, Some(now + 30_000_000));
    assert!(is_disabled(&mut t.users, &mut t.disabled_until, now + 29_999_999));
    assert_eq!(t.disabled_until, Some(now + 30_000_000));
    assert!(!is_disabled(&mut t.users, &mut t.disabled_until, now + 30_000_000));
    assert_eq!(t.disabled_until, None);
    assert!(!is_disabled(&mut t.users, &mut t.disabled_until, now + 30_000_001));
}

#[test]
fn cleanup_removes_idle_entries() {
    let mut t = PpsUsers::new();
    let old48 = ip([1, 1, 1, 1, 0, 0, 0, 0]);
    let fresh64 = ip([2, 2, 2, 1, 0, 0, 0, 0]);
    let stale64 = ip([2, 2, 2, 2, 0, 0, 0, 0]);
    ensure_existing_activity_updated_and_migrated(&mut t.users, &mut t.next_user_id, 0, old48);
    ensure_existing_activity_updated_and_migrated(&mut t.users, &mut t.next_user_id, 0, stale64);
    ensure_existing_activity_updated_and_migrated(&mut t.users, &mut t.next_user_id, 1_000_000, fresh64);
    cleanup(&mut t.users, 3_600_000_000);
    assert_eq!(find_user_info_data(&t.users, old48), None);
    assert_eq!(find_user_info_data(&t.users, stale64), None);
    assert!(find_user_info_data(&t.users, fresh64).is_some());
    cleanup(&mut t.users, 3_601_000_000);
    assert_eq!(t.users.len(), 0);
}

#[test]
fn counters_are_drained_by_public_id() {
    let mut t = PpsUsers::new();
    let a = ip([1, 2, 3, 4, 0, 0, 0, 1]);
    let b = ip([9, 9, 9, 9, 0, 0, 0, 1]);
    let unknown = ip([5, 5, 5, 5, 0, 0, 0, 0]);
    ensure_existing_activity_updated_and_migrated(&mut t.users, &mut t.next_user_id, 0, a);
    ensure_existing_activity_updated_and_migrated(&mut t.users, &mut t.next_user_id, 0, b);
    for _ in 0..3 {
        assert!(count_packet(&mut t.users, a));
    }
    assert!(count_packet(&mut t.users, b));
    assert!(!count_packet(&mut t.users, unknown));
    let counts: FxHashMap<u64, usize> = get_all_pps_counters_and_reset(&mut t.users);
    assert_eq!(counts.len(), 2);
    assert_eq!(counts[&1], 3);
    assert_eq!(counts[&2], 1);
    assert_eq!(find_user_info_data(&t.users, a).unwrap().pps_counter, 0);
    let again = get_all_pps_counters_and_reset(&mut t.users);
    assert_eq!(again[&1], 0);
}
