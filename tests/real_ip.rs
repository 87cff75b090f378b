use ipv6_canvas::per_user_pps::{ensure_existing_activity_updated_and_migrated, MyUserId, PpsUsers};
use ipv6_canvas::real_ip::{first_forwarded_for, real_ip_source, RealIpSource};

#[test]
fn headers_count_only_from_trusted_peers() {
    assert_eq!(real_ip_source(false, true, true), RealIpSource::Peer);
    assert_eq!(real_ip_source(true, true, true), RealIpSource::ForwardedFor);
    assert_eq!(real_ip_source(true, false, true), RealIpSource::RealIp);
    assert_eq!(real_ip_source(true, false, false), RealIpSource::Peer);
}

#[test]
fn first_forwarded_address_drops_spaces() {
    assert_eq!(first_forwarded_for(b" 2001:db8::1 , 10.0.0.1, 10.0.0.2"), b"2001:db8::1".to_vec());
    assert_eq!(first_forwarded_for(b"2001:db8::2"), b"2001:db8::2".to_vec());
    assert_eq!(first_forwarded_for(b", 1.2.3.4"), Vec::<u8>::new());
    assert_eq!(first_forwarded_for(b""), Vec::<u8>::new());
}

#[test]
fn my_user_id_answers() {
    let mut users = PpsUsers::new();
    let known = [0x2001, 0xdb8, 1, 2, 0, 0, 0, 9];
    let stranger = [0x2001, 0xdb8, 7, 7, 0, 0, 0, 9];
    ensure_existing_activity_updated_and_migrated(&mut users.users, &mut users.next_user_id, 0, known);
    assert_eq!(users.my_user_id(None), MyUserId::NotIpv6);
    assert_eq!(users.my_user_id(Some(known)), MyUserId::Found { ip: known, user_id: 1 });
    assert_eq!(users.my_user_id(Some(stranger)), MyUserId::Unknown { ip: stranger });
}
