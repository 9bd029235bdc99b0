use connectalso::addr::Ipv4Addr;
use connectalso::registry::candidates::{CandidateRow, CandidateTable};
use connectalso::registry::control::{
    backup_path, cidr_parts, parse_cidr, CidrError, RegisterError,
};
use connectalso::registry::device::{DeviceRecord, DeviceRow, DeviceStatus};
use connectalso::registry::order::ordered;
use connectalso::registry::pool::{IpPool, IpPoolRow};
use connectalso::registry::rules::{AclRuleRow, AclTable};
use connectalso::registry::tables::{Registry, RegistryError};
use connectalso::relay_proto::PeerId;

const BASE: u32 = 0x6440_0000;

fn id(bits: u128) -> PeerId {
    PeerId { bits }
}

fn ip(last: u8) -> Ipv4Addr {
    Ipv4Addr::new(100, 64, 0, last)
}

fn record(n: u8, status: DeviceStatus, at: i64) -> DeviceRecord {
    DeviceRecord {
        device_id: id(n as u128),
        public_key: [n; 32],
        hostname: format!("host{n}"),
        ipv4: ip(n),
        status,
        created_at: at,
        last_seen: at,
    }
}

fn with_devices(devices: &[(u8, DeviceStatus, i64)]) -> Registry {
    let mut r = Registry::new();
    for (n, status, at) in devices {
        r.insert_device(&record(*n, *status, *at)).unwrap();
        r.pool.rows.push(IpPoolRow { ipv4: ip(*n).to_string(), allocated: 1 });
    }
    assert!(r.is_well_formed());
    r
}

fn pool_addresses(r: &Registry) -> Vec<String> {
    r.pool.rows.iter().map(|e| e.ipv4.clone()).collect()
}

fn ids(list: &[DeviceRecord]) -> Vec<u128> {
    list.iter().map(|d| d.device_id.bits).collect()
}

#[test]
fn statuses_are_stored_as_numbers() {
    assert_eq!(DeviceStatus::from_i32(0), DeviceStatus::Pending);
    assert_eq!(DeviceStatus::from_i32(1), DeviceStatus::Approved);
    assert_eq!(DeviceStatus::from_i32(-1), DeviceStatus::Revoked);
    assert_eq!(DeviceStatus::from_i32(7), DeviceStatus::Pending);
    for s in [DeviceStatus::Pending, DeviceStatus::Approved, DeviceStatus::Revoked] {
        assert_eq!(DeviceStatus::from_i32(s.to_i32()), s);
    }
    assert_eq!(DeviceStatus::Revoked.label(), "revoked");
    assert_eq!(DeviceStatus::Pending.label(), "pending");
    assert_eq!(DeviceStatus::Approved.label(), "approved");
}

#[test]
fn records_are_read_back_as_stored() {
    let stored = record(9, DeviceStatus::Approved, 77);
    let row = stored.to_row();
    assert_eq!(row.device_id, "00000000-0000-0000-0000-000000000009");
    assert_eq!((row.ipv4.as_str(), row.status), ("100.64.0.9", 1));
    let read = DeviceRecord::from_row(&row);
    assert_eq!(read.device_id, stored.device_id);
    assert_eq!(read.public_key, stored.public_key);
    assert_eq!(read.hostname, stored.hostname);
    assert_eq!(read.ipv4, stored.ipv4);
    assert_eq!(read.status, stored.status);
    assert_eq!((read.created_at, read.last_seen), (77, 77));
}

#[test]
fn unreadable_fields_have_stand_ins() {
    let row = DeviceRow {
        device_id: "?".to_string(),
        public_key: vec![5; 33],
        hostname: "h".to_string(),
        ipv4: String::new(),
        status: 3,
        created_at: 1,
        last_seen: 2,
    };
    let read = DeviceRecord::from_row(&row);
    assert_eq!(read.device_id, PeerId::nil());
    assert_eq!(read.ipv4, Ipv4Addr::unspecified());
    assert_eq!(read.public_key, [5; 32]);
    assert_eq!(read.status, DeviceStatus::Pending);
}

#[test]
fn devices_are_found_by_key_and_identifier() {
    let r = with_devices(&[(1, DeviceStatus::Pending, 10), (2, DeviceStatus::Approved, 20)]);
    assert_eq!(r.find_by_public_key(&[2; 32]).unwrap().device_id, id(2));
    assert!(r.find_by_public_key(&[3; 32]).is_none());
    assert_eq!(r.find_by_id(id(1)).unwrap().hostname, "host1");
    assert!(r.find_by_id(id(3)).is_none());
}

#[test]
fn duplicates_are_refused() {
    let mut r = with_devices(&[(1, DeviceStatus::Pending, 10)]);
    let mut same_id = record(2, DeviceStatus::Pending, 0);
    same_id.device_id = id(1);
    let mut same_key = record(2, DeviceStatus::Pending, 0);
    same_key.public_key = [1; 32];
    let mut same_ip = record(2, DeviceStatus::Pending, 0);
    same_ip.ipv4 = ip(1);
    for dup in [same_id, same_key, same_ip] {
        assert_eq!(r.insert_device(&dup), Err(RegistryError::Duplicate));
    }
    assert_eq!(r.devices.len(), 1);
    assert_eq!(r.insert_device(&record(2, DeviceStatus::Pending, 0)), Ok(()));
    assert!(r.is_well_formed());
}

#[test]
fn heartbeats_touch_one_device() {
    let mut r = with_devices(&[(1, DeviceStatus::Pending, 10), (2, DeviceStatus::Approved, 20)]);
    assert!(r.heartbeat(id(2), 99));
    assert!(!r.heartbeat(id(3), 99));
    assert_eq!((r.devices[0].last_seen, r.devices[1].last_seen), (10, 99));
    assert_eq!(r.devices[1].created_at, 20);
}

#[test]
fn devices_are_approved_once() {
    let mut r = with_devices(&[(1, DeviceStatus::Pending, 10)]);
    assert!(r.list_approved().is_empty());
    assert_eq!(ids(&r.list_pending()), [1]);
    assert!(r.approve_device(id(1)));
    assert!(!r.approve_device(id(1)));
    assert!(!r.approve_device(id(2)));
    assert_eq!(ids(&r.list_approved()), [1]);
    assert!(r.list_pending().is_empty());
}

#[test]
fn revoking_keeps_the_record_and_frees_the_address() {
    let mut r = with_devices(&[(1, DeviceStatus::Approved, 10), (2, DeviceStatus::Approved, 20)]);
    assert_eq!(r.revoke_device(id(1)), Ok(true));
    assert_eq!((r.devices[0].status, r.devices[0].ipv4.as_str()), (-1, ""));
    assert_eq!(pool_addresses(&r), ["100.64.0.2"]);
    assert_eq!(r.revoke_device(id(1)), Ok(false));
    assert_eq!(r.revoke_device(id(7)), Ok(false));
    // Any number of devices can be without an address.
    assert_eq!(r.revoke_device(id(2)), Ok(true));
    assert_eq!((r.devices[1].status, r.devices[1].ipv4.as_str()), (-1, ""));
    assert!(pool_addresses(&r).is_empty());
    assert!(r.is_well_formed());
    assert_eq!(r.devices.len(), 2);
}

#[test]
fn a_pending_device_cannot_be_revoked() {
    let mut r = with_devices(&[(1, DeviceStatus::Pending, 10)]);
    assert_eq!(r.revoke_device(id(1)), Ok(false));
    assert_eq!((r.devices[0].status, r.devices[0].ipv4.as_str()), (0, "100.64.0.1"));
    assert!(pool_addresses(&r).is_empty());
}

#[test]
fn deleted_devices_are_gone() {
    let mut r = with_devices(&[(1, DeviceStatus::Approved, 10), (2, DeviceStatus::Pending, 20)]);
    assert!(r.delete_device(id(1)));
    assert!(!r.delete_device(id(1)));
    assert_eq!(ids(&r.list_all()), [2]);
    assert_eq!(pool_addresses(&r), ["100.64.0.2"]);
}

#[test]
fn purging_keeps_live_and_approved_devices() {
    let mut r = with_devices(&[
        (1, DeviceStatus::Pending, 100),
        (2, DeviceStatus::Approved, 100),
        (3, DeviceStatus::Pending, 700),
        (4, DeviceStatus::Revoked, 699),
    ]);
    assert_eq!(r.purge_stale(1000, 300), 2);
    assert_eq!(ids(&r.list_all()), [2, 3]);
    assert_eq!(pool_addresses(&r), ["100.64.0.2", "100.64.0.3"]);
    assert_eq!(r.purge_stale(1000, 300), 0);
}

#[test]
fn lists_are_ordered_by_registration() {
    let r = with_devices(&[
        (1, DeviceStatus::Approved, 30),
        (2, DeviceStatus::Approved, 10),
        (3, DeviceStatus::Pending, 20),
        (4, DeviceStatus::Approved, 10),
    ]);
    assert_eq!(ids(&r.list_all()), [2, 4, 3, 1]);
    assert_eq!(ids(&r.list_approved()), [2, 4, 1]);
    assert_eq!(ids(&r.list_pending()), [3]);
    assert_eq!(ordered(&vec![Some(5), None, Some(-1), Some(5)]), [2, 0, 3]);
}

#[test]
fn names_are_resolved_for_approved_devices_only() {
    let mut r = with_devices(&[
        (1, DeviceStatus::Approved, 30),
        (2, DeviceStatus::Pending, 10),
        (3, DeviceStatus::Approved, 20),
        (4, DeviceStatus::Approved, 20),
    ]);
    r.devices[2].hostname = String::new();
    r.devices[3].ipv4 = String::new();
    assert_eq!(r.list_dns_records(), [("host1".to_string(), "100.64.0.1".to_string())]);
}

#[test]
fn addresses_are_handed_out_in_order() {
    let mut pool = IpPool::new();
    for n in 0..4u32 {
        assert!(pool.can_allocate(BASE, 3));
        assert_eq!(pool.allocate_ip(BASE, 3), Some(Ipv4Addr { bits: BASE + n }));
    }
    assert_eq!(pool.allocate_ip(BASE, 3), None);
    assert_eq!((pool.pool_size(), pool.allocated_count()), (4, 4));
    assert!(pool.is_distinct());
}

#[test]
fn free_addresses_are_used_first() {
    let mut pool = IpPool::new();
    for (text, allocated) in [("100.64.0.9", 0), ("100.64.0.10", 0), ("100.64.0.0", 1)] {
        pool.rows.push(IpPoolRow { ipv4: text.to_string(), allocated });
    }
    assert_eq!(pool.allocated_count(), 1);
    assert_eq!(pool.allocate_ip(BASE, 255), Some(ip(10)));
    assert_eq!(pool.allocate_ip(BASE, 255), Some(ip(9)));
    assert_eq!(pool.allocate_ip(BASE, 255), Some(ip(3)));
    pool.rows.push(IpPoolRow { ipv4: "broken".to_string(), allocated: 0 });
    assert_eq!(pool.allocate_ip(BASE, 255), None);
    assert_eq!(pool.rows[4].allocated, 1);
}

#[test]
fn the_next_address_follows_those_that_are_held() {
    let mut pool = IpPool::new();
    for text in ["100.64.0.0", "100.64.0.9"] {
        pool.rows.push(IpPoolRow { ipv4: text.to_string(), allocated: 1 });
    }
    assert_eq!(pool.allocate_ip(BASE, 255), Some(ip(2)));
    // As many addresses as the network has are enough.
    assert_eq!(pool.allocate_ip(BASE, 2), None);
}

#[test]
fn a_gap_in_the_pool_is_filled_first() {
    let mut pool = IpPool::new();
    for _ in 0..3 {
        pool.allocate_ip(BASE, 255);
    }
    pool.rows.remove(0);
    assert_eq!(pool.allocate_ip(BASE, 255), Some(ip(0)));
    assert_eq!(pool.allocate_ip(BASE, 255), Some(ip(3)));
    assert_eq!(pool.pool_size(), 4);
    assert!(pool.is_distinct());
}

#[test]
fn a_deleted_device_leaves_the_others_their_addresses() {
    let mut r = Registry::new();
    let register = |r: &mut Registry, n: u8| {
        r.handle_register([n; 32], format!("host{n}"), 0, 0x6440_0000, 65535, "n").unwrap()
    };
    let a = register(&mut r, 1);
    let b = register(&mut r, 2);
    assert_eq!((a.ipv4.as_str(), b.ipv4.as_str()), ("100.64.0.0", "100.64.0.1"));
    assert!(r.delete_device(a.device_id));
    let c = register(&mut r, 3);
    let d = register(&mut r, 4);
    assert_eq!((c.ipv4.as_str(), d.ipv4.as_str()), ("100.64.0.0", "100.64.0.2"));
}

#[test]
fn a_known_device_needs_no_address() {
    let mut r = Registry::new();
    let first = r.handle_register([1; 32], "a".to_string(), 0, u32::MAX, 10, "n").unwrap();
    assert_eq!(first.ipv4, "255.255.255.255");
    assert!(!r.pool.can_allocate(u32::MAX, 10));
    let again = r.handle_register([1; 32], "b".to_string(), 0, u32::MAX, 10, "n").unwrap();
    assert_eq!((again.device_id, again.ipv4), (first.device_id, first.ipv4));
    assert_eq!(r.pool.rows.len(), 1);
}

#[test]
fn longer_keys_are_read_up_to_their_length() {
    let mut r = with_devices(&[(1, DeviceStatus::Approved, 10)]);
    r.devices[0].public_key.push(7);
    assert!(r.is_well_formed());
    assert_eq!(r.list_all()[0].public_key[..], r.devices[0].public_key[..32]);
    r.devices[0].public_key.truncate(31);
    assert!(!r.is_well_formed());
}

#[test]
fn allocations_beyond_the_last_address_are_foreseen() {
    let mut pool = IpPool::new();
    assert!(pool.can_allocate(u32::MAX, 10));
    assert_eq!(pool.allocate_ip(u32::MAX, 10), Some(Ipv4Addr { bits: u32::MAX }));
    assert!(!pool.can_allocate(u32::MAX, 10));
    assert!(pool.can_allocate(u32::MAX, 0));
}

#[test]
fn new_devices_get_an_address_and_wait() {
    let mut r = Registry::new();
    let reg = r.handle_register([1; 32], "a".to_string(), 50, BASE, 1, "100.64.0.0/31").unwrap();
    assert_eq!((reg.ipv4.as_str(), reg.network.as_str()), ("100.64.0.0", "100.64.0.0/31"));
    assert_eq!(ids(&r.list_pending()), [reg.device_id.bits]);
    assert!(r.handle_peers(60).is_empty());
    // Registering again changes nothing.
    let again = r.handle_register([1; 32], "b".to_string(), 70, BASE, 1, "n").unwrap();
    assert_eq!((again.device_id, again.ipv4.as_str()), (reg.device_id, "100.64.0.0"));
    assert_eq!(r.devices.len(), 1);
    assert_eq!(r.devices[0].hostname, "a");
    // Until the network is full.
    assert!(r.handle_register([2; 32], "c".to_string(), 80, BASE, 1, "n").is_ok());
    let full = r.handle_register([3; 32], "d".to_string(), 90, BASE, 1, "n");
    assert_eq!(full.err(), Some(RegisterError::PoolFull));
    assert!(r.is_well_formed());
}

#[test]
fn a_clash_keeps_a_device_out() {
    let mut r = Registry::new();
    assert!(r.register_as(id(1), [1; 32], "a".to_string(), 0, BASE, 9, "n").is_ok());
    let clash = r.register_as(id(1), [2; 32], "b".to_string(), 0, BASE, 9, "n");
    assert_eq!(clash.err(), Some(RegisterError::Duplicate));
    assert_eq!((r.devices.len(), r.pool.rows.len()), (1, 2));
    assert!(r.register_as(id(2), [2; 32], "b".to_string(), 0, BASE, 9, "n").is_ok());
    assert_eq!(r.devices[1].ipv4, "100.64.0.2");
}

#[test]
fn peers_are_the_approved_devices() {
    let r = with_devices(&[(1, DeviceStatus::Pending, 10), (2, DeviceStatus::Approved, 20)]);
    let peers = r.handle_peers(50);
    assert_eq!(peers.len(), 1);
    assert_eq!(peers[0].device_id, id(2));
    assert_eq!((peers[0].ipv4.as_str(), peers[0].hostname.as_str()), ("100.64.0.2", "host2"));
    assert_eq!((peers[0].public_key, peers[0].last_seen_secs), ([2; 32], 30));
    let mut r = r;
    r.devices[1].last_seen = i64::MIN;
    assert_eq!(r.handle_peers(i64::MAX)[0].last_seen_secs, i64::MAX);
    r.devices[1].last_seen = i64::MAX;
    assert_eq!(r.handle_peers(i64::MIN)[0].last_seen_secs, i64::MIN);
}

#[test]
fn allocations_are_counted() {
    let mut r = with_devices(&[(1, DeviceStatus::Pending, 10), (2, DeviceStatus::Approved, 20)]);
    r.pool.rows[0].allocated = 0;
    let a = r.handle_allocations(65535, "100.64.0.0/16");
    assert_eq!((a.total, a.used, a.free), (65536, 1, 65535));
    assert_eq!(a.network, "100.64.0.0/16");
    // Nothing is left once all addresses are in use.
    r.pool.rows[0].allocated = 1;
    let a = r.handle_allocations(1, "100.64.0.0/31");
    assert_eq!((a.total, a.used, a.free), (2, 2, 0));
    assert_eq!(r.handle_allocations(0, "100.64.0.0/32").free, 0);
}

#[test]
fn network_ranges_are_parsed() {
    assert_eq!(parse_cidr("100.64.0.0/16"), Ok((BASE, 65535)));
    assert_eq!(parse_cidr("10.0.0.1/32"), Ok((0x0A00_0001, 0)));
    assert_eq!(parse_cidr("10.0.0.0/1"), Ok((0x0A00_0000, 0x7FFF_FFFF)));
    assert_eq!(parse_cidr("10.0.0.0/+08"), Ok((0x0A00_0000, 0x00FF_FFFF)));
    assert_eq!(cidr_parts("10.0.0.0/0"), Ok((Ipv4Addr::new(10, 0, 0, 0), 0)));
    assert_eq!(parse_cidr("10.0.0.0"), Err(CidrError::Format));
    assert_eq!(parse_cidr("10.0.0.0/8/9"), Err(CidrError::Format));
    assert_eq!(parse_cidr("10.0.0/8"), Err(CidrError::Address));
    assert_eq!(parse_cidr("/8"), Err(CidrError::Address));
    for prefix in ["", "x", "+", "-1", "256", "8 "] {
        assert_eq!(parse_cidr(&format!("10.0.0.0/{prefix}")), Err(CidrError::Prefix));
    }
    assert_eq!(parse_cidr("10.0.0.0/33"), Err(CidrError::PrefixTooLong));
    assert_eq!(parse_cidr("10.0.0.0/255"), Err(CidrError::PrefixTooLong));
}

#[test]
fn backups_stand_beside_the_database() {
    assert_eq!(backup_path("connectalso.db"), "connectalso.db.backup");
}

#[test]
fn candidates_are_listed_newest_first() {
    let mut t = CandidateTable::new();
    t.upsert_candidate(id(1), "1.1.1.1:1", 10);
    t.upsert_candidate(id(1), "2.2.2.2:2", 20);
    t.upsert_candidate(id(2), "3.3.3.3:3", 30);
    assert_eq!(t.get_candidates(id(1)), ["2.2.2.2:2", "1.1.1.1:1"]);
    t.upsert_candidate(id(1), "1.1.1.1:1", 40);
    assert_eq!(t.rows.len(), 3);
    assert_eq!(t.get_candidates(id(1)), ["1.1.1.1:1", "2.2.2.2:2"]);
    t.publish(id(3), &vec!["a".to_string(), "b".to_string(), "a".to_string()], 50);
    assert_eq!(t.get_candidates(id(3)), ["a", "b"]);
    assert!(t.is_distinct());
    assert_eq!(t.purge_stale_candidates(60, 25), 2);
    assert!(t.get_candidates(id(2)).is_empty());
    t.rows.push(CandidateRow {
        device_id: id(3).to_string(),
        address: "a".to_string(),
        updated_at: 0,
    });
    assert!(!t.is_distinct());
}

fn rule(number: i64, priority: i32, action: &str) -> AclRuleRow {
    AclRuleRow {
        id: number,
        priority,
        action: action.to_string(),
        src_ip: String::new(),
        dst_ip: String::new(),
        protocol: String::new(),
        src_port: 0,
        dst_port: 0,
    }
}

#[test]
fn rules_are_replaced_by_number_and_listed_by_priority() {
    let mut t = AclTable::new();
    t.upsert_acl_rule(&rule(1, 20, "allow"));
    t.upsert_acl_rule(&rule(2, 10, "deny"));
    t.upsert_acl_rule(&rule(3, -5, "allow"));
    let listed: Vec<i64> = t.list_acl_rules().iter().map(|r| r.id).collect();
    assert_eq!(listed, [3, 2, 1]);
    t.upsert_acl_rule(&rule(1, -9, "deny"));
    let rules = t.list_acl_rules();
    assert_eq!((rules[0].id, rules[0].action.as_str(), rules.len()), (1, "deny", 3));
    assert!(t.delete_acl_rule(2));
    assert!(!t.delete_acl_rule(2));
    assert_eq!(t.rows.len(), 2);
    assert!(t.is_distinct());
    t.rows.push(rule(3, 0, "x"));
    assert!(!t.is_distinct());
}

#[test]
fn inconsistent_tables_are_recognised() {
    let mut r = with_devices(&[(1, DeviceStatus::Pending, 10), (2, DeviceStatus::Approved, 20)]);
    r.devices[1].public_key = vec![2; 31];
    assert!(!r.is_well_formed());
    r.devices[1].public_key = vec![1; 32];
    assert!(!r.is_well_formed());
    r.devices[1].public_key = vec![2; 32];
    assert!(r.is_well_formed());
    r.pool.rows[1].ipv4 = r.pool.rows[0].ipv4.clone();
    assert!(!r.is_well_formed());
}
