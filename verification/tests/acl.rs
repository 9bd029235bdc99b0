use connectalso::acl::{evaluate_acls, AclRule, PacketInfo};
use connectalso::addr::Ipv4Addr;

fn rule(priority: u32, action: &str) -> AclRule {
    AclRule {
        priority,
        action: action.to_string(),
        src_ip: String::new(),
        dst_ip: String::new(),
        protocol: String::new(),
        src_port: 0,
        dst_port: 0,
    }
}

fn tcp_packet(src: [u8; 4], dst: [u8; 4], src_port: u16, dst_port: u16) -> Vec<u8> {
    let mut pkt = vec![0u8; 40];
    pkt[0] = 0x45;
    pkt[9] = 6;
    pkt[12..16].copy_from_slice(&src);
    pkt[16..20].copy_from_slice(&dst);
    pkt[20..22].copy_from_slice(&src_port.to_be_bytes());
    pkt[22..24].copy_from_slice(&dst_port.to_be_bytes());
    pkt
}

#[test]
fn packet_parse_ipv4_tcp() {
    // Minimal TCP SYN packet: IPv4 header (20B) + TCP header (20B)
    let mut pkt = vec![0u8; 40];
    pkt[0] = 0x45; // Version=4, IHL=5
    pkt[9] = 6; // TCP
    pkt[12..16].copy_from_slice(&[10, 0, 0, 1]); // src
    pkt[16..20].copy_from_slice(&[10, 0, 0, 2]); // dst
    pkt[20..22].copy_from_slice(&12345u16.to_be_bytes()); // src port
    pkt[22..24].copy_from_slice(&80u16.to_be_bytes()); // dst port

    let info = PacketInfo::parse(&pkt).unwrap();
    assert_eq!(info.src_ip, Ipv4Addr::new(10, 0, 0, 1));
    assert_eq!(info.src_port, 12345);
    assert_eq!(info.dst_port, 80);
}

#[test]
fn acl_deny_ssh() {
    let rules = vec![AclRule {
        priority: 10,
        action: "deny".into(),
        src_ip: String::new(),
        dst_ip: String::new(),
        protocol: "tcp".into(),
        src_port: 0,
        dst_port: 22,
    }];

    let mut pkt = vec![0u8; 40];
    pkt[0] = 0x45;
    pkt[9] = 6;
    pkt[12..16].copy_from_slice(&[10, 0, 0, 1]);
    pkt[16..20].copy_from_slice(&[10, 0, 0, 2]);
    pkt[22..24].copy_from_slice(&22u16.to_be_bytes());

    assert_eq!(evaluate_acls(&rules, &pkt), "deny");
}

#[test]
fn acl_allow_default() {
    let rules: Vec<AclRule> = vec![];
    let pkt = vec![0u8; 40];
    assert_eq!(evaluate_acls(&rules, &pkt), "allow");
}

#[test]
fn the_lowest_priority_number_decides() {
    let pkt = tcp_packet([10, 0, 0, 1], [10, 0, 0, 2], 1000, 80);
    let rules = vec![rule(20, "allow"), rule(10, "deny")];
    assert_eq!(evaluate_acls(&rules, &pkt), "deny");
    let rules = vec![rule(10, "allow"), rule(20, "deny")];
    assert_eq!(evaluate_acls(&rules, &pkt), "allow");
    let rules = vec![rule(10, "deny"), rule(10, "allow")];
    assert_eq!(evaluate_acls(&rules, &pkt), "deny");
}

#[test]
fn every_field_of_a_rule_counts() {
    let pkt = tcp_packet([10, 0, 0, 1], [10, 0, 0, 2], 1000, 80);
    let info = PacketInfo::parse(&pkt).unwrap();
    let mut r = rule(1, "deny");
    assert!(r.matches(&info));
    r.src_ip = "10.0.0.1".to_string();
    r.dst_ip = "10.0.0.2".to_string();
    r.protocol = "tcp".to_string();
    r.src_port = 1000;
    r.dst_port = 80;
    assert!(r.matches(&info));
    let mut other = r.clone();
    other.src_ip = "10.0.0.9".to_string();
    assert!(!other.matches(&info));
    let mut other = r.clone();
    other.dst_ip = "10.0.0.9".to_string();
    assert!(!other.matches(&info));
    let mut other = r.clone();
    other.protocol = "udp".to_string();
    assert!(!other.matches(&info));
    let mut other = r.clone();
    other.src_port = 1001;
    assert!(!other.matches(&info));
    let mut other = r;
    other.dst_port = 81;
    assert!(!other.matches(&info));
}

#[test]
fn what_is_no_ipv4_packet_is_not_parsed() {
    assert!(PacketInfo::parse(&[0x45; 19]).is_none());
    assert!(PacketInfo::parse(&[0x60; 40]).is_none());
    // No ports are read where the header is cut off.
    let mut pkt = tcp_packet([1, 2, 3, 4], [5, 6, 7, 8], 9, 10);
    pkt.truncate(23);
    let info = PacketInfo::parse(&pkt).unwrap();
    assert_eq!((info.src_port, info.dst_port), (0, 0));
}
