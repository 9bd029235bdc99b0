use connectalso::addr::Ipv4Addr;
use connectalso::dns::{host_part, join_labels, parse_question, DnsServer};

fn query(labels: &[&[u8]]) -> Vec<u8> {
    let mut q = vec![0xAB, 0xCD, 0x01, 0x00, 0, 1, 0, 0, 0, 0, 0, 0];
    for label in labels {
        q.push(label.len() as u8);
        q.extend_from_slice(label);
    }
    q.extend([0, 0, 1, 0, 1]);
    q
}

fn server() -> DnsServer {
    let mut s = DnsServer::bind("8.8.8.8:53");
    s.update_records(&[
        ("Alice".to_string(), Ipv4Addr::new(100, 64, 0, 2)),
        ("my.nas".to_string(), Ipv4Addr::new(100, 64, 0, 3)),
    ]);
    s
}

#[test]
fn a_known_host_is_answered() {
    let s = server();
    let q = query(&[b"alice"]);
    let mut expected = vec![0xAB, 0xCD, 0x81, 0x80, 0, 1, 0, 1, 0, 0, 0, 0];
    expected.extend_from_slice(&q[12..]);
    expected.extend([0xC0, 0x0C, 0, 1, 0, 1, 0, 0, 0, 60, 0, 4, 100, 64, 0, 2]);
    assert_eq!(s.handle_query(&q), Some(expected));
    assert_eq!(s.upstream(), "8.8.8.8:53");
}

#[test]
fn names_match_whatever_their_case_and_domain() {
    let s = server();
    let last_four = |q: Vec<u8>| s.handle_query(&q).map(|r| r[r.len() - 4..].to_vec());
    assert_eq!(last_four(query(&[b"ALICE"])), Some(vec![100, 64, 0, 2]));
    assert_eq!(last_four(query(&[b"alice", b"ConnectAlso"])), Some(vec![100, 64, 0, 2]));
    assert_eq!(last_four(query(&[b"my", b"nas"])), Some(vec![100, 64, 0, 3]));
    assert_eq!(last_four(query(&[b"my", b"nas", b"connectalso"])), Some(vec![100, 64, 0, 3]));
    assert_eq!(last_four(query(&[b"bob"])), None);
    assert_eq!(last_four(query(&[b"connectalso"])), None);
}

#[test]
fn names_outside_ascii_are_lowered_too() {
    let mut s = server();
    s.update_records(&[("\u{c4}pfel".to_string(), Ipv4Addr::new(100, 64, 0, 4))]);
    let last_four = |q: Vec<u8>| s.handle_query(&q).map(|r| r[r.len() - 4..].to_vec());
    assert_eq!(last_four(query(&["\u{e4}PFEL".as_bytes()])), Some(vec![100, 64, 0, 4]));
    // Names of an earlier list are gone.
    assert_eq!(last_four(query(&[b"alice"])), None);
}

#[test]
fn malformed_queries_are_not_answered() {
    let s = server();
    let q = query(&[b"alice"]);
    assert_eq!(s.handle_query(&q[..11]), None);
    let mut no_question = q.clone();
    no_question[5] = 0;
    assert_eq!(s.handle_query(&no_question), None);
    assert_eq!(s.handle_query(&q[..q.len() - 1]), None);
    assert_eq!(s.handle_query(&query(&[&[0xFF, 0xFE]])), None);
}

#[test]
fn question_names_end_in_several_ways() {
    let (labels, end) = parse_question(&query(&[b"a", b"bc"])).unwrap();
    assert_eq!((labels, end), (vec!["a".to_string(), "bc".to_string()], 18));
    // A compression pointer is two bytes long.
    let mut q = query(&[b"a"]);
    q[14] = 0xC0;
    let (labels, end) = parse_question(&[&q[..], &[0]].concat()).unwrap();
    assert_eq!((labels, end), (vec!["a".to_string()], 16));
    // A label that runs past the end is not read.
    let mut q = query(&[b"a"]);
    q[14] = 9;
    assert_eq!(parse_question(&q).unwrap().1, 15);
}

#[test]
fn later_records_replace_earlier_ones() {
    let mut s = server();
    s.update_records(&[
        ("x".to_string(), Ipv4Addr::new(1, 1, 1, 1)),
        ("X".to_string(), Ipv4Addr::new(2, 2, 2, 2)),
    ]);
    let reply = s.handle_query(&query(&[b"x"])).unwrap();
    assert_eq!(&reply[reply.len() - 4..], &[2, 2, 2, 2]);
    assert_eq!(s.handle_query(&query(&[b"alice"])), None);
    s.set_records(vec![("Y".to_string(), Ipv4Addr::new(3, 3, 3, 3))]);
    assert_eq!(s.handle_query(&query(&[b"y"])), None);
    assert!(s.respond(&query(&[b"y"]), "Y.connectalso", 15).is_some());
}

#[test]
fn the_domain_is_stripped_once() {
    assert_eq!(host_part("alice.connectalso"), "alice");
    assert_eq!(host_part("alice"), "alice");
    assert_eq!(host_part("a.connectalso.connectalso"), "a.connectalso");
    assert_eq!(host_part(".connectalso"), "");
    assert_eq!(join_labels(&vec!["a".to_string(), "b".to_string(), "c".to_string()]), "a.b.c");
    assert_eq!(join_labels(&vec![]), "");
}
