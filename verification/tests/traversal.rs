use connectalso::addr::{IpAddr, Ipv4Addr, Ipv6Addr, SocketAddr};
use connectalso::error::{IoError, IoErrorKind};
use connectalso::traversal::candidate::{Candidate, CandidateType};
use connectalso::traversal::nat_type::{NatDetector, NatType};
use connectalso::traversal::punch::{
    round_datagrams, PunchEvent, PunchOutcome, Puncher, PUNCH_RETRIES,
};
use connectalso::traversal::stun::{
    parse_response, parse_xor_mapped_address, StunClient, StunError, ATTR_XOR_MAPPED_ADDRESS,
    BINDING_SUCCESS, IPV4_FAMILY, MAGIC_COOKIE,
};
use connectalso::traversal::stun_server::handle_binding_request;

fn v4(a: u8, b: u8, c: u8, d: u8, port: u16) -> SocketAddr {
    SocketAddr::new(IpAddr::V4(Ipv4Addr::new(a, b, c, d)), port)
}

fn build_success_response(tx_id: &[u8; 12], mapped: SocketAddr) -> Vec<u8> {
    // XOR-MAPPED-ADDRESS attribute
    let mut attr = Vec::new();
    attr.extend_from_slice(&ATTR_XOR_MAPPED_ADDRESS.to_be_bytes());
    attr.extend_from_slice(&8u16.to_be_bytes()); // attr len
    attr.push(0x00); // reserved
    attr.push(IPV4_FAMILY); // IPv4

    let port = mapped.port() ^ (MAGIC_COOKIE >> 16) as u16;
    attr.extend_from_slice(&port.to_be_bytes());

    if let IpAddr::V4(ip) = mapped.ip() {
        let addr_bits = u32::from_be_bytes(ip.octets());
        let x_addr = addr_bits ^ MAGIC_COOKIE;
        attr.extend_from_slice(&x_addr.to_be_bytes());
    }

    let mut response = Vec::new();
    response.extend_from_slice(&BINDING_SUCCESS.to_be_bytes());
    response.extend_from_slice(&(attr.len() as u16).to_be_bytes());
    response.extend_from_slice(&MAGIC_COOKIE.to_be_bytes());
    response.extend_from_slice(tx_id);
    response.extend_from_slice(&attr);
    response
}

#[test]
fn nat_type_display() {
    assert_eq!(NatType::FullCone.to_string(), "Full Cone");
    assert_eq!(NatType::Symmetric.to_string(), "Symmetric");
    assert_eq!(NatType::Open.to_string(), "Open (no NAT)");
}

#[test]
fn p2p_support() {
    assert!(NatType::FullCone.supports_p2p());
    assert!(NatType::RestrictedCone.supports_p2p());
    assert!(NatType::PortRestrictedCone.supports_p2p());
    assert!(!NatType::Symmetric.supports_p2p());
    assert!(NatType::Open.supports_p2p());
    assert!(!NatType::Unknown.supports_p2p());
}

#[test]
fn relay_need() {
    assert!(NatType::Symmetric.needs_relay());
    assert!(NatType::Unknown.needs_relay());
    assert!(!NatType::PortRestrictedCone.needs_relay());
    assert!(!NatType::Open.needs_relay());
}

#[test]
fn detect_open_internet() {
    let stun = v4(127, 0, 0, 1, 3478);
    let local = v4(127, 0, 0, 1, 40000);
    let client = StunClient::discover(stun);
    let request = client.request();
    assert_eq!(request.to, stun);
    let reply = handle_binding_request(&request.payload, local).unwrap();
    let result = NatDetector::detect(local, client.response(&reply)).unwrap();
    // On localhost, the STUN server sees the same address as local
    assert_eq!(result, NatType::Open);
}

#[test]
fn detect_nat_and_failure() {
    let local = v4(192, 168, 1, 2, 40000);
    assert_eq!(NatDetector::detect(local, Ok(v4(1, 2, 3, 4, 40000))), Ok(NatType::Unknown));
    assert_eq!(NatDetector::detect(local, Ok(v4(192, 168, 1, 2, 40001))), Ok(NatType::Unknown));
    let failed = StunError::Io(IoError::new(IoErrorKind::TimedOut, "no answer"));
    assert_eq!(NatDetector::detect(local, Err(failed.clone())), Err(failed));
}

#[test]
fn decode_success_response() {
    let tx_id: [u8; 12] = rand::Rng::gen(&mut rand::thread_rng());

    let mapped = v4(1, 2, 3, 4, 5678);
    let response = build_success_response(&tx_id, mapped);

    let (msg_type, resp_tx_id, attrs) = parse_response(&response).unwrap();
    assert_eq!(msg_type, BINDING_SUCCESS);
    assert_eq!(resp_tx_id, tx_id);

    let addr = parse_xor_mapped_address(attrs).unwrap();
    assert_eq!(addr, mapped);
}

#[test]
fn parse_xor_mapped_address_roundtrip() {
    let cases =
        vec![v4(1, 2, 3, 4, 5678), v4(192, 168, 1, 1, 12345), v4(10, 0, 0, 1, 9)];

    for addr in cases {
        let tx_id = [0u8; 12];
        let response = build_success_response(&tx_id, addr);
        let (_mt, _tid, attrs) = parse_response(&response).unwrap();
        let parsed = parse_xor_mapped_address(attrs).unwrap();
        assert_eq!(parsed, addr, "roundtrip failed for {addr:?}");
    }
}

#[test]
fn stun_answers_are_checked() {
    let server = v4(9, 9, 9, 9, 3478);
    let client = StunClient::with_transaction(server, [5; 12]);
    let mapped = v4(1, 2, 3, 4, 5678);
    assert_eq!(client.response(&build_success_response(&[5; 12], mapped)), Ok(mapped));
    assert_eq!(
        client.response(&build_success_response(&[6; 12], mapped)),
        Err(StunError::TransactionMismatch)
    );
    let mut wrong_type = build_success_response(&[5; 12], mapped);
    wrong_type[1] = 0x11;
    assert_eq!(client.response(&wrong_type), Err(StunError::UnexpectedResponse(0x0111)));
    assert_eq!(client.response(&[0; 19]), Err(StunError::MissingMappedAddress));
    let mut wrong_cookie = build_success_response(&[5; 12], mapped);
    wrong_cookie[4] = 0;
    assert_eq!(client.response(&wrong_cookie), Err(StunError::MissingMappedAddress));
    let mut wrong_family = build_success_response(&[5; 12], mapped);
    wrong_family[25] = 0x02;
    assert_eq!(client.response(&wrong_family), Err(StunError::MissingMappedAddress));
}

#[test]
fn other_attributes_are_skipped() {
    let mapped = v4(1, 2, 3, 4, 5678);
    let response = build_success_response(&[0; 12], mapped);
    let (_, _, attr) = parse_response(&response).unwrap();
    let mut attrs = vec![0x80, 0x22, 0x00, 0x05, b'h', b'e', b'l', b'l', b'o', 0, 0, 0];
    attrs.extend_from_slice(attr);
    assert_eq!(parse_xor_mapped_address(&attrs), Some(mapped));
    assert_eq!(parse_xor_mapped_address(&attrs[..16]), None);
    assert_eq!(parse_xor_mapped_address(&[]), None);
}

#[test]
fn transaction_ids_are_random() {
    let server = v4(9, 9, 9, 9, 3478);
    assert_ne!(StunClient::discover(server).tx_id, StunClient::discover(server).tx_id);
}

#[test]
fn stun_server_answers_binding_requests_only() {
    let client_addr = v4(1, 2, 3, 4, 5678);
    let request = StunClient::with_transaction(client_addr, [3; 12]).request().payload;
    let reply = handle_binding_request(&request, client_addr).unwrap();
    assert_eq!(reply, build_success_response(&[3; 12], client_addr));
    assert!(handle_binding_request(&request[..19], client_addr).is_none());
    let mut other = request.clone();
    other[1] = 0x02;
    assert!(handle_binding_request(&other, client_addr).is_none());
    let v6 = SocketAddr::V6 { ip6: Ipv6Addr { bits: 1 }, port: 80, flowinfo: 0, scope_id: 0 };
    let reply = handle_binding_request(&request, v6).unwrap();
    assert_eq!(&reply[20..26], &[0x00, 0x20, 0x00, 20, 0x00, 0x02]);
    assert_eq!(reply.len(), 44);
}

fn punched(p: &mut Puncher, payload: Vec<u8>, from: SocketAddr) -> Option<(Vec<u8>, SocketAddr)> {
    match p.after_wait(PunchEvent::Received { payload, from }) {
        PunchOutcome::Established { payload, from } => Some((payload, from)),
        _ => None,
    }
}

#[test]
fn hole_punch_simulation() {
    // Peer A and Peer B on different localhost ports (simulating NAT endpoints)
    let a_addr = v4(127, 0, 0, 1, 40001);
    let b_addr = v4(127, 0, 0, 1, 40002);

    // Exchange candidates (simulating signaling server)
    let a_candidates = vec![Candidate::host(b_addr)];
    let b_candidates = vec![Candidate::host(a_addr)];

    // Both peers punch simultaneously
    let a_token = b"alice-token-42";
    let b_token = b"bob-token-07";
    let mut peer_a = Puncher::punch(a_candidates, a_token);
    let mut peer_b = Puncher::punch(b_candidates, b_token);
    let from_a = round_datagrams(&mut peer_a);
    let from_b = round_datagrams(&mut peer_b);
    assert_eq!(from_a.len(), 1);
    assert_eq!(from_a[0].to, b_addr);
    assert_eq!(from_b[0].to, a_addr);

    let a_response = punched(&mut peer_a, from_b[0].payload.clone(), b_addr);
    let b_response = punched(&mut peer_b, from_a[0].payload.clone(), a_addr);

    assert!(a_response.is_some(), "Alice should receive Bob's punch");
    assert!(b_response.is_some(), "Bob should receive Alice's punch");

    let (a_payload, a_from) = a_response.unwrap();
    let (b_payload, b_from) = b_response.unwrap();

    assert_eq!(a_payload, b_token, "Alice should see Bob's token");
    assert_eq!(a_from, b_addr);

    assert_eq!(b_payload, a_token, "Bob should see Alice's token");
    assert_eq!(b_from, a_addr);
}

#[test]
fn punch_then_communicate() {
    let a_addr = v4(127, 0, 0, 1, 40001);
    let b_addr = v4(127, 0, 0, 1, 40002);
    let mut peer_a = Puncher::punch(vec![Candidate::host(b_addr)], b"ping");
    let mut peer_b = Puncher::punch(vec![Candidate::host(a_addr)], b"pong");
    // The first packets are lost on the way.
    round_datagrams(&mut peer_a);
    round_datagrams(&mut peer_b);
    assert!(matches!(peer_a.after_wait(PunchEvent::TimedOut), PunchOutcome::KeepPunching));
    assert!(matches!(peer_b.after_wait(PunchEvent::Failed), PunchOutcome::KeepPunching));
    let from_a = round_datagrams(&mut peer_a);
    let from_b = round_datagrams(&mut peer_b);
    assert!(punched(&mut peer_a, from_b[0].payload.clone(), b_addr).is_some());
    assert!(punched(&mut peer_b, from_a[0].payload.clone(), a_addr).is_some());
}

#[test]
fn punching_gives_up_after_the_last_round() {
    let peer = v4(127, 0, 0, 1, 40001);
    let other = v4(127, 0, 0, 1, 40002);
    let candidates = vec![Candidate::host(peer), Candidate::server_reflexive(other)];
    assert_eq!(candidates[1].ty, CandidateType::ServerReflexive);
    let mut p = Puncher::punch(candidates, b"t");
    for round in 1..=PUNCH_RETRIES {
        let sent = round_datagrams(&mut p);
        assert_eq!(sent.len(), 2);
        assert_eq!((sent[0].to, sent[1].to), (peer, other));
        let outcome = p.after_wait(PunchEvent::TimedOut);
        if round < 10 {
            assert!(matches!(outcome, PunchOutcome::KeepPunching));
        } else {
            assert!(matches!(outcome, PunchOutcome::GaveUp));
        }
    }
}

#[test]
fn full_stun_candidate_punch_flow() {
    let stun_addr = v4(127, 0, 0, 1, 3478);
    let a_host = v4(127, 0, 0, 1, 40001);
    let b_host = v4(127, 0, 0, 1, 40002);

    // STUN discovery on both sides
    let client_a = StunClient::discover(stun_addr);
    let answer = handle_binding_request(&client_a.request().payload, a_host).unwrap();
    assert_eq!(client_a.response(&answer), Ok(a_host));
    let client_b = StunClient::discover(stun_addr);
    let answer = handle_binding_request(&client_b.request().payload, b_host).unwrap();
    assert_eq!(client_b.response(&answer), Ok(b_host));

    // Simultaneous hole punching
    let mut peer_a = Puncher::punch(vec![Candidate::host(b_host)], b"token-a");
    let mut peer_b = Puncher::punch(vec![Candidate::host(a_host)], b"token-b");
    let from_a = round_datagrams(&mut peer_a);
    let from_b = round_datagrams(&mut peer_b);
    let a_rsp = punched(&mut peer_a, from_b[0].payload.clone(), from_a[0].to);
    let b_rsp = punched(&mut peer_b, from_a[0].payload.clone(), from_b[0].to);
    assert!(a_rsp.is_some(), "peer A should receive B's punch");
    assert!(b_rsp.is_some(), "peer B should receive A's punch");

    let (a_payload, a_from) = a_rsp.unwrap();
    assert_eq!(a_payload, b"token-b");
    assert_eq!(a_from, b_host);

    let (b_payload, b_from) = b_rsp.unwrap();
    assert_eq!(b_payload, b"token-a");
    assert_eq!(b_from, a_host);
}
