use connectalso::addr::{IpAddr, Ipv4Addr, SocketAddr};
use connectalso::engine::{
    engine_state, is_pending, parse_dst_ip, ActivityLevel, ConnState, EngineError, PeerEntry,
    PeerPlan, PollAction, PollEvent, RunAction, SendAction, TunnelEngine, MAX_PLAIN_PACKET,
    MAX_QUEUED_PACKETS,
};
use connectalso::key_exchange::KeyPair;
use connectalso::relay_proto::{MsgType, PeerId, RelayFrame};

const SECOND: u128 = 1_000_000_000;

fn relay() -> SocketAddr {
    SocketAddr::new(IpAddr::V4(Ipv4Addr::new(9, 9, 9, 9)), 33478)
}

/// The key pair of the device with that identifier.
fn keys_of(bits: u128) -> KeyPair {
    KeyPair::from_secret([bits as u8 + 3; 32])
}

fn entry(bits: u128, ipv4: &str) -> PeerEntry {
    let public_key = keys_of(bits).public_key_bytes();
    PeerEntry { device_id: PeerId { bits }, ipv4: ipv4.to_string(), public_key }
}

fn engine_of(bits: u128) -> TunnelEngine {
    let ipv4 = format!("100.64.0.{bits}");
    TunnelEngine::new(keys_of(bits), PeerId { bits }, &ipv4, relay(), 0).unwrap()
}

fn engine() -> TunnelEngine {
    engine_of(1)
}

/// The engine of another device, which has the first one as its only peer.
fn other(bits: u128) -> TunnelEngine {
    let mut e = engine_of(bits);
    add(&mut e, &entry(1, "100.64.0.1"));
    e
}

fn sent(r: Result<SendAction, EngineError>) -> Vec<u8> {
    match r {
        Ok(SendAction::Send(d)) => d.payload,
        other => panic!("{other:?}"),
    }
}

fn add(e: &mut TunnelEngine, p: &PeerEntry) -> bool {
    match e.sync_peer(p).unwrap() {
        PeerPlan::Register { peer, hello } => {
            assert_eq!(hello.to, relay());
            let frame = RelayFrame::decode(&hello.payload).unwrap();
            assert_eq!((frame.msg_type, frame.sender_id), (MsgType::Hello, e.our_id));
            e.insert_peer(peer);
            true
        }
        PeerPlan::Skip => false,
    }
}

fn packet(dst: [u8; 4]) -> Vec<u8> {
    let mut p = vec![0u8; 28];
    p[0] = 0x45;
    p[16..20].copy_from_slice(&dst);
    p
}

#[test]
fn intervals_follow_activity() {
    let levels = [ActivityLevel::Active, ActivityLevel::Idle, ActivityLevel::Sleep];
    assert_eq!(levels.map(|l| l.poll_interval_ms()), [10, 100, 500]);
    assert_eq!(levels.map(|l| l.keepalive_interval_secs()), [30, 60, 120]);
}

#[test]
fn activity_drops_without_traffic() {
    let mut e = engine();
    for (secs, level) in [
        (0, ActivityLevel::Active),
        (4, ActivityLevel::Active),
        (5, ActivityLevel::Idle),
        (29, ActivityLevel::Idle),
        (30, ActivityLevel::Sleep),
    ] {
        e.update_activity(secs * SECOND + SECOND - 1);
        assert_eq!(e.activity(), level);
    }
    assert_eq!((e.poll_interval_ms(), e.keepalive_interval_secs()), (500, 120));
    e.mark_traffic(40 * SECOND);
    assert_eq!(e.activity(), ActivityLevel::Active);
    e.update_activity(39 * SECOND);
    assert_eq!(e.activity(), ActivityLevel::Active);
}

#[test]
fn engines_start_connected_and_empty() {
    let e = engine();
    assert_eq!((e.state(), e.activity()), (ConnState::Connected, ActivityLevel::Active));
    assert_eq!(e.our_ip, Ipv4Addr::new(100, 64, 0, 1));
    assert_eq!(e.public_key_bytes(), KeyPair::from_secret([4; 32]).public_key_bytes());
    let keys = KeyPair::generate();
    let bad = TunnelEngine::new(keys, PeerId { bits: 1 }, "nowhere", relay(), 0);
    assert!(matches!(bad, Err(EngineError::BadAddress)));
    assert_eq!(engine_state(Some(e.state())), ConnState::Connected);
    assert_eq!(engine_state(None), ConnState::Reconnecting);
    assert!(is_pending("pending"));
    assert!(!is_pending(""));
}

#[test]
fn peers_are_synced_once() {
    let mut e = engine();
    assert!(!add(&mut e, &entry(1, "100.64.0.1")));
    assert!(add(&mut e, &entry(2, "100.64.0.2")));
    assert!(!add(&mut e, &entry(2, "100.64.0.9")));
    assert!(matches!(e.sync_peer(&entry(3, "bad")), Err(EngineError::BadAddress)));
    assert!(matches!(e.sync_peer(&entry(2, "bad")), Ok(PeerPlan::Skip)));
    assert_eq!(e.peers.len(), 1);
    // After a network change every peer registers anew.
    assert!(matches!(e.reconnect_peer(&entry(1, "bad")), Ok(PeerPlan::Skip)));
    assert!(matches!(e.reconnect_peer(&entry(2, "bad")), Err(EngineError::BadAddress)));
    match e.reconnect_peer(&entry(2, "100.64.0.9")).unwrap() {
        PeerPlan::Register { peer, .. } => e.insert_peer(peer),
        PeerPlan::Skip => panic!("skipped"),
    }
    assert_eq!(e.peers.len(), 1);
    assert_eq!(e.peers[0].vip, Ipv4Addr::new(100, 64, 0, 9));
}

#[test]
fn peer_lists_are_worked_through_in_order() {
    let list = || vec![entry(1, "bad"), entry(2, "100.64.0.2"), entry(3, "100.64.0.3")];
    let mut e = engine();
    let mut run = e.sync_peers(list());
    assert!(matches!(run.step(&mut e, false), RunAction::Register(_)));
    assert_eq!((run.at, run.pending.unwrap().id), (1, PeerId { bits: 2 }));
    // The first registration fails, the second one succeeds.
    match run.step(&mut e, false) {
        RunAction::Register(hello) => assert_eq!(hello.to, relay()),
        other => panic!("unexpected {other:?}"),
    }
    assert!(e.peers.is_empty());
    assert!(matches!(run.step(&mut e, true), RunAction::Done(1)));
    assert_eq!(e.peers.len(), 1);
    assert_eq!(e.peers[0].id, PeerId { bits: 3 });
    // A second run registers only the peer that is missing.
    let mut run = e.sync_peers(list());
    assert!(matches!(run.step(&mut e, false), RunAction::Register(_)));
    assert!(matches!(run.step(&mut e, true), RunAction::Done(1)));
    assert_eq!(e.peers.len(), 2);
    // After a network change all of them register.
    let mut run = e.reconnect_peers(list());
    assert!(matches!(run.step(&mut e, false), RunAction::Register(_)));
    assert!(matches!(run.step(&mut e, true), RunAction::Register(_)));
    assert!(matches!(run.step(&mut e, true), RunAction::Done(2)));
    assert_eq!(e.peers.len(), 2);
}

#[test]
fn unreadable_address_ends_a_peer_list() {
    let mut e = engine();
    let mut run = e.sync_peers(vec![entry(2, "100.64.0.2"), entry(3, "bad")]);
    assert!(matches!(run.step(&mut e, false), RunAction::Register(_)));
    assert!(matches!(run.step(&mut e, true), RunAction::Failed(EngineError::BadAddress)));
    // What was added before stays.
    assert_eq!(e.peers.len(), 1);
}

#[test]
fn packets_are_routed_by_virtual_address() {
    let mut e = engine();
    add(&mut e, &entry(2, "100.64.0.2"));
    add(&mut e, &entry(3, "100.64.0.3"));
    let pkt = packet([100, 64, 0, 3]);
    assert_eq!(parse_dst_ip(&pkt), Some(Ipv4Addr::new(100, 64, 0, 3)));
    let (back, action) = e.engine_send_packet(&pkt, 7).unwrap();
    assert!(back.is_empty());
    match action {
        Some(SendAction::Send(d)) => {
            assert_eq!(d.to, relay());
            let frame = RelayFrame::decode(&d.payload).unwrap();
            assert_eq!(frame.target_id, PeerId { bits: 3 });
            assert_eq!(frame.sender_id, PeerId { bits: 1 });
            // What the relay sees is encrypted; the peer reads the packet.
            assert_eq!(frame.payload.len(), pkt.len() + 28);
            assert_ne!(&frame.payload[12..12 + pkt.len()], &pkt[..]);
            let arrived = PollEvent::Arrived(d.payload);
            let read = other(3).recv_from_any(0, &arrived);
            assert!(matches!(read, PollAction::Deliver(m) if m == pkt));
            // Another device does not.
            assert!(matches!(other(2).recv_from_any(0, &arrived), PollAction::Poll(0)));
        }
        other => panic!("{other:?}"),
    }
    assert_eq!((e.last_traffic, e.sent), (7, 1));
    let lost = e.engine_send_packet(&packet([8, 8, 8, 8]), 8);
    assert!(matches!(lost, Err(EngineError::NoRoute(ip)) if ip == Ipv4Addr::new(8, 8, 8, 8)));
    let mut long = packet([100, 64, 0, 3]);
    long.resize(2021, 0);
    match e.engine_send_packet(&long, 9) {
        Err(EngineError::Io(e)) => assert_eq!(e.message, "payload too large"),
        other => panic!("{other:?}"),
    }
    assert_eq!(e.sent, 1);
    long.truncate(MAX_PLAIN_PACKET);
    assert!(matches!(e.engine_send_packet(&long, 9), Ok((_, Some(SendAction::Send(_))))));
}

#[test]
fn devices_share_a_key_and_no_nonce() {
    let mut low = engine();
    let mut high = other(2);
    add(&mut low, &entry(2, "100.64.0.2"));
    assert_eq!(low.peers[0].key, high.peers[0].key);
    assert_eq!(low.peers[0].key, keys_of(2).diffie_hellman(&keys_of(1).public_key_bytes()));
    let nonce = |payload: Vec<u8>| RelayFrame::decode(&payload).unwrap().payload[..12].to_vec();
    let there = Ipv4Addr::new(100, 64, 0, 2);
    let back = Ipv4Addr::new(100, 64, 0, 1);
    assert_eq!(nonce(sent(low.send_to_peer(b"a", there, 0))), [0; 12]);
    let from_high = nonce(sent(high.send_to_peer(b"b", back, 0)));
    assert_eq!(from_high, [0, 0, 0, 0, 0, 0, 0, 0, 1, 0, 0, 0]);
    // Connecting anew does not start over.
    let mut run = low.reconnect_peers(vec![entry(2, "100.64.0.2")]);
    assert!(matches!(run.step(&mut low, false), RunAction::Register(_)));
    assert!(matches!(run.step(&mut low, true), RunAction::Done(1)));
    let again = nonce(sent(low.send_to_peer(b"a", there, 0)));
    assert_eq!(again, [0, 0, 0, 0, 1, 0, 0, 0, 0, 0, 0, 0]);
}

#[test]
fn tampered_packets_are_passed_over() {
    let mut e = engine();
    add(&mut e, &entry(2, "100.64.0.2"));
    let payload = sent(other(2).send_to_peer(b"hi", Ipv4Addr::new(100, 64, 0, 1), 0));
    let good = PollEvent::Arrived(payload.clone());
    assert!(matches!(e.recv_from_any(0, &good), PollAction::Deliver(m) if m == b"hi"));
    let mut bad = payload;
    *bad.last_mut().unwrap() ^= 1;
    assert!(matches!(e.recv_from_any(0, &PollEvent::Arrived(bad)), PollAction::Poll(0)));
    let plain = RelayFrame::data(PeerId { bits: 2 }, PeerId { bits: 1 }, b"hi".to_vec());
    let plain = PollEvent::Arrived(plain.encode().unwrap());
    assert!(matches!(e.recv_from_any(0, &plain), PollAction::Poll(0)));
}

#[test]
fn packets_for_ourselves_come_back() {
    let mut e = engine();
    let pkt = packet([100, 64, 0, 1]);
    let (back, action) = e.engine_send_packet(&pkt, 7).unwrap();
    assert_eq!(back, pkt);
    assert!(action.is_none());
    assert_eq!(e.last_traffic, 0);
    assert!(matches!(e.engine_send_packet(&pkt[..19], 7), Err(EngineError::InvalidPacket)));
    assert_eq!(parse_dst_ip(&[0x60; 40]), None);
}

#[test]
fn packets_wait_for_the_reconnection() {
    let mut e = engine();
    add(&mut e, &entry(2, "100.64.0.2"));
    e.begin_reconnect();
    assert_eq!(e.state(), ConnState::Reconnecting);
    assert_eq!(engine_state(Some(e.state())), ConnState::Reconnecting);
    let known = Ipv4Addr::new(100, 64, 0, 2);
    let unknown = Ipv4Addr::new(100, 64, 0, 7);
    assert!(matches!(e.send_to_peer(b"one", known, 1), Ok(SendAction::Queued)));
    assert!(matches!(e.send_to_peer(b"two", unknown, 2), Ok(SendAction::Queued)));
    for _ in 2..MAX_QUEUED_PACKETS {
        assert!(matches!(e.send_to_peer(b"more", known, 3), Ok(SendAction::Queued)));
    }
    assert!(matches!(e.send_to_peer(b"too many", known, 4), Ok(SendAction::Dropped)));
    assert_eq!(e.outbound_queue.len(), 256);
    let flushed = e.finish_reconnect();
    assert_eq!(flushed.len(), 256);
    let first = flushed[0].as_ref().unwrap();
    let read = |d: &connectalso::addr::Datagram| {
        match other(2).recv_from_any(0, &PollEvent::Arrived(d.payload.clone())) {
            PollAction::Deliver(m) => m,
            other => panic!("{other:?}"),
        }
    };
    assert_eq!(read(first), b"one");
    assert!(matches!(flushed[1], Err(EngineError::NoRoute(ip)) if ip == unknown));
    assert_eq!(read(flushed[255].as_ref().unwrap()), b"more");
    assert_eq!(e.sent, 255);
    assert_eq!((e.state(), e.outbound_queue.len()), (ConnState::Connected, 0));
}

#[test]
fn peers_are_polled_in_turn() {
    let mut e = engine();
    assert!(matches!(e.start_polling(), PollAction::NoData));
    add(&mut e, &entry(2, "100.64.0.2"));
    add(&mut e, &entry(3, "100.64.0.3"));
    assert!(matches!(e.start_polling(), PollAction::Poll(0)));
    let from = |bits| {
        let r = other(bits).send_to_peer(b"hi", Ipv4Addr::new(100, 64, 0, 1), 0);
        PollEvent::Arrived(sent(r))
    };
    assert!(matches!(e.recv_from_any(0, &from(3)), PollAction::Poll(0)));
    assert!(matches!(e.recv_from_any(0, &PollEvent::NoMore), PollAction::Poll(1)));
    assert!(matches!(e.recv_from_any(1, &from(3)), PollAction::Deliver(m) if m == b"hi"));
    assert!(matches!(e.recv_from_any(1, &PollEvent::NoMore), PollAction::NoData));
}

#[test]
fn every_peer_is_kept_alive() {
    let mut e = engine();
    add(&mut e, &entry(2, "100.64.0.2"));
    add(&mut e, &entry(3, "100.64.0.3"));
    let sent = e.send_keepalives();
    assert_eq!(sent.len(), 2);
    for d in sent {
        let frame = RelayFrame::decode(&d.payload).unwrap();
        assert_eq!((d.to, frame.msg_type), (relay(), MsgType::Keepalive));
    }
}
