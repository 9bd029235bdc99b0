use connectalso::addr::{IpAddr, Ipv4Addr, SocketAddr};
use connectalso::error::{IoError, IoErrorKind};
use connectalso::key_exchange::{CryptoError, KeyPair};
use connectalso::relay_proto::{PeerId, RelayFrame, MAX_PAYLOAD};
use connectalso::tunnel::path::{ping, ping_pong, PathManager, PathStatus, PingEvent, RecvMessage};
use connectalso::tunnel::relay::RelayClient;
use connectalso::tunnel::relay_pool::{ProbeResult, RelayPool, RelayServer};
use connectalso::tunnel::{Tunnel, TunnelError};

fn local(port: u16) -> SocketAddr {
    SocketAddr::new(IpAddr::V4(Ipv4Addr::new(127, 0, 0, 1)), port)
}

fn io_error() -> TunnelError {
    TunnelError::Io(IoError::new(IoErrorKind::Other, "unreachable"))
}

#[test]
fn two_node_encrypted_exchange() {
    let alice_keys = KeyPair::generate();
    let bob_keys = KeyPair::generate();
    let shared = alice_keys.diffie_hellman(&bob_keys.public_key_bytes());

    let mut alice = Tunnel::bind_initiator(local(40001), &shared);
    let mut bob = Tunnel::bind_responder(local(40002), &shared);

    let bob_addr = bob.local_addr();
    let alice_addr = alice.local_addr();

    let msg = b"hello from alice";
    let sent = alice.send_to(msg, bob_addr).unwrap();
    assert_eq!(sent.to, bob_addr);
    let (received, from) = bob.recv_from(&sent.payload, alice_addr).unwrap();
    assert_eq!(&received[..], msg);
    assert_eq!(from, alice_addr);

    let msg = b"echo from bob";
    let sent = bob.send_to(msg, alice_addr).unwrap();
    let (received, from) = alice.recv_from(&sent.payload, bob_addr).unwrap();
    assert_eq!(&received[..], msg);
    assert_eq!(from, bob_addr);
}

#[test]
fn wrong_key_rejected() {
    let alice_keys = KeyPair::generate();
    let bob_keys = KeyPair::generate();
    let eve_keys = KeyPair::generate();
    let shared = alice_keys.diffie_hellman(&bob_keys.public_key_bytes());
    let alice_for_eve = KeyPair::generate();
    let eve_shared = alice_for_eve.diffie_hellman(&eve_keys.public_key_bytes());

    let mut alice = Tunnel::bind_initiator(local(40001), &shared);
    let eve = Tunnel::bind_responder(local(40002), &eve_shared);

    let sent = alice.send_to(b"secret", eve.local_addr()).unwrap();

    let result = eve.recv_from(&sent.payload, local(40001));
    assert!(result.is_err());
    assert_eq!(result.err(), Some(TunnelError::Crypto(CryptoError::Decrypt)));
}

#[test]
fn multiple_packets_in_order() {
    let alice_keys = KeyPair::generate();
    let bob_keys = KeyPair::generate();
    let shared = alice_keys.diffie_hellman(&bob_keys.public_key_bytes());

    let mut alice = Tunnel::bind_initiator(local(40001), &shared);
    let bob = Tunnel::bind_responder(local(40002), &shared);

    let bob_addr = bob.local_addr();

    for i in 0..10u8 {
        let msg = [i; 16];
        let sent = alice.send_to(&msg, bob_addr).unwrap();
        let (received, _) = bob.recv_from(&sent.payload, local(40001)).unwrap();
        assert_eq!(&received[..], &msg[..]);
    }
}

#[test]
fn the_two_directions_use_different_nonces() {
    let mut alice = Tunnel::bind_initiator(local(1), &[7; 32]);
    let mut bob = Tunnel::bind_responder(local(2), &[7; 32]);
    let a = alice.send_to(b"x", local(2)).unwrap();
    let b = bob.send_to(b"x", local(1)).unwrap();
    assert_eq!(&a.payload[..12], &[0; 12]);
    assert_eq!(&b.payload[..12], &[0, 0, 0, 0, 0, 0, 0, 0, 1, 0, 0, 0]);
}

#[test]
fn relay_pool_selection() {
    let servers = vec![local(33478), local(33479)];
    let mut pool = RelayPool::new(&servers);

    assert_eq!(pool.len(), 2);
    assert_eq!(pool.active_addr(), servers[0]);

    // Probe — should mark unreachable servers as unhealthy
    pool.probe_all(&[(1, ProbeResult::NoAnswer), (2, ProbeResult::NoAnswer)]);
    // Both should be unhealthy (no relay listening on localhost ports)
    assert!(!pool.servers[0].healthy);
    assert!(!pool.servers[1].healthy);

    // Failover should cycle
    pool.failover();
    // Still at 0 if no healthy relay exists
    assert_eq!(pool.active, 0);
}

#[test]
fn relay_summary() {
    let servers = vec![local(33478)];
    let pool = RelayPool::new(&servers);
    let summary = pool.summary();
    assert_eq!(summary.len(), 1);
    assert_eq!(summary[0].addr, servers[0]);
    assert!(summary[0].healthy);
    assert!(summary[0].active);
}

#[test]
fn the_fastest_healthy_relay_is_selected() {
    let mut pool = RelayPool::new(&[local(1), local(2), local(3)]);
    pool.probe_all(&[
        (10, ProbeResult::Answered { elapsed: 30_000_000 }),
        (20, ProbeResult::Answered { elapsed: 20_999_999 }),
        (30, ProbeResult::NoSocket),
    ]);
    assert_eq!(pool.active_addr(), local(2));
    let summary = pool.summary();
    assert_eq!(summary[0].latency_ms, Some(30));
    assert_eq!(summary[1].latency_ms, Some(20));
    assert_eq!(summary[2].latency_ms, None);
    assert_eq!((summary[1].active, summary[2].healthy), (true, false));
    assert_eq!(pool.servers[0].last_probe, Some(10));
    // Each failure makes the other healthy relay take over.
    assert!(pool.failover());
    assert_eq!(pool.active_addr(), local(1));
    assert_eq!((pool.servers[1].failures, pool.servers[1].healthy), (1, true));
    for _ in 0..4 {
        assert!(pool.failover());
    }
    // The third failure of one relay leaves none to go back to.
    assert_eq!((pool.servers[1].failures, pool.servers[1].healthy), (3, false));
    assert_eq!(pool.active_addr(), local(1));
    assert!(!pool.failover());
    assert_eq!(pool.active_addr(), local(1));
    // An answer makes it healthy again.
    pool.probe_all(&[
        (40, ProbeResult::NoAnswer),
        (50, ProbeResult::Answered { elapsed: 5 }),
        (60, ProbeResult::NoAnswer),
    ]);
    assert_eq!(pool.active_addr(), local(2));
    assert_eq!(pool.servers[1].failures, 0);
}

#[test]
fn a_fresh_pool_fails_over_at_once() {
    let mut pool = RelayPool::new(&[local(33478), local(33479)]);
    assert!(pool.failover());
    assert_eq!(pool.active_addr(), local(33479));
    assert!(pool.failover());
    assert_eq!(pool.active_addr(), local(33478));
    let mut alone = RelayPool::new(&[local(33478)]);
    assert!(!alone.failover());
    assert_eq!((alone.active, alone.servers[0].failures), (0, 1));
}

#[test]
fn unmeasured_relays_come_after_measured_ones() {
    let mut pool = RelayPool::new(&[local(1), local(2)]);
    pool.servers[1].latency = Some(9_000_000_000);
    assert!(pool.failover());
    assert_eq!(pool.active_addr(), local(2));
    let fresh = RelayServer::new(local(3));
    assert_eq!((fresh.latency, fresh.healthy, fresh.failures), (None, true, 0));
}

fn manager() -> PathManager {
    let (client, _hello) =
        RelayClient::register(local(33478), PeerId { bits: 1 }, PeerId { bits: 2 });
    PathManager::new(client, local(40002))
}

#[test]
fn failed_probes_back_off_and_success_resets() {
    let mut m = manager();
    assert_eq!(m.current_status(), PathStatus::Relay);
    let mut seen = vec![m.backoff_ms()];
    for _ in 0..9 {
        let t = Tunnel::bind_initiator(local(1), &[1; 32]);
        assert_eq!(m.try_direct(t, Err(io_error())), Err(io_error()));
        seen.push(m.backoff_ms());
    }
    assert_eq!(seen, [200, 400, 800, 1600, 3200, 6400, 12800, 25600, 30000, 30000]);
    assert_eq!(m.current_status(), PathStatus::Relay);
    let t = Tunnel::bind_initiator(local(1), &[1; 32]);
    assert!(m.try_direct(t, Ok(())).is_ok());
    assert_eq!((m.current_status(), m.backoff_ms()), (PathStatus::Direct, 200));
}

#[test]
fn messages_go_direct_first_and_through_the_relay_otherwise() {
    let mut m = manager();
    let (d, path) = m.send(b"hello").unwrap();
    assert_eq!((d.to, path), (local(33478), PathStatus::Relay));
    assert_eq!(RelayFrame::decode(&d.payload).unwrap().payload, b"hello");

    let mut tunnel = Tunnel::bind_initiator(local(1), &[9; 32]);
    let peer = Tunnel::bind_responder(local(40002), &[9; 32]);
    let probe = m.probe(&mut tunnel).unwrap();
    assert_eq!(probe.to, local(40002));
    assert_eq!(peer.recv_from(&probe.payload, local(1)).unwrap().0, b"PROBE");
    m.try_direct(tunnel, Ok(())).unwrap();

    let (d, path) = m.send(b"hello").unwrap();
    assert_eq!((d.to, path), (local(40002), PathStatus::Direct));
    assert_eq!(peer.recv_from(&d.payload, local(1)).unwrap().0, b"hello");
    assert_eq!(m.current_status(), PathStatus::Direct);
    assert_eq!(m.fall_back(b"hello").unwrap().to, local(33478));
    assert_eq!(m.current_status(), PathStatus::Relay);
    // The next message tries the direct path again.
    let (_, path) = m.send(b"again").unwrap();
    assert_eq!((path, m.current_status()), (PathStatus::Direct, PathStatus::Direct));
    let too_long = m.fall_back(&vec![0; MAX_PAYLOAD + 1]);
    assert!(matches!(too_long, Err(TunnelError::Io(e)) if e.message == "payload too large"));
}

#[test]
fn messages_are_received_from_the_relay() {
    let m = manager();
    let from_peer =
        RelayFrame::data(PeerId { bits: 2 }, PeerId { bits: 1 }, b"hi".to_vec()).encode().unwrap();
    let (data, from) = m.recv(&from_peer).unwrap();
    let message = RecvMessage { data, via: "relay" };
    assert_eq!((message.data, message.via, from), (b"hi".to_vec(), "relay", local(40002)));
    let from_other =
        RelayFrame::data(PeerId { bits: 3 }, PeerId { bits: 1 }, b"hi".to_vec()).encode().unwrap();
    assert!(m.recv(&from_other).is_none());
    assert!(m.recv(b"noise").is_none());
    assert_eq!(m.relay().peer_id, PeerId { bits: 2 });
    assert_eq!(m.into_relay().our_id, PeerId { bits: 1 });
}

#[test]
fn only_a_pong_answers_a_ping() {
    let mut t = Tunnel::bind_initiator(local(1), &[3; 32]);
    let sent = ping(&mut t, local(2)).unwrap();
    let peer = Tunnel::bind_responder(local(2), &[3; 32]);
    assert_eq!(peer.recv_from(&sent.payload, local(1)).unwrap().0, b"PING");
    assert!(ping_pong(PingEvent::Received(b"PONG".to_vec())).is_ok());
    assert!(ping_pong(PingEvent::Received(b"PONG and more".to_vec())).is_ok());
    let io = |kind, message: &str| Err(TunnelError::Io(IoError::new(kind, message)));
    for data in [&b"PON"[..], b"PING", b""] {
        assert_eq!(
            ping_pong(PingEvent::Received(data.to_vec())),
            io(IoErrorKind::ConnectionRefused, "unexpected pong")
        );
    }
    assert_eq!(ping_pong(PingEvent::PongTimedOut), io(IoErrorKind::TimedOut, "pong timeout"));
    assert_eq!(ping_pong(PingEvent::PingTimedOut), io(IoErrorKind::TimedOut, "ping timeout"));
    assert_eq!(ping_pong(PingEvent::Failed(io_error())), Err(io_error()));
}
