use connectalso::addr::{Datagram, IpAddr, Ipv4Addr, SocketAddr};
use connectalso::key_exchange::{KeyPair, SessionCipher};
use connectalso::relay_proto::{MsgType, PeerId, ProtoError, RelayFrame};
use connectalso::relay_server::{RelayAction, RelayTable};
use connectalso::tunnel::relay::RelayClient;

fn local(port: u16) -> SocketAddr {
    SocketAddr::new(IpAddr::V4(Ipv4Addr::new(127, 0, 0, 1)), port)
}

const RELAY_PORT: u16 = 33478;

/// Registers a client that is bound to the given port.
fn register(table: &mut RelayTable, port: u16, our_id: PeerId, peer_id: PeerId) -> RelayClient {
    let (client, hello) = RelayClient::register(local(RELAY_PORT), our_id, peer_id);
    assert_eq!(hello.to, local(RELAY_PORT));
    let action = table.handle(local(port), &hello.payload);
    assert!(matches!(action, RelayAction::Registered { peer, .. } if peer == our_id));
    client
}

/// Hands a datagram to the relay, and returns where the relay sends it on to,
/// and what.
fn through(table: &mut RelayTable, port: u16, d: &Datagram) -> (Vec<SocketAddr>, Vec<u8>) {
    match table.handle(local(port), &d.payload) {
        RelayAction::Forward { to, payload } => (to, payload),
        other => panic!("not forwarded: {other:?}"),
    }
}

/// Hands a datagram to the relay, and returns what arrives at the client that is
/// bound to `at`.
fn arrives(table: &mut RelayTable, port: u16, d: &Datagram, at: u16) -> Vec<u8> {
    let (to, payload) = through(table, port, d);
    assert!(to.contains(&local(at)), "not sent to {at}: {to:?}");
    payload
}

#[test]
fn e2e_register_discover_relay() {
    let mut relay = RelayTable::new();
    let alice_relay_id = PeerId::new_v4();
    let bob_relay_id = PeerId::new_v4();

    let alice_to_bob = register(&mut relay, 40001, alice_relay_id, bob_relay_id);
    let bob_to_alice = register(&mut relay, 40002, bob_relay_id, alice_relay_id);

    // Alice sends encrypted message to Bob via relay
    let msg = b"hello bob from alice";
    let (to, payload) = through(&mut relay, 40001, &alice_to_bob.send(msg).unwrap());
    assert_eq!(to, [local(40002)]);

    // Bob receives
    let (received, from) = bob_to_alice.recv(&payload).unwrap();
    assert_eq!(&received[..], msg);
    assert_eq!(from, alice_relay_id);

    // Bob echoes back
    let (to, payload) =
        through(&mut relay, 40002, &bob_to_alice.send(b"echo from bob").unwrap());
    assert_eq!(to, [local(40001)]);
    let (received, from) = alice_to_bob.recv(&payload).unwrap();
    assert_eq!(&received[..], b"echo from bob");
    assert_eq!(from, bob_relay_id);
}

#[test]
fn e2e_multi_peer_relay() {
    let mut relay = RelayTable::new();
    let peer_a_id = PeerId::new_v4();
    let peer_b_id = PeerId::new_v4();
    let peer_c_id = PeerId::new_v4();

    let peer_a = register(&mut relay, 1, peer_a_id, peer_b_id);
    let peer_b_to_a = register(&mut relay, 2, peer_b_id, peer_a_id);
    let peer_b_to_c = register(&mut relay, 3, peer_b_id, peer_c_id);
    let peer_c = register(&mut relay, 4, peer_c_id, peer_b_id);
    let peer_a_to_c = register(&mut relay, 5, peer_a_id, peer_c_id);
    let peer_c_to_a = register(&mut relay, 6, peer_c_id, peer_a_id);

    // A → B
    let payload = arrives(&mut relay, 1, &peer_a.send("A→B".as_bytes()).unwrap(), 2);
    let (data, _) = peer_b_to_a.recv(&payload).unwrap();
    assert_eq!(&data, "A→B".as_bytes());
    // The client that talks to C passes it over.
    assert!(peer_b_to_c.recv(&payload).is_none());

    // B → C
    let payload = arrives(&mut relay, 3, &peer_b_to_c.send("B→C".as_bytes()).unwrap(), 4);
    let (data, _) = peer_c.recv(&payload).unwrap();
    assert_eq!(&data, "B→C".as_bytes());

    // A → C
    let payload = arrives(&mut relay, 5, &peer_a_to_c.send("A→C direct".as_bytes()).unwrap(), 6);
    let (data, _) = peer_c_to_a.recv(&payload).unwrap();
    assert_eq!(&data, "A→C direct".as_bytes());
}

#[test]
fn e2e_encrypted_tunnel_over_relay() {
    let mut relay = RelayTable::new();

    // Shared key via DH
    let alice_keys = KeyPair::generate();
    let bob_keys = KeyPair::generate();
    let shared = alice_keys.diffie_hellman(&bob_keys.public_key_bytes());

    let mut alice_tx = SessionCipher::new(&shared, 0);
    let bob_rx = SessionCipher::new(&shared, 0);

    // Relay transport layer
    let a_id = PeerId::new_v4();
    let b_id = PeerId::new_v4();
    let a_relay = register(&mut relay, 40001, a_id, b_id);
    let b_relay = register(&mut relay, 40002, b_id, a_id);

    // Encrypt → Relay → Decrypt
    let plaintext = b"encrypted tunnel payload";
    let ciphertext = alice_tx.encrypt(plaintext).unwrap();
    let payload = arrives(&mut relay, 40001, &a_relay.send(&ciphertext).unwrap(), 40002);

    let (received, _) = b_relay.recv(&payload).unwrap();
    let decrypted = bob_rx.decrypt(&received).unwrap();
    assert_eq!(&decrypted, plaintext);
}

#[test]
fn e2e_relay_routing() {
    let mut relay = RelayTable::new();
    let alice = PeerId::new_v4();
    let bob = PeerId::new_v4();

    // Alice and Bob register
    let a_hello = RelayFrame::hello(alice).encode().unwrap();
    relay.handle(local(1), &a_hello);
    let b_hello = RelayFrame::hello(bob).encode().unwrap();
    relay.handle(local(2), &b_hello);

    // Alice sends data to Bob via relay
    let data_frame = RelayFrame::data(alice, bob, b"routed payload".to_vec()).encode().unwrap();
    let sent = Datagram { to: local(RELAY_PORT), payload: data_frame };
    let (to, payload) = through(&mut relay, 1, &sent);

    // Bob should receive forwarded data
    assert_eq!(to, [local(2)]);
    let received = RelayFrame::decode(&payload).unwrap();
    assert_eq!(received.sender_id, alice);
    assert_eq!(received.msg_type, MsgType::Data);
    assert_eq!(&received.payload, b"routed payload");
}

#[test]
fn e2e_protocol_frame_roundtrip() {
    let id1 = PeerId::new_v4();
    let id2 = PeerId::new_v4();

    let payloads: Vec<Vec<u8>> = vec![vec![], vec![0xAA], vec![0xBB; 256], vec![0xCC; 1024]];

    for payload in &payloads {
        let frame = RelayFrame::data(id1, id2, payload.clone());
        let encoded = frame.encode().unwrap();
        let decoded = RelayFrame::decode(&encoded).unwrap();

        assert_eq!(decoded.sender_id, id1);
        assert_eq!(decoded.target_id, id2);
        assert_eq!(decoded.msg_type, MsgType::Data);
        assert_eq!(&decoded.payload, payload);
    }
}

#[test]
fn e2e_stun_and_relay_fallback() {
    let mut relay = RelayTable::new();
    let a_id = PeerId::new_v4();
    let b_id = PeerId::new_v4();

    // Both register with relay
    let a_relay = register(&mut relay, 1, a_id, b_id);
    let b_relay = register(&mut relay, 2, b_id, a_id);

    let messages: Vec<&[u8]> = vec![
        b"packet 1: tcp syn",
        b"packet 2: tcp ack",
        b"packet 3: http request",
        b"packet 4: dns query",
    ];

    for (i, msg) in messages.iter().enumerate() {
        let payload = arrives(&mut relay, 1, &a_relay.send(msg).unwrap(), 2);
        let (data, _) = b_relay.recv(&payload).unwrap();
        assert_eq!(&data[..], &msg[..], "packet {i} mismatch");
    }
}

#[test]
fn the_relay_drops_what_it_cannot_place() {
    let mut relay = RelayTable::new();
    let a = PeerId { bits: 1 };
    let b = PeerId { bits: 2 };
    assert!(matches!(relay.handle(local(1), b"noise"), RelayAction::BadFrame(_)));
    let data = RelayFrame::data(a, b, b"x".to_vec()).encode().unwrap();
    let action = relay.handle(local(1), &data);
    assert!(matches!(action, RelayAction::UnknownTarget { target } if target == b));
    // A keepalive registers as well.
    let keepalive = RelayFrame::keepalive(b).encode().unwrap();
    assert!(matches!(relay.handle(local(2), &keepalive), RelayAction::Kept { .. }));
    let hello = RelayFrame::hello(b).encode().unwrap();
    let action = relay.handle(local(3), &hello);
    assert!(matches!(action, RelayAction::Registered { first: false, .. }));
    // Registering again from one address changes nothing.
    relay.handle(local(2), &hello);
    let d = Datagram { to: local(RELAY_PORT), payload: data.clone() };
    let (to, payload) = through(&mut relay, 1, &d);
    assert_eq!(to, [local(2), local(3)]);
    assert_eq!(payload, data);
}

#[test]
fn the_relay_drops_data_that_is_too_long() {
    let mut relay = RelayTable::new();
    let b = PeerId { bits: 2 };
    relay.handle(local(2), &RelayFrame::hello(b).encode().unwrap());
    let mut data = RelayFrame::data(PeerId { bits: 1 }, b, vec![]).encode().unwrap();
    data[34] = 0x08;
    data[35] = 0x01;
    data.extend(vec![0; 2049]);
    let action = relay.handle(local(1), &data);
    assert!(matches!(action, RelayAction::BadFrame(ProtoError::PayloadTooLarge(2049))));
    // The longest payload there may be goes on.
    data[35] = 0x00;
    assert!(matches!(relay.handle(local(1), &data), RelayAction::Forward { .. }));
}

#[test]
fn keepalives_go_to_the_relay() {
    let (client, _) = RelayClient::register(local(9), PeerId { bits: 1 }, PeerId { bits: 2 });
    let d = client.keepalive();
    assert_eq!(d.to, local(9));
    let frame = RelayFrame::decode(&d.payload).unwrap();
    assert_eq!((frame.msg_type, frame.sender_id), (MsgType::Keepalive, PeerId { bits: 1 }));
    assert!(client.send(&[0; 2048]).is_ok());
    assert!(client.send(&[0; 2049]).is_err());
}
