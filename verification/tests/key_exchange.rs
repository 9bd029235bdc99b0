use chacha20poly1305::aead::Aead;
use chacha20poly1305::{ChaCha20Poly1305, KeyInit, Nonce};
use connectalso::key_exchange::{CryptoError, KeyPair, SessionCipher, KEY_LEN, NONCE_LEN, TAG_LEN};

#[test]
fn key_exchange_and_encrypt_decrypt() {
    let alice = KeyPair::generate();
    let bob = KeyPair::generate();

    let alice_shared = alice.diffie_hellman(&bob.public_key_bytes());
    let bob_shared = bob.diffie_hellman(&alice.public_key_bytes());
    assert_eq!(alice_shared, bob_shared);

    // Alice sends, Bob receives (different nonce starting points)
    let mut alice_tx = SessionCipher::new(&alice_shared, 0);
    let bob_rx = SessionCipher::new(&bob_shared, 0);

    let msg = b"hello encrypted world";
    let encrypted = alice_tx.encrypt(msg).unwrap();
    let decrypted = bob_rx.decrypt(&encrypted).unwrap();
    assert_eq!(&decrypted, msg);
}

#[test]
fn wrong_key_fails_decryption() {
    let alice = KeyPair::generate();
    let bob = KeyPair::generate();
    let eve = KeyPair::generate();

    let alice_shared = alice.diffie_hellman(&bob.public_key_bytes());
    let eve_shared = eve.diffie_hellman(&bob.public_key_bytes());

    let mut alice_tx = SessionCipher::new(&alice_shared, 0);
    let eve_rx = SessionCipher::new(&eve_shared, 0);

    let msg = b"secret message";
    let encrypted = alice_tx.encrypt(msg).unwrap();
    let result = eve_rx.decrypt(&encrypted);
    assert!(result.is_err());
}

#[test]
fn nonce_increments() {
    let key = [0u8; KEY_LEN];
    let mut cipher = SessionCipher::new(&key, 0);

    let c1 = cipher.encrypt(b"msg1").unwrap();
    let c2 = cipher.encrypt(b"msg2").unwrap();

    // Nonces should differ (first 12 bytes of each ciphertext)
    assert_ne!(&c1[..NONCE_LEN], &c2[..NONCE_LEN]);

    let rx = SessionCipher::new(&key, 0);
    assert_eq!(rx.decrypt(&c1).unwrap(), b"msg1");
    assert_eq!(rx.decrypt(&c2).unwrap(), b"msg2");
}

#[test]
fn truncated_packet_fails() {
    let key = [0u8; KEY_LEN];
    let mut cipher = SessionCipher::new(&key, 0);
    let rx = SessionCipher::new(&key, 0);

    let encrypted = cipher.encrypt(b"test").unwrap();
    let result = rx.decrypt(&encrypted[..10]);
    assert!(result.is_err());
}

#[test]
fn agreement_follows_the_published_curve() {
    let scalar: [u8; 32] = [
        0xa5, 0x46, 0xe3, 0x6b, 0xf0, 0x52, 0x7c, 0x9d, 0x3b, 0x16, 0x15, 0x4b, 0x82, 0x46, 0x5e,
        0xdd, 0x62, 0x14, 0x4c, 0x0a, 0xc1, 0xfc, 0x5a, 0x18, 0x50, 0x6a, 0x22, 0x44, 0xba, 0x44,
        0x9a, 0xc4,
    ];
    let point: [u8; 32] = [
        0xe6, 0xdb, 0x68, 0x67, 0x58, 0x30, 0x30, 0xdb, 0x35, 0x94, 0xc1, 0xa4, 0x24, 0xb1, 0x5f,
        0x7c, 0x72, 0x66, 0x24, 0xec, 0x26, 0xb3, 0x35, 0x3b, 0x10, 0xa9, 0x03, 0xa6, 0xd0, 0xab,
        0x1c, 0x4c,
    ];
    let expected: [u8; 32] = [
        0xc3, 0xda, 0x55, 0x37, 0x9d, 0xe9, 0xc6, 0x90, 0x8e, 0x94, 0xea, 0x4d, 0xf2, 0x8d, 0x08,
        0x4f, 0x32, 0xec, 0xcf, 0x03, 0x49, 0x1c, 0x71, 0xf7, 0x54, 0xb4, 0x07, 0x55, 0x77, 0xa2,
        0x85, 0x52,
    ];
    let pair = KeyPair::from_secret(scalar);
    assert_eq!(pair.diffie_hellman(&point), expected);
    assert_ne!(pair.public_key_bytes(), scalar);
    assert_eq!(
        pair.public_key_bytes(),
        x25519_dalek::x25519(scalar, x25519_dalek::X25519_BASEPOINT_BYTES)
    );
}

#[test]
fn packets_are_nonce_and_sealed_message() {
    let key = [7u8; KEY_LEN];
    let mut cipher = SessionCipher::new(&key, 0x0102_0304_0506_0708);
    let packet = cipher.encrypt(b"payload").unwrap();
    let nonce = [0, 0, 0, 0, 8, 7, 6, 5, 4, 3, 2, 1];
    assert_eq!(&packet[..NONCE_LEN], &nonce);
    assert_eq!(packet.len(), NONCE_LEN + 7 + TAG_LEN);
    let sealed = ChaCha20Poly1305::new(&key.into())
        .encrypt(Nonce::from_slice(&nonce), &b"payload"[..])
        .unwrap();
    assert_eq!(&packet[NONCE_LEN..], &sealed[..]);
}

#[test]
fn tampered_packets_are_refused() {
    let key = [7u8; KEY_LEN];
    let mut cipher = SessionCipher::new(&key, 0);
    let packet = cipher.encrypt(b"payload").unwrap();
    for i in 0..packet.len() {
        let mut bad = packet.clone();
        bad[i] ^= 1;
        assert_eq!(cipher.decrypt(&bad), Err(CryptoError::Decrypt));
    }
    assert_eq!(cipher.decrypt(&[]), Err(CryptoError::Decrypt));
    assert_eq!(cipher.decrypt(&packet).unwrap(), b"payload");
}

#[test]
fn the_packet_counter_wraps_around() {
    let key = [1u8; KEY_LEN];
    let mut cipher = SessionCipher::new(&key, u64::MAX);
    let last = cipher.encrypt(b"").unwrap();
    let first = cipher.encrypt(b"").unwrap();
    assert_eq!(&last[4..12], &[0xFF; 8]);
    assert_eq!(&first[..12], &[0; 12]);
}

#[test]
fn generated_keys_differ() {
    assert_ne!(
        KeyPair::generate().public_key_bytes(),
        KeyPair::generate().public_key_bytes()
    );
}
