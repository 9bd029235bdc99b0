//! X25519 key agreement and ChaCha20-Poly1305 session encryption.

use chacha20poly1305::aead::Aead;
use chacha20poly1305::KeyInit;
use vstd::prelude::*;

use crate::codec;

verus! {

pub const KEY_LEN: usize = 32;

pub const NONCE_LEN: usize = 12;

pub const TAG_LEN: usize = 16;

/// The longest message that ChaCha20 has key stream for.
pub const MAX_STREAM: u64 = 0x3F_FFFF_FF80;

/// From this length on, messages are refused outright.
pub const REFUSED_FROM: u64 = 0x3F_FFFF_FFC0;

/// Cryptographic operation errors.
#[derive(Debug, Clone, Copy, PartialEq, Eq, Structural)]
pub enum CryptoError {
    /// Encryption failed.
    Encrypt,
    /// Decryption failed (wrong key, tampered data, or corrupted packet).
    Decrypt,
}

// The primitives.
/// The public key that belongs to an X25519 secret.
pub uninterp spec fn x25519_public(secret: Seq<u8>) -> Seq<u8>;

/// The secret that an X25519 secret shares with a public key.
pub uninterp spec fn x25519_shared(secret: Seq<u8>, public: Seq<u8>) -> Seq<u8>;

/// The ChaCha20-Poly1305 ciphertext of a message, with its tag behind it.
pub uninterp spec fn aead_seal(key: Seq<u8>, nonce: Seq<u8>, message: Seq<u8>) -> Seq<u8>;

/// The message in a ChaCha20-Poly1305 ciphertext, if its tag is right.
pub uninterp spec fn aead_open(key: Seq<u8>, nonce: Seq<u8>, sealed: Seq<u8>) -> Option<Seq<u8>>;

/// `x25519_dalek::StaticSecret::random`, as bytes. Every outcome is possible.
#[verifier::external_body]
fn random_secret() -> (secret: [u8; 32]) {
    x25519_dalek::StaticSecret::random().to_bytes()
}

/// `x25519_dalek::PublicKey::from` a secret, as bytes: the result depends on
/// the secret alone.
#[verifier::external_body]
fn public_of(secret: &[u8; 32]) -> (public: [u8; 32])
    ensures
        public@ == x25519_public(secret@),
{
    x25519_dalek::PublicKey::from(&x25519_dalek::StaticSecret::from(*secret)).to_bytes()
}

/// `x25519_dalek::StaticSecret::diffie_hellman`, as bytes: the result depends
/// on the secret and the peer's public key alone, and the holder of the
/// peer's secret gets the same from our public key.
#[verifier::external_body]
fn shared_with(secret: &[u8; 32], peer_public: &[u8; 32]) -> (shared: [u8; 32])
    ensures
        shared@ == x25519_shared(secret@, peer_public@),
        forall|peer_secret: Seq<u8>|
            peer_secret.len() == 32 && #[trigger] x25519_public(peer_secret) == peer_public@
                ==> shared@ == x25519_shared(peer_secret, x25519_public(secret@)),
{
    let ours = x25519_dalek::StaticSecret::from(*secret);
    ours.diffie_hellman(&x25519_dalek::PublicKey::from(*peer_public)).to_bytes()
}

/// `chacha20poly1305::ChaCha20Poly1305::encrypt` without associated data. It
/// fails on messages of `REFUSED_FROM` bytes or more and on no others; the
/// key stream runs out on those between `MAX_STREAM` and `REFUSED_FROM`,
/// which are left out. The ciphertext depends on key, nonce and message
/// alone, is 16 bytes longer than the message, and opens to it again.
#[verifier::external_body]
fn seal(key: &[u8; 32], nonce: &[u8; 12], message: &[u8]) -> (out: Result<Vec<u8>, CryptoError>)
    requires
        message@.len() <= MAX_STREAM || message@.len() >= REFUSED_FROM,
    ensures
        out is Err <==> message@.len() >= REFUSED_FROM,
        out matches Err(e) ==> e == CryptoError::Encrypt,
        out matches Ok(sealed) ==> {
            &&& sealed@ == aead_seal(key@, nonce@, message@)
            &&& sealed@.len() == message@.len() + TAG_LEN
            &&& aead_open(key@, nonce@, sealed@) == Some(message@)
        },
{
    let cipher = chacha20poly1305::ChaCha20Poly1305::new(key.into());
    cipher.encrypt(nonce.into(), message).map_err(|_| CryptoError::Encrypt)
}

/// `chacha20poly1305::ChaCha20Poly1305::decrypt` without associated data. The
/// result depends on key, nonce and ciphertext alone; where it is a message,
/// the ciphertext is what that message seals to. Lengths on which the key
/// stream runs out are left out, as above.
#[verifier::external_body]
fn open(key: &[u8; 32], nonce: &[u8; 12], sealed: &[u8]) -> (out: Result<Vec<u8>, CryptoError>)
    requires
        sealed@.len() <= MAX_STREAM + TAG_LEN || sealed@.len() >= REFUSED_FROM + TAG_LEN,
    ensures
        out is Ok <==> aead_open(key@, nonce@, sealed@) is Some,
        out matches Err(e) ==> e == CryptoError::Decrypt,
        out matches Ok(message) ==> {
            &&& aead_open(key@, nonce@, sealed@) == Some(message@)
            &&& aead_seal(key@, nonce@, message@) == sealed@
            &&& sealed@.len() == message@.len() + TAG_LEN
        },
{
    let cipher = chacha20poly1305::ChaCha20Poly1305::new(key.into());
    cipher.decrypt(nonce.into(), sealed).map_err(|_| CryptoError::Decrypt)
}

/// An X25519 key pair for a single party.
pub struct KeyPair {
    secret: [u8; 32],
    public: [u8; 32],
}

impl KeyPair {
    /// The secret half.
    pub closed spec fn secret(self) -> Seq<u8> {
        self.secret@
    }

    /// The public half.
    pub closed spec fn public(self) -> Seq<u8> {
        self.public@
    }

    /// Whether the public half belongs to the secret half.
    #[verifier::type_invariant]
    spec fn paired(self) -> bool {
        self.public@ == x25519_public(self.secret@)
    }

    /// Generate a new random X25519 key pair.
    pub fn generate() -> (pair: Self)
        ensures
            pair.secret().len() == KEY_LEN,
            pair.public() == x25519_public(pair.secret()),
    {
        Self::from_secret(random_secret())
    }

    /// The key pair with the given secret half.
    pub fn from_secret(secret: [u8; 32]) -> (pair: Self)
        ensures
            pair.secret() == secret@,
            pair.secret().len() == KEY_LEN,
            pair.public() == x25519_public(secret@),
    {
        let public: [u8; 32] = public_of(&secret);
        KeyPair { secret, public }
    }

    /// Return the public key bytes.
    pub fn public_key_bytes(&self) -> (bytes: [u8; 32])
        ensures
            bytes@ == self.public(),
            bytes@ == x25519_public(self.secret()),
            self.secret().len() == KEY_LEN,
    {
        proof {
            use_type_invariant(self);
        }
        self.public
    }

    /// Perform Diffie-Hellman to derive a shared secret with a peer.
    ///
    /// The peer derives the same one from our public key.
    pub fn diffie_hellman(&self, peer_public: &[u8; 32]) -> (shared: [u8; 32])
        ensures
            shared@ == x25519_shared(self.secret(), peer_public@),
            self.secret().len() == KEY_LEN,
            self.public() == x25519_public(self.secret()),
            forall|peer_secret: Seq<u8>|
                peer_secret.len() == 32 && #[trigger] x25519_public(peer_secret) == peer_public@
                    ==> shared@ == x25519_shared(peer_secret, self.public()),
    {
        proof {
            use_type_invariant(self);
        }
        shared_with(&self.secret, peer_public)
    }
}

/// The nonce for the packet with the given number: four zero bytes and the
/// number, least significant byte first.
pub open spec fn nonce_of(counter: u64) -> Seq<u8> {
    seq![0u8, 0u8, 0u8, 0u8] + codec::le_bytes(counter as nat, 8)
}

/// A packet with the given number: nonce and ciphertext.
pub open spec fn packet_of(key: Seq<u8>, counter: u64, message: Seq<u8>) -> Seq<u8> {
    nonce_of(counter) + aead_seal(key, nonce_of(counter), message)
}

/// The message in a packet, if the packet is authentic under the key.
pub open spec fn message_in(key: Seq<u8>, packet: Seq<u8>) -> Option<Seq<u8>> {
    if packet.len() < NONCE_LEN + TAG_LEN {
        None
    } else {
        aead_open(
            key,
            packet.subrange(0, NONCE_LEN as int),
            packet.subrange(NONCE_LEN as int, packet.len() as int),
        )
    }
}

/// Joins a nonce and a ciphertext to a packet.
pub fn join_packet(nonce: &[u8; 12], ciphertext: &[u8]) -> (packet: Vec<u8>)
    ensures
        packet@ == nonce@ + ciphertext@,
{
    let mut packet: Vec<u8> = Vec::new();
    codec::append(&mut packet, nonce.as_slice());
    codec::append(&mut packet, ciphertext);
    assert(packet@ =~= nonce@ + ciphertext@);
    packet
}

/// Splits a packet into its nonce and its ciphertext, if it is long enough
/// to hold a nonce and a tag.
pub fn split_packet(packet: &[u8]) -> (parts: Option<([u8; 12], &[u8])>)
    ensures
        parts is None <==> packet@.len() < NONCE_LEN + TAG_LEN,
        parts matches Some((nonce, ciphertext)) ==> {
            &&& nonce@ == packet@.subrange(0, NONCE_LEN as int)
            &&& ciphertext@ == packet@.subrange(NONCE_LEN as int, packet@.len() as int)
        },
{
    if packet.len() < NONCE_LEN + TAG_LEN {
        return None;
    }
    let nonce: [u8; 12] = [
        packet[0],
        packet[1],
        packet[2],
        packet[3],
        packet[4],
        packet[5],
        packet[6],
        packet[7],
        packet[8],
        packet[9],
        packet[10],
        packet[11],
    ];
    assert(nonce@ =~= packet@.subrange(0, NONCE_LEN as int));
    Some((nonce, vstd::slice::slice_subrange(packet, NONCE_LEN, packet.len())))
}

/// Session encryption state for a single communication direction.
pub struct SessionCipher {
    key: [u8; 32],
    counter: u64,
}

impl SessionCipher {
    /// The session key.
    pub closed spec fn key(self) -> Seq<u8> {
        self.key@
    }

    /// The number of the next packet.
    pub closed spec fn counter(self) -> u64 {
        self.counter
    }

    /// Create a new session cipher from a raw 32-byte shared secret.
    pub fn new(shared_secret: &[u8; 32], init_counter: u64) -> (cipher: Self)
        ensures
            cipher.key() == shared_secret@,
            cipher.counter() == init_counter,
    {
        SessionCipher { key: *shared_secret, counter: init_counter }
    }

    /// Encrypt a plaintext packet, returning the AEAD-authenticated ciphertext
    /// with the nonce prepended.
    ///
    /// Output format: `[nonce: 12 bytes][ciphertext: plaintext.len() + 16 bytes]`
    ///
    /// Returns `CryptoError::Encrypt` if the message is too long to be
    /// encrypted. The number of the packet is used up either way.
    pub fn encrypt(&mut self, plaintext: &[u8]) -> (out: Result<Vec<u8>, CryptoError>)
        requires
            plaintext@.len() <= MAX_STREAM || plaintext@.len() >= REFUSED_FROM,
        ensures
            final(self).key() == old(self).key(),
            final(self).counter() == (old(self).counter() + 1) % 0x1_0000_0000_0000_0000,
            out is Err <==> plaintext@.len() >= REFUSED_FROM,
            out matches Err(e) ==> e == CryptoError::Encrypt,
            out matches Ok(packet) ==> {
                &&& packet@ == packet_of(old(self).key(), old(self).counter(), plaintext@)
                &&& packet@.len() == NONCE_LEN + plaintext@.len() + TAG_LEN
                &&& message_in(old(self).key(), packet@) == Some(plaintext@)
            },
    {
        let nonce: [u8; 12] = self.next_nonce();
        let ciphertext: Vec<u8> = match seal(&self.key, &nonce, plaintext) {
            Ok(c) => c,
            Err(e) => return Err(e),
        };
        let packet: Vec<u8> = join_packet(&nonce, ciphertext.as_slice());
        proof {
            codec::lemma_le_bytes_len(old(self).counter as nat, 8);
            assert(packet@.subrange(0, NONCE_LEN as int) =~= nonce@);
            assert(packet@.subrange(NONCE_LEN as int, packet@.len() as int) =~= ciphertext@);
        }
        Ok(packet)
    }

    /// Decrypt a packet received from the peer.
    ///
    /// Expects input format: `[nonce: 12 bytes][ciphertext + tag]`
    ///
    /// Returns `CryptoError::Decrypt` if authentication fails.
    pub fn decrypt(&self, packet: &[u8]) -> (out: Result<Vec<u8>, CryptoError>)
        requires
            packet@.len() <= MAX_STREAM + NONCE_LEN + TAG_LEN || packet@.len() >= REFUSED_FROM
                + NONCE_LEN + TAG_LEN,
        ensures
            out is Ok <==> message_in(self.key(), packet@) is Some,
            out matches Err(e) ==> e == CryptoError::Decrypt,
            out matches Ok(message) ==> {
                &&& message_in(self.key(), packet@) == Some(message@)
                &&& packet@.len() == NONCE_LEN + message@.len() + TAG_LEN
                &&& packet@ == packet@.subrange(0, NONCE_LEN as int) + aead_seal(
                    self.key(),
                    packet@.subrange(0, NONCE_LEN as int),
                    message@,
                )
            },
    {
        match split_packet(packet) {
            Some((nonce, ciphertext)) => {
                assert(packet@ =~= nonce@ + ciphertext@);
                open(&self.key, &nonce, ciphertext)
            },
            None => Err(CryptoError::Decrypt),
        }
    }

    fn next_nonce(&mut self) -> (nonce: [u8; 12])
        ensures
            nonce@ == nonce_of(old(self).counter),
            final(self).key == old(self).key,
            final(self).counter == (old(self).counter + 1) % 0x1_0000_0000_0000_0000,
    {
        let c: u64 = self.counter;
        self.counter = self.counter.wrapping_add(1);
        let mut le: Vec<u8> = Vec::with_capacity(8);
        codec::push_le(&mut le, c, 8);
        proof {
            codec::lemma_le_bytes_len(c as nat, 8);
        }
        let nonce: [u8; 12] = [0, 0, 0, 0, le[0], le[1], le[2], le[3], le[4], le[5], le[6], le[7]];
        assert(nonce@ =~= nonce_of(c));
        nonce
    }
}

/// Packets with different numbers carry different nonces.
pub proof fn law_nonces_differ(a: u64, b: u64)
    requires
        a != b,
    ensures
        nonce_of(a) != nonce_of(b),
{
    codec::lemma_pow256_values();
    codec::lemma_le_value_of_bytes(a as nat, 8);
    codec::lemma_le_value_of_bytes(b as nat, 8);
    assert(nonce_of(a).subrange(4, 12) =~= codec::le_bytes(a as nat, 8)) by {
        codec::lemma_le_bytes_len(a as nat, 8);
    }
    assert(nonce_of(b).subrange(4, 12) =~= codec::le_bytes(b as nat, 8)) by {
        codec::lemma_le_bytes_len(b as nat, 8);
    }
}

/// A packet begins with its nonce: four zero bytes, and the packet's number with
/// the lowest byte first. What follows is the message, sealed under that nonce.
pub proof fn law_packet_begins_with_its_number(
    key: Seq<u8>,
    counter: u64,
    message: Seq<u8>,
    i: int,
)
    requires
        0 <= i < 8,
    ensures
        packet_of(key, counter, message).len() >= 12,
        packet_of(key, counter, message)[0] == 0,
        packet_of(key, counter, message)[1] == 0,
        packet_of(key, counter, message)[2] == 0,
        packet_of(key, counter, message)[3] == 0,
        packet_of(key, counter, message)[4 + i] == (counter as nat / codec::pow256(i as nat)) % 256,
        packet_of(key, counter, message).skip(12) == aead_seal(
            key,
            packet_of(key, counter, message).take(12),
            message,
        ),
{
    codec::law_bytes_are_digits(counter as nat, 8, i);
    let nonce = nonce_of(counter);
    let packet = packet_of(key, counter, message);
    assert(packet.take(12) =~= nonce);
    assert(packet.skip(12) =~= aead_seal(key, nonce, message));
}

/// A packet is opened with the nonce in its first twelve bytes; what is shorter
/// than a nonce and a tag of sixteen bytes is none.
pub proof fn law_packet_is_opened_with_its_own_nonce(key: Seq<u8>, packet: Seq<u8>)
    ensures
        packet.len() < 28 ==> message_in(key, packet) is None,
        packet.len() >= 28 ==> message_in(key, packet) == aead_open(
            key,
            packet.take(12),
            packet.skip(12),
        ),
{
    if packet.len() >= 28 {
        assert(packet.subrange(0, 12) =~= packet.take(12));
        assert(packet.subrange(12, packet.len() as int) =~= packet.skip(12));
    }
}

} // verus!
