//! Encrypted UDP tunnels, the paths they take and the relays they fall back
//! to.

use vstd::prelude::*;

use crate::addr::{Datagram, SocketAddr};
use crate::error::IoError;
use crate::key_exchange;
use crate::key_exchange::{CryptoError, SessionCipher};

pub mod path;
pub mod relay;
pub mod relay_pool;

verus! {

/// Nonce starting offset for the responder's send direction,
/// preventing nonce reuse when both peers share the same encryption key.
pub const RESPONDER_TX_OFFSET: u64 = 0x1_0000_0000;

/// The largest packet that is taken from the network.
pub const MAX_PACKET: usize = 65536;

/// Tunnel operation errors.
#[derive(Debug, Clone, PartialEq, Eq)]
pub enum TunnelError {
    /// I/O error on the underlying UDP socket.
    Io(IoError),
    /// Cryptographic operation failed.
    Crypto(CryptoError),
}

/// An encrypted UDP tunnel between two nodes.
///
/// Each direction uses its own nonce space to prevent nonce reuse.
/// Packets are encrypted with ChaCha20-Poly1305 (AEAD) using a key
/// derived from an X25519 Diffie-Hellman shared secret.
pub struct Tunnel {
    local_addr: SocketAddr,
    tx_cipher: SessionCipher,
    rx_cipher: SessionCipher,
}

impl Tunnel {
    /// Where the tunnel is bound.
    pub closed spec fn bound_to(self) -> SocketAddr {
        self.local_addr
    }

    /// The key under which packets are sent.
    pub closed spec fn tx_key(self) -> Seq<u8> {
        self.tx_cipher.key()
    }

    /// The key under which packets are received.
    pub closed spec fn rx_key(self) -> Seq<u8> {
        self.rx_cipher.key()
    }

    /// The number of the next packet to be sent.
    pub closed spec fn next_number(self) -> u64 {
        self.tx_cipher.counter()
    }

    /// A tunnel at a local UDP address, as the **initiator** (send nonces
    /// start at 0).
    pub fn bind_initiator(local_addr: SocketAddr, shared_secret: &[u8; 32]) -> (t: Self)
        ensures
            t.bound_to() == local_addr,
            t.tx_key() == shared_secret@,
            t.rx_key() == shared_secret@,
            t.next_number() == 0,
    {
        Self::bind_with_nonce(local_addr, shared_secret, 0)
    }

    /// A tunnel at a local UDP address, as the **responder** (send nonces
    /// start at `RESPONDER_TX_OFFSET`).
    pub fn bind_responder(local_addr: SocketAddr, shared_secret: &[u8; 32]) -> (t: Self)
        ensures
            t.bound_to() == local_addr,
            t.tx_key() == shared_secret@,
            t.rx_key() == shared_secret@,
            t.next_number() == RESPONDER_TX_OFFSET,
    {
        Self::bind_with_nonce(local_addr, shared_secret, RESPONDER_TX_OFFSET)
    }

    fn bind_with_nonce(
        local_addr: SocketAddr,
        shared_secret: &[u8; 32],
        tx_nonce_start: u64,
    ) -> (t: Self)
        ensures
            t.bound_to() == local_addr,
            t.tx_key() == shared_secret@,
            t.rx_key() == shared_secret@,
            t.next_number() == tx_nonce_start,
    {
        let tx_cipher = SessionCipher::new(shared_secret, tx_nonce_start);
        let rx_cipher = SessionCipher::new(shared_secret, 0);
        Tunnel { local_addr, tx_cipher, rx_cipher }
    }

    /// Return the local socket address.
    pub fn local_addr(&self) -> (addr: SocketAddr)
        ensures
            addr == self.bound_to(),
    {
        self.local_addr
    }

    /// Encrypt `plaintext` for `peer`.
    ///
    /// Whoever holds the same key reads the plaintext out of the packet.
    pub fn send_to(&mut self, plaintext: &[u8], peer: SocketAddr) -> (out: Result<
        Datagram,
        TunnelError,
    >)
        requires
            plaintext@.len() <= key_exchange::MAX_STREAM || plaintext@.len()
                >= key_exchange::REFUSED_FROM,
        ensures
            final(self).bound_to() == old(self).bound_to(),
            final(self).tx_key() == old(self).tx_key(),
            final(self).rx_key() == old(self).rx_key(),
            final(self).next_number() == (old(self).next_number() + 1) % 0x1_0000_0000_0000_0000,
            out is Err <==> plaintext@.len() >= key_exchange::REFUSED_FROM,
            out matches Err(e) ==> e == TunnelError::Crypto(CryptoError::Encrypt),
            out matches Ok(d) ==> {
                &&& d.to == peer
                &&& d.payload@ == key_exchange::packet_of(
                    old(self).tx_key(),
                    old(self).next_number(),
                    plaintext@,
                )
                &&& d.payload@.len() == plaintext@.len() + 28
                &&& key_exchange::message_in(old(self).tx_key(), d.payload@) == Some(plaintext@)
            },
    {
        match self.tx_cipher.encrypt(plaintext) {
            Ok(payload) => Ok(Datagram { to: peer, payload }),
            Err(e) => Err(TunnelError::Crypto(e)),
        }
    }

    /// Decrypt a packet that `peer` sent, and return the plaintext together
    /// with the sender's address.
    pub fn recv_from(&self, packet: &[u8], peer: SocketAddr) -> (out: Result<
        (Vec<u8>, SocketAddr),
        TunnelError,
    >)
        requires
            packet@.len() <= MAX_PACKET,
        ensures
            out is Ok <==> key_exchange::message_in(self.rx_key(), packet@) is Some,
            out matches Err(e) ==> e == TunnelError::Crypto(CryptoError::Decrypt),
            out matches Ok((plaintext, from)) ==> {
                &&& from == peer
                &&& key_exchange::message_in(self.rx_key(), packet@) == Some(plaintext@)
            },
    {
        match self.rx_cipher.decrypt(packet) {
            Ok(plaintext) => Ok((plaintext, peer)),
            Err(e) => Err(TunnelError::Crypto(e)),
        }
    }
}

/// The number of the packet that is sent after `n` others, when the first
/// one has the number `start`.
pub open spec fn packet_number(start: u64, n: nat) -> u64 {
    ((start + n) % 0x1_0000_0000_0000_0000) as u64
}

/// The numbers go up one by one.
pub proof fn lemma_packet_number_step(start: u64, n: nat)
    ensures
        packet_number(start, n + 1) == packet_number(packet_number(start, n), 1),
{
    let m = 0x1_0000_0000_0000_0000int;
    vstd::arithmetic::div_mod::lemma_add_mod_noop(start + n, 1, m);
    vstd::arithmetic::div_mod::lemma_mod_bound(start + n, m);
    vstd::arithmetic::div_mod::lemma_small_mod(1, m as nat);
}

/// The packets of the two directions of a tunnel never share a nonce, as
/// long as the initiator has sent fewer than 2^32 packets and the responder
/// has not come round to the initiator's numbers.
pub proof fn law_directions_never_share_a_nonce(i: nat, j: nat)
    requires
        i < RESPONDER_TX_OFFSET,
        j < 0x1_0000_0000_0000_0000 - RESPONDER_TX_OFFSET,
    ensures
        key_exchange::nonce_of(packet_number(0, i)) != key_exchange::nonce_of(
            packet_number(RESPONDER_TX_OFFSET, j),
        ),
{
    key_exchange::law_nonces_differ(
        packet_number(0, i),
        packet_number(RESPONDER_TX_OFFSET, j),
    );
}

/// No two of the first 2^64 packets of one direction share a nonce.
pub proof fn law_direction_never_repeats_a_nonce(start: u64, i: nat, j: nat)
    requires
        i < j < i + 0x1_0000_0000_0000_0000,
    ensures
        key_exchange::nonce_of(packet_number(start, i)) != key_exchange::nonce_of(
            packet_number(start, j),
        ),
{
    key_exchange::law_nonces_differ(packet_number(start, i), packet_number(start, j));
}

/// The initiator numbers its packets from zero on and the responder from 2^32 on,
/// one by one: the first 2^32 numbers are the initiator's.
pub proof fn law_numbers_of_the_two_directions(n: nat)
    requires
        n < 0xFFFF_FFFF_0000_0000,
    ensures
        packet_number(0, n) == n,
        packet_number(RESPONDER_TX_OFFSET, n) == 0x1_0000_0000 + n,
{
}

/// What one end of a tunnel sends, the other end reads: the plaintext, with the
/// address that it came from. Each packet has the number after that of the one
/// before.
pub proof fn law_sent_is_received(
    sender: &mut Tunnel,
    plaintext: &[u8],
    peer: SocketAddr,
    d: Datagram,
    receiver: Tunnel,
    from: SocketAddr,
    packet: &[u8],
    out: Result<(Vec<u8>, SocketAddr), TunnelError>,
)
    requires
        call_ensures(
            Tunnel::send_to,
            (sender, plaintext, peer),
            Ok::<Datagram, TunnelError>(d),
        ),
        receiver.rx_key() == old(sender).tx_key(),
        packet@ == d.payload@,
        call_ensures(Tunnel::recv_from, (&receiver, packet, from), out),
    ensures
        d.to == peer,
        out matches Ok((read, seen)) && read@ == plaintext@ && seen == from,
        old(sender).next_number() < u64::MAX ==> final(sender).next_number() == old(sender).next_number() + 1,
        final(sender).tx_key() == old(sender).tx_key(),
{
}

} // verus!
