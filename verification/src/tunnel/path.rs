//! Path management with P2P direct + relay fallback.

use vstd::prelude::*;

use crate::addr::{Datagram, SocketAddr};
use crate::codec;
use crate::error::{IoError, IoErrorKind};
use crate::key_exchange;
use crate::relay_proto;
use crate::relay_proto::{Frame, MAX_PAYLOAD};
use crate::tunnel::relay;
use crate::tunnel::relay::RelayClient;
use crate::tunnel::{Tunnel, TunnelError};

verus! {

pub const INITIAL_RETRY_MS: u64 = 200;

pub const MAX_RETRY_MS: u64 = 30_000;

pub const BACKOFF_MULTIPLIER: u64 = 2;

/// Path status for connectivity monitoring.
#[derive(Debug, Clone, Copy, PartialEq, Eq, Structural)]
pub enum PathStatus {
    /// Direct P2P is active.
    Direct,
    /// Fallen back to relay.
    Relay,
    /// Attempting to establish direct P2P.
    Probing,
}

/// Manages two communication paths to a peer:
/// - **Direct** tunnel (P2P, preferred)
/// - **Relay** fallback (via relay server)
///
/// On send, tries direct first; falls back to relay.
/// On recv, listens on the relay path (which always works).
/// Periodically probes the direct path to restore P2P, less often the more
/// probes fail.
pub struct PathManager {
    relay: RelayClient,
    direct_peer: SocketAddr,
    status: PathStatus,
    backoff_ms: u64,
    direct: Option<Tunnel>,
}

/// A received message bundle.
#[derive(Debug)]
pub struct RecvMessage {
    /// The decrypted payload.
    pub data: Vec<u8>,
    /// Which path delivered the message.
    pub via: &'static str,
}

/// The bytes of `PROBE`.
pub open spec fn probe_text() -> Seq<u8> {
    seq![0x50u8, 0x52u8, 0x4Fu8, 0x42u8, 0x45u8]
}

/// The bytes of `PING`.
pub open spec fn ping_text() -> Seq<u8> {
    seq![0x50u8, 0x49u8, 0x4Eu8, 0x47u8]
}

/// The bytes of `PONG`.
pub open spec fn pong_text() -> Seq<u8> {
    seq![0x50u8, 0x4Fu8, 0x4Eu8, 0x47u8]
}

/// How long to wait before the next probe once `failures` probes have failed
/// in a row.
pub open spec fn backoff_after(failures: nat) -> int
    decreases failures,
{
    if failures == 0 {
        INITIAL_RETRY_MS as int
    } else {
        next_backoff(backoff_after((failures - 1) as nat))
    }
}

/// The wait after one more failure: twice as long, up to a limit.
pub open spec fn next_backoff(ms: int) -> int {
    if ms * BACKOFF_MULTIPLIER < MAX_RETRY_MS {
        ms * BACKOFF_MULTIPLIER
    } else {
        MAX_RETRY_MS as int
    }
}

/// Whether a datagram carries a message to the relay, for the peer.
pub open spec fn relayed(client: RelayClient, message: Seq<u8>, d: Datagram) -> bool {
    &&& d.to == client.relay_addr
    &&& d.payload@ == Frame::data(client.our_id, client.peer_id, message).wire()
}

/// Whether the error is that the message is longer than a relay frame may
/// carry.
pub open spec fn is_too_large(e: TunnelError) -> bool {
    e matches TunnelError::Io(io) && io.kind == IoErrorKind::Other && io.message@
        == "payload too large"@
}

impl PathManager {
    /// The relay client.
    pub closed spec fn relay_client(self) -> RelayClient {
        self.relay
    }

    /// The peer's own address.
    pub closed spec fn peer(self) -> SocketAddr {
        self.direct_peer
    }

    /// The path that is in use.
    pub closed spec fn status(self) -> PathStatus {
        self.status
    }

    /// The wait before the next probe, in milliseconds.
    pub closed spec fn backoff(self) -> u64 {
        self.backoff_ms
    }

    /// The tunnel of the direct path, once it is established.
    pub closed spec fn tunnel(self) -> Option<Tunnel> {
        self.direct
    }

    /// The wait lies between its first value and its limit.
    #[verifier::type_invariant]
    spec fn backoff_in_range(self) -> bool {
        INITIAL_RETRY_MS <= self.backoff_ms <= MAX_RETRY_MS
    }

    /// Create a new path manager.
    ///
    /// Starts in `Relay` mode. Call `try_direct()` to attempt P2P.
    pub fn new(relay: RelayClient, direct_peer: SocketAddr) -> (m: Self)
        ensures
            m.relay_client() == relay,
            m.peer() == direct_peer,
            m.status() == PathStatus::Relay,
            m.backoff() == backoff_after(0),
            m.tunnel() is None,
    {
        PathManager {
            relay,
            direct_peer,
            status: PathStatus::Relay,
            backoff_ms: INITIAL_RETRY_MS,
            direct: None,
        }
    }

    /// Return the current path status.
    pub fn current_status(&self) -> (s: PathStatus)
        ensures
            s == self.status(),
    {
        self.status
    }

    /// Return how long to wait before the next probe, in milliseconds.
    pub fn backoff_ms(&self) -> (ms: u64)
        ensures
            ms == self.backoff(),
            INITIAL_RETRY_MS <= ms <= MAX_RETRY_MS,
    {
        proof {
            use_type_invariant(self);
        }
        self.backoff_ms
    }

    /// The probe that verifies the direct path, through a direct tunnel.
    pub fn probe(&self, direct_tunnel: &mut Tunnel) -> (out: Result<Datagram, TunnelError>)
        ensures
            out matches Ok(d) && d.to == self.peer() && key_exchange::message_in(
                old(direct_tunnel).tx_key(),
                d.payload@,
            ) == Some(probe_text()) && d.payload@ == key_exchange::packet_of(
                old(direct_tunnel).tx_key(),
                old(direct_tunnel).next_number(),
                probe_text(),
            ),
            final(direct_tunnel).tx_key() == old(direct_tunnel).tx_key(),
            final(direct_tunnel).rx_key() == old(direct_tunnel).rx_key(),
            final(direct_tunnel).bound_to() == old(direct_tunnel).bound_to(),
            final(direct_tunnel).next_number() == (old(direct_tunnel).next_number() + 1)
                % 0x1_0000_0000_0000_0000,
    {
        let text: [u8; 5] = [0x50, 0x52, 0x4F, 0x42, 0x45];
        assert(text@ =~= probe_text());
        direct_tunnel.send_to(text.as_slice(), self.direct_peer)
    }

    /// Attempt to establish a direct P2P tunnel: takes the tunnel, and how
    /// sending the probe through it went.
    ///
    /// On success, stores the tunnel and switches to `Direct` mode.
    /// On failure, reschedules with exponential backoff.
    pub fn try_direct(&mut self, direct_tunnel: Tunnel, sent: Result<(), TunnelError>) -> (r: Result<
        (),
        TunnelError,
    >)
        ensures
            r == sent,
            final(self).relay_client() == old(self).relay_client(),
            final(self).peer() == old(self).peer(),
            sent is Ok ==> {
                &&& final(self).status() == PathStatus::Direct
                &&& final(self).backoff() == backoff_after(0)
                &&& final(self).tunnel() == Some(direct_tunnel)
            },
            sent is Err ==> {
                &&& final(self).status() == old(self).status()
                &&& final(self).backoff() == next_backoff(old(self).backoff() as int)
                &&& final(self).tunnel() == old(self).tunnel()
            },
    {
        proof {
            use_type_invariant(&*self);
        }
        match sent {
            Ok(unit) => {
                self.status = PathStatus::Direct;
                self.backoff_ms = INITIAL_RETRY_MS;
                self.direct = Some(direct_tunnel);
                Ok(unit)
            },
            Err(e) => {
                let doubled: u64 = self.backoff_ms * BACKOFF_MULTIPLIER;
                if doubled < MAX_RETRY_MS {
                    self.backoff_ms = doubled;
                } else {
                    self.backoff_ms = MAX_RETRY_MS;
                }
                Err(e)
            },
        }
    }

    /// Send a plaintext message to the peer.
    ///
    /// Tries the direct tunnel first, also after a fall-back. If that fails,
    /// falls back to relay. Says which path the datagram takes, which is then the
    /// one in use; should it not get away on the direct path, `fall_back` gives
    /// the one for the relay.
    pub fn send(&mut self, plaintext: &[u8]) -> (out: Result<(Datagram, PathStatus), TunnelError>)
        requires
            old(self).tunnel() is Some ==> plaintext@.len() <= key_exchange::MAX_STREAM
                || plaintext@.len() >= key_exchange::REFUSED_FROM,
        ensures
            final(self).relay_client() == old(self).relay_client(),
            final(self).peer() == old(self).peer(),
            final(self).status() == match out {
                Ok((_, path)) => path,
                Err(_) => old(self).status(),
            },
            final(self).backoff() == old(self).backoff(),
            final(self).tunnel() is Some <==> old(self).tunnel() is Some,
            old(self).tunnel() matches Some(t) ==> final(self).tunnel() matches Some(after)
                && after.tx_key() == t.tx_key() && after.rx_key() == t.rx_key()
                && after.bound_to() == t.bound_to() && after.next_number() == (t.next_number() + 1)
                % 0x1_0000_0000_0000_0000,
            old(self).tunnel() is Some && plaintext@.len() < key_exchange::REFUSED_FROM ==> (
            out matches Ok((d, path)) && path == PathStatus::Direct && d.to == old(self).peer()
                && d.payload@ == key_exchange::packet_of(
                (old(self).tunnel()->0).tx_key(),
                (old(self).tunnel()->0).next_number(),
                plaintext@,
            ) && key_exchange::message_in((old(self).tunnel()->0).tx_key(), d.payload@) == Some(
                plaintext@,
            )),
            old(self).tunnel() is None || plaintext@.len() >= key_exchange::REFUSED_FROM ==> {
                &&& out is Ok <==> plaintext@.len() <= MAX_PAYLOAD
                &&& out matches Ok((d, path)) ==> path == PathStatus::Relay && relayed(
                    old(self).relay_client(),
                    plaintext@,
                    d,
                )
                &&& out matches Err(e) ==> is_too_large(e)
            },
    {
        proof {
            use_type_invariant(&*self);
        }
        let mut direct: Option<Tunnel> = None;
        std::mem::swap(&mut direct, &mut self.direct);
        if let Some(mut tunnel) = direct {
            let packet = tunnel.send_to(plaintext, self.direct_peer);
            self.direct = Some(tunnel);
            if let Ok(d) = packet {
                self.status = PathStatus::Direct;
                return Ok((d, PathStatus::Direct));
            }
        }
        match self.fall_back(plaintext) {
            Ok(d) => Ok((d, PathStatus::Relay)),
            Err(e) => Err(e),
        }
    }

    /// The message by way of the relay, which is then the path in use. The
    /// direct tunnel stays, so that the next message tries it again.
    ///
    /// Fails if the message is longer than a relay frame may carry.
    pub fn fall_back(&mut self, plaintext: &[u8]) -> (out: Result<Datagram, TunnelError>)
        ensures
            out is Ok <==> plaintext@.len() <= MAX_PAYLOAD,
            out matches Ok(d) ==> relayed(old(self).relay_client(), plaintext@, d),
            out matches Err(e) ==> is_too_large(e),
            final(self).status() == if out is Ok {
                PathStatus::Relay
            } else {
                old(self).status()
            },
            final(self).relay_client() == old(self).relay_client(),
            final(self).peer() == old(self).peer(),
            final(self).backoff() == old(self).backoff(),
            final(self).tunnel() == old(self).tunnel(),
    {
        proof {
            use_type_invariant(&*self);
        }
        match self.relay.send(plaintext) {
            Ok(d) => {
                self.status = PathStatus::Relay;
                Ok(d)
            },
            Err(e) => Err(TunnelError::Io(e)),
        }
    }

    /// A message from the relay path, if the bytes that arrived are one. The
    /// sender's own address is not known there; the peer's is given.
    pub fn recv(&self, data: &[u8]) -> (out: Option<(Vec<u8>, SocketAddr)>)
        ensures
            out is Some <==> relay::delivered(self.relay_client().peer_id, data@) is Some,
            out matches Some((message, from)) ==> {
                &&& relay::delivered(self.relay_client().peer_id, data@) == Some(message@)
                &&& from == self.peer()
            },
    {
        match self.relay.recv(data) {
            Some((message, _sender)) => Some((message, self.direct_peer)),
            None => None,
        }
    }

    /// Return a reference to the relay client.
    pub fn relay(&self) -> (client: &RelayClient)
        ensures
            *client == self.relay_client(),
    {
        &self.relay
    }

    /// Consume the path manager, returning the relay client.
    pub fn into_relay(self) -> (client: RelayClient)
        ensures
            client == self.relay_client(),
    {
        self.relay
    }
}

/// How waiting for the answer to a ping ended.
#[derive(Debug, Clone)]
pub enum PingEvent {
    /// A packet arrived and was decrypted.
    Received(Vec<u8>),
    /// No packet arrived in time.
    PongTimedOut,
    /// The whole exchange took too long.
    PingTimedOut,
    /// Sending or receiving failed.
    Failed(TunnelError),
}

/// Whether a packet answers a ping.
pub open spec fn is_pong(data: Seq<u8>) -> bool {
    data.len() >= 4 && data.subrange(0, 4) == pong_text()
}

/// The ping of a keepalive probe, through a tunnel.
pub fn ping(tunnel: &mut Tunnel, peer: SocketAddr) -> (out: Result<Datagram, TunnelError>)
    ensures
        out matches Ok(d) && d.to == peer && key_exchange::message_in(
            old(tunnel).tx_key(),
            d.payload@,
        ) == Some(ping_text()) && d.payload@ == key_exchange::packet_of(
            old(tunnel).tx_key(),
            old(tunnel).next_number(),
            ping_text(),
        ),
        final(tunnel).tx_key() == old(tunnel).tx_key(),
        final(tunnel).rx_key() == old(tunnel).rx_key(),
        final(tunnel).bound_to() == old(tunnel).bound_to(),
        final(tunnel).next_number() == (old(tunnel).next_number() + 1) % 0x1_0000_0000_0000_0000,
{
    let text: [u8; 4] = [0x50, 0x49, 0x4E, 0x47];
    assert(text@ =~= ping_text());
    tunnel.send_to(text.as_slice(), peer)
}

/// A keepalive ping-pong probe for tunnel health checking.
///
/// A "PING" was sent; a "PONG" within the timeout is healthy, and nothing
/// else is.
pub fn ping_pong(event: PingEvent) -> (r: Result<(), TunnelError>)
    ensures
        match event {
            PingEvent::Received(data) => if is_pong(data@) {
                r is Ok
            } else {
                r matches Err(TunnelError::Io(e)) && e.kind == IoErrorKind::ConnectionRefused
                    && e.message@ == "unexpected pong"@
            },
            PingEvent::PongTimedOut => r matches Err(TunnelError::Io(e)) && e.kind
                == IoErrorKind::TimedOut && e.message@ == "pong timeout"@,
            PingEvent::PingTimedOut => r matches Err(TunnelError::Io(e)) && e.kind
                == IoErrorKind::TimedOut && e.message@ == "ping timeout"@,
            PingEvent::Failed(e) => r == Err::<(), TunnelError>(e),
        },
{
    match event {
        PingEvent::Received(data) => {
            let pong: [u8; 4] = [0x50, 0x4F, 0x4E, 0x47];
            assert(pong@ =~= pong_text());
            if data.len() >= 4 && codec::bytes_equal(
                vstd::slice::slice_subrange(data.as_slice(), 0, 4),
                pong.as_slice(),
            ) {
                Ok(())
            } else {
                Err(
                    TunnelError::Io(
                        IoError::new(IoErrorKind::ConnectionRefused, "unexpected pong"),
                    ),
                )
            }
        },
        PingEvent::PongTimedOut => Err(
            TunnelError::Io(IoError::new(IoErrorKind::TimedOut, "pong timeout")),
        ),
        PingEvent::PingTimedOut => Err(
            TunnelError::Io(IoError::new(IoErrorKind::TimedOut, "ping timeout")),
        ),
        PingEvent::Failed(e) => Err(e),
    }
}

/// The wait doubles with every failure until it reaches its limit, and stays
/// there.
pub proof fn law_backoff_doubles_up_to_the_limit(failures: nat)
    ensures
        failures <= 7 ==> backoff_after(failures) == INITIAL_RETRY_MS
            * vstd::arithmetic::power2::pow2(failures),
        failures >= 8 ==> backoff_after(failures) == MAX_RETRY_MS,
    decreases failures,
{
    vstd::arithmetic::power2::lemma2_to64();
    if failures > 0 {
        law_backoff_doubles_up_to_the_limit((failures - 1) as nat);
        if failures <= 8 {
            vstd::arithmetic::power2::lemma_pow2_unfold(failures);
        }
    }
}

/// An answer to a ping counts if it begins with the letters P, O, N and G,
/// whatever comes behind them.
pub proof fn law_pong_is_known_by_its_first_letters(data: Seq<u8>)
    ensures
        is_pong(data) <==> data.len() >= 4 && data[0] == 'P' as u8 && data[1] == 'O' as u8
            && data[2] == 'N' as u8 && data[3] == 'G' as u8,
        ping_text().len() == 4,
        ping_text()[0] == 'P' as u8,
        ping_text()[1] == 'I' as u8,
        ping_text()[2] == 'N' as u8,
        ping_text()[3] == 'G' as u8,
        !is_pong(ping_text()),
        !is_pong(probe_text()),
{
    if data.len() >= 4 {
        let front = data.subrange(0, 4);
        if data[0] == 0x50 && data[1] == 0x4F && data[2] == 0x4E && data[3] == 0x47 {
            assert(front =~= pong_text());
        }
        if front == pong_text() {
            assert(front[0] == data[0] && front[1] == data[1] && front[2] == data[2] && front[3]
                == data[3]);
        }
    }
    let ping = ping_text().subrange(0, 4);
    assert(ping[1] == 0x49 && pong_text()[1] == 0x4F);
    let probe = probe_text().subrange(0, 4);
    assert(probe[1] == 0x52);
}

/// The wait is 200 milliseconds at first, twice as long after each failure, and
/// never longer than 30 seconds.
pub proof fn law_wait_doubles_from_a_fifth_of_a_second(failures: nat)
    ensures
        backoff_after(0) == 200,
        backoff_after(failures + 1) == if backoff_after(failures) * 2 < 30_000 {
            backoff_after(failures) * 2
        } else {
            30_000
        },
        200 <= backoff_after(failures) <= 30_000,
    decreases failures,
{
    if failures > 0 {
        law_wait_doubles_from_a_fifth_of_a_second((failures - 1) as nat);
    }
}

/// What goes through the relay is a data frame from us to the peer, with the
/// message as its payload.
pub proof fn law_relayed_message_is_for_the_peer(
    client: RelayClient,
    message: Seq<u8>,
    d: Datagram,
)
    requires
        relayed(client, message, d),
        message.len() <= 2048,
    ensures
        d.to == client.relay_addr,
        d.payload@.len() == 36 + message.len(),
        d.payload@[1] == 2,
        d.payload@.subrange(2, 18) == client.our_id@,
        d.payload@.subrange(18, 34) == client.peer_id@,
        forall|i: int| 0 <= i < message.len() ==> #[trigger] d.payload@[36 + i] == message[i],
{
    relay_proto::law_wire_bytes(Frame::data(client.our_id, client.peer_id, message));
}

/// A probe that got away makes the path direct, through the tunnel that was
/// probed, and starts the wait over; one that did not leaves the path as it was,
/// and doubles the wait up to half a minute.
pub proof fn law_try_direct(
    m: &mut PathManager,
    direct_tunnel: Tunnel,
    sent: Result<(), TunnelError>,
    r: Result<(), TunnelError>,
)
    requires
        call_ensures(PathManager::try_direct, (m, direct_tunnel, sent), r),
    ensures
        r == sent,
        sent is Ok ==> {
            &&& final(m).status() == PathStatus::Direct
            &&& final(m).backoff() == 200
            &&& final(m).tunnel() == Some(direct_tunnel)
        },
        sent is Err ==> {
            &&& final(m).status() == old(m).status()
            &&& final(m).tunnel() == old(m).tunnel()
            &&& old(m).backoff() * 2 < 30_000 ==> final(m).backoff() == old(m).backoff() * 2
            &&& old(m).backoff() * 2 >= 30_000 ==> final(m).backoff() == 30_000
        },
        final(m).relay_client() == old(m).relay_client(),
        final(m).peer() == old(m).peer(),
{
    law_wait_doubles_from_a_fifth_of_a_second(0);
}

/// A tunnel is healthy if what comes back in time begins with PONG, and not
/// otherwise.
pub proof fn law_ping_pong(event: PingEvent, r: Result<(), TunnelError>)
    requires
        call_ensures(ping_pong, (event,), r),
    ensures
        r is Ok <==> (event matches PingEvent::Received(data) && data@.len() >= 4 && data@[0]
            == 'P' as u8 && data@[1] == 'O' as u8 && data@[2] == 'N' as u8 && data@[3]
            == 'G' as u8),
{
    if let PingEvent::Received(data) = event {
        law_pong_is_known_by_its_first_letters(data@);
    }
}

} // verus!
