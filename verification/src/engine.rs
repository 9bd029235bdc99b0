//! The tunnel engine of the mobile apps: which peers there are, where packets
//! go, how they are encrypted, and how often to look for them.

use vstd::prelude::*;

use crate::acl;
use crate::addr;
use crate::addr::{Datagram, Ipv4Addr, SocketAddr};
use crate::codec;
use crate::error::{IoError, IoErrorKind};
use crate::key_exchange;
use crate::key_exchange::{CryptoError, KeyPair, SessionCipher, NONCE_LEN, TAG_LEN};
use crate::relay_proto;
use crate::relay_proto::{Frame, MsgType, PeerId, MAX_PAYLOAD};
use crate::text;
use crate::tunnel;
use crate::tunnel::relay;
use crate::tunnel::relay::RelayClient;
use crate::tunnel::RESPONDER_TX_OFFSET;

verus! {

/// How many packets wait for a reconnection at most.
pub const MAX_QUEUED_PACKETS: usize = 256;

/// The longest packet that fits into a relay frame once it is encrypted.
pub const MAX_PLAIN_PACKET: usize = MAX_PAYLOAD - NONCE_LEN - TAG_LEN;

/// A second in nanoseconds.
pub const NANOS_PER_SEC: u128 = 1_000_000_000;

/// Connection state for the mobile engine.
#[derive(Debug, Clone, Copy, PartialEq, Eq, Structural)]
pub enum ConnState {
    Connected,
    Reconnecting,
}

/// Activity level for battery optimization.
#[derive(Debug, Clone, Copy, PartialEq, Eq, Structural)]
pub enum ActivityLevel {
    /// Active traffic — frequent polling, low latency
    Active,
    /// Light traffic — moderate polling
    Idle,
    /// No recent traffic — slow polling, maximum battery save
    Sleep,
}

impl ActivityLevel {
    /// The poll interval of a level, in milliseconds.
    pub open spec fn poll_ms(self) -> u64 {
        match self {
            ActivityLevel::Active => 10,
            ActivityLevel::Idle => 100,
            ActivityLevel::Sleep => 500,
        }
    }

    /// The keepalive interval of a level, in seconds.
    pub open spec fn keepalive_secs(self) -> u64 {
        match self {
            ActivityLevel::Active => 30,
            ActivityLevel::Idle => 60,
            ActivityLevel::Sleep => 120,
        }
    }

    /// Poll interval for inbound packet checking (milliseconds).
    pub fn poll_interval_ms(self) -> (ms: u64)
        ensures
            ms == self.poll_ms(),
    {
        match self {
            ActivityLevel::Active => 10,
            ActivityLevel::Idle => 100,
            ActivityLevel::Sleep => 500,
        }
    }

    /// Keepalive interval for relay registration refresh (seconds).
    pub fn keepalive_interval_secs(self) -> (secs: u64)
        ensures
            secs == self.keepalive_secs(),
    {
        match self {
            ActivityLevel::Active => 30,
            ActivityLevel::Idle => 60,
            ActivityLevel::Sleep => 120,
        }
    }
}

/// The activity level after so many seconds without traffic.
pub open spec fn level_after(secs: u128) -> ActivityLevel {
    if secs < 5 {
        ActivityLevel::Active
    } else if secs < 30 {
        ActivityLevel::Idle
    } else {
        ActivityLevel::Sleep
    }
}

/// Why the engine could not do what it was asked to.
#[derive(Debug, Clone)]
pub enum EngineError {
    /// The engine was not started yet.
    NotInitialized,
    /// The packet is no IPv4 packet.
    InvalidPacket,
    /// No peer has that address.
    NoRoute(Ipv4Addr),
    /// An address that the control service gave cannot be read.
    BadAddress,
    /// No peer has sent anything.
    NoData,
    /// The packet cannot be sent.
    Io(IoError),
    /// The packet cannot be encrypted.
    Crypto(CryptoError),
}

/// What the control service says of a peer.
#[derive(Debug, Clone)]
pub struct PeerEntry {
    pub device_id: PeerId,
    pub ipv4: String,
    pub public_key: [u8; 32],
}

/// A peer that is connected through the relay.
#[derive(Clone, Copy)]
pub struct PeerState {
    /// The peer's identifier.
    pub id: PeerId,
    /// The peer's virtual address.
    pub vip: Ipv4Addr,
    /// The client that reaches the peer.
    pub relay: RelayClient,
    /// The key that we share with the peer.
    pub key: [u8; 32],
}

/// What to do about an entry of the peer list.
#[derive(Clone)]
pub enum PeerPlan {
    /// Nothing: it is ourselves, or a peer that is connected.
    Skip,
    /// Register with the relay by sending the HELLO, and then add the peer.
    Register { peer: PeerState, hello: Datagram },
}

/// A peer list that is being worked through, entry by entry.
#[derive(Clone)]
pub struct PeerRun {
    /// The list.
    pub entries: Vec<PeerEntry>,
    /// Whether peers that are connected register anew.
    pub anew: bool,
    /// How many entries are done.
    pub at: usize,
    /// The peer of the entry at hand, while it registers with the relay.
    pub pending: Option<PeerState>,
    /// How many peers were added.
    pub count: usize,
}

/// How working through a peer list goes on.
#[derive(Debug, Clone)]
pub enum RunAction {
    /// Register with the relay by sending this HELLO.
    Register(Datagram),
    /// The list is done; so many peers were added.
    Done(usize),
    /// An address in the list cannot be read.
    Failed(EngineError),
}

/// What became of a packet for a peer.
#[derive(Debug, Clone)]
pub enum SendAction {
    /// Send this.
    Send(Datagram),
    /// The packet waits for the reconnection.
    Queued,
    /// Too many packets wait already: it is dropped.
    Dropped,
}

/// What happened while a peer was polled.
#[derive(Debug, Clone)]
pub enum PollEvent {
    /// A datagram arrived.
    Arrived(Vec<u8>),
    /// The time is up, or receiving failed.
    NoMore,
}

/// How polling the peers goes on.
#[derive(Debug, Clone)]
pub enum PollAction {
    /// Poll the peer with this index.
    Poll(usize),
    /// A packet arrived, and was decrypted.
    Deliver(Vec<u8>),
    /// No peer has sent anything.
    NoData,
}

/// Persistent state for the mobile tunnel engine.
pub struct TunnelEngine {
    /// Our key pair.
    pub keypair: KeyPair,
    /// Our identifier.
    pub our_id: PeerId,
    /// Our virtual address.
    pub our_ip: Ipv4Addr,
    /// The relay server.
    pub relay_server: SocketAddr,
    /// The peers, each once.
    pub peers: Vec<PeerState>,
    /// Whether the network has just changed.
    pub state: ConnState,
    /// How much traffic there is.
    pub activity: ActivityLevel,
    /// When there was traffic last, in nanoseconds.
    pub last_traffic: u128,
    /// Packets queued during reconnection.
    pub outbound_queue: Vec<(Vec<u8>, Ipv4Addr)>,
    /// How many packets were encrypted, for whichever peer.
    pub sent: u64,
}

/// The client through which an engine reaches a peer.
pub open spec fn client_of(our_id: PeerId, relay_server: SocketAddr, peer: PeerId) -> RelayClient {
    RelayClient { relay_addr: relay_server, our_id, peer_id: peer }
}

/// No peer is connected twice.
pub open spec fn distinct(peers: Seq<PeerState>) -> bool {
    forall|i: int, j: int|
        0 <= i < j < peers.len() ==> (#[trigger] peers[i]).id != (#[trigger] peers[j]).id
}

/// Whether a peer is connected.
pub open spec fn knows(peers: Seq<PeerState>, id: PeerId) -> bool {
    exists|i: int| 0 <= i < peers.len() && (#[trigger] peers[i]).id == id
}

/// Whether some peer has that virtual address.
pub open spec fn routes(peers: Seq<PeerState>, dst: Ipv4Addr) -> bool {
    exists|i: int| 0 <= i < peers.len() && (#[trigger] peers[i]).vip == dst
}

/// The number of the first packet that goes from one device to another: each
/// direction between two devices has its own numbers. The device with the
/// lower identifier takes those of the initiator.
pub open spec fn first_number(from: PeerId, to: PeerId) -> u64 {
    if from.bits < to.bits {
        0
    } else {
        RESPONDER_TX_OFFSET
    }
}

/// The number of a packet to a peer once `sent` others were encrypted.
pub open spec fn number_for(peer: PeerState, sent: u64) -> u64 {
    tunnel::packet_number(first_number(peer.relay.our_id, peer.relay.peer_id), sent as nat)
}

/// Whether a datagram carries the packet to the relay, for that peer: encrypted
/// under the key that is shared with the peer, and with the given number.
pub open spec fn carries(peer: PeerState, number: u64, packet: Seq<u8>, d: Datagram) -> bool {
    let sealed = key_exchange::packet_of(peer.key@, number, packet);
    &&& d.to == peer.relay.relay_addr
    &&& d.payload@ == Frame::data(peer.relay.our_id, peer.relay.peer_id, sealed).wire()
    &&& sealed.len() == packet.len() + NONCE_LEN + TAG_LEN
    &&& key_exchange::message_in(peer.key@, sealed) == Some(packet)
}

/// Whether a datagram carries the packet to some peer with that address.
pub open spec fn goes_to(
    peers: Seq<PeerState>,
    sent: u64,
    packet: Seq<u8>,
    dst: Ipv4Addr,
    d: Datagram,
) -> bool {
    exists|i: int|
        0 <= i < peers.len() && (#[trigger] peers[i]).vip == dst && carries(
            peers[i],
            number_for(peers[i], sent),
            packet,
            d,
        )
}

/// What is read out of the bytes that arrive from a peer: the packet in a
/// message of that peer, if it is authentic; nothing of anything else.
pub open spec fn received(peer: PeerState, data: Seq<u8>) -> Option<Seq<u8>> {
    match relay::delivered(peer.relay.peer_id, data) {
        Some(sealed) => key_exchange::message_in(peer.key@, sealed),
        None => None,
    }
}

/// Whether `key` is what we share with the holder of a public key: they derive
/// the same from ours.
pub open spec fn is_shared(ours: KeyPair, public: Seq<u8>, key: Seq<u8>) -> bool {
    &&& key == key_exchange::x25519_shared(ours.secret(), public)
    &&& forall|peer_secret: Seq<u8>|
        peer_secret.len() == 32 && #[trigger] key_exchange::x25519_public(peer_secret) == public
            ==> key == key_exchange::x25519_shared(peer_secret, ours.public())
}

/// Whether `r` is what becomes of a packet that is to be sent now: it goes to
/// a peer with its address, if there is one and the packet is not too long.
pub open spec fn routed(
    peers: Seq<PeerState>,
    sent: u64,
    packet: Seq<u8>,
    dst: Ipv4Addr,
    r: Result<Datagram, EngineError>,
) -> bool {
    if !routes(peers, dst) {
        r matches Err(EngineError::NoRoute(ip)) && ip == dst
    } else if packet.len() > MAX_PLAIN_PACKET {
        r matches Err(EngineError::Io(e)) && e.kind == IoErrorKind::Other && e.message@
            == "payload too large"@
    } else {
        r matches Ok(d) && goes_to(peers, sent, packet, dst, d)
    }
}

/// How many of the packets were sent.
pub open spec fn sent_among(outcomes: Seq<Result<Datagram, EngineError>>) -> nat
    decreases outcomes.len(),
{
    if outcomes.len() == 0 {
        0
    } else {
        sent_among(outcomes.drop_last()) + if outcomes.last() is Ok {
            1nat
        } else {
            0
        }
    }
}

/// The contents of the queue.
pub open spec fn queue_view(queue: Seq<(Vec<u8>, Ipv4Addr)>) -> Seq<(Seq<u8>, Ipv4Addr)> {
    Seq::new(queue.len(), |i: int| (queue[i].0@, queue[i].1))
}

/// Whether each outcome is that of the packet at its place in the queue, when
/// they are sent in order and `sent` packets were sent before.
pub open spec fn all_routed(
    peers: Seq<PeerState>,
    sent: u64,
    queue: Seq<(Seq<u8>, Ipv4Addr)>,
    outcomes: Seq<Result<Datagram, EngineError>>,
) -> bool {
    forall|i: int|
        0 <= i < outcomes.len() ==> routed(
            peers,
            tunnel::packet_number(sent, sent_among(outcomes.take(i))),
            queue[i].0,
            queue[i].1,
            #[trigger] outcomes[i],
        )
}

#[verifier::rlimit(30)]
proof fn lemma_one_more_routed(
    peers: Seq<PeerState>,
    sent: u64,
    queue: Seq<(Seq<u8>, Ipv4Addr)>,
    outcomes: Seq<Result<Datagram, EngineError>>,
    r: Result<Datagram, EngineError>,
)
    requires
        all_routed(peers, sent, queue, outcomes),
        routed(
            peers,
            tunnel::packet_number(sent, sent_among(outcomes)),
            queue[outcomes.len() as int].0,
            queue[outcomes.len() as int].1,
            r,
        ),
    ensures
        all_routed(peers, sent, queue, outcomes.push(r)),
        tunnel::packet_number(sent, sent_among(outcomes.push(r))) == if r is Ok {
            tunnel::packet_number(tunnel::packet_number(sent, sent_among(outcomes)), 1)
        } else {
            tunnel::packet_number(sent, sent_among(outcomes))
        },
{
    let more = outcomes.push(r);
    assert(more.drop_last() =~= outcomes);
    tunnel::lemma_packet_number_step(sent, sent_among(outcomes));
    assert forall|i: int| 0 <= i < more.len() implies routed(
        peers,
        tunnel::packet_number(sent, sent_among(more.take(i))),
        queue[i].0,
        queue[i].1,
        #[trigger] more[i],
    ) by {
        if i < outcomes.len() {
            assert(more.take(i) =~= outcomes.take(i));
            assert(more[i] == outcomes[i]);
        } else {
            assert(more.take(i) =~= outcomes);
        }
    }
}

/// The peers after one was added: it takes the place of its former self.
pub open spec fn joined_by(peers: Seq<PeerState>, peer: PeerState) -> Seq<PeerState> {
    if knows(peers, peer.id) {
        Seq::new(
            peers.len(),
            |i: int|
                if peers[i].id == peer.id {
                    peer
                } else {
                    peers[i]
                },
        )
    } else {
        peers.push(peer)
    }
}

/// Whether a peer is reached through the relay server, from us, and under its
/// own identifier.
pub open spec fn is_addressed(our_id: PeerId, relay_server: SocketAddr, peer: PeerState) -> bool {
    &&& peer.relay.relay_addr == relay_server
    &&& peer.relay.our_id == our_id
    &&& peer.relay.peer_id == peer.id
}

/// How many seconds have passed.
pub open spec fn secs_since(now: u128, then: u128) -> u128 {
    if now >= then {
        ((now - then) / NANOS_PER_SEC as int) as u128
    } else {
        0
    }
}

/// Where an IPv4 packet is to go.
pub open spec fn destination(packet: Seq<u8>) -> Option<Ipv4Addr> {
    if acl::is_ipv4(packet) {
        Some(acl::destination_of(packet))
    } else {
        None
    }
}

/// Where an IPv4 packet is to go.
pub fn parse_dst_ip(packet: &[u8]) -> (dst: Option<Ipv4Addr>)
    ensures
        dst == destination(packet@),
{
    if packet.len() < 20 || packet[0] / 16 != 4 {
        return None;
    }
    proof {
        codec::lemma_pow256_values();
    }
    Some(Ipv4Addr { bits: codec::read_be(packet, 16, 4) as u32 })
}

/// Return current connection state: that of the engine, if there is one. Before
/// it is started it is as if it were reconnecting.
pub fn engine_state(engine: Option<ConnState>) -> (state: ConnState)
    ensures
        state == match engine {
            Some(current) => current,
            None => ConnState::Reconnecting,
        },
{
    match engine {
        Some(current) => current,
        None => ConnState::Reconnecting,
    }
}

/// Whether a registration has yet to be approved.
pub fn is_pending(status: &str) -> (pending: bool)
    ensures
        pending == (status@ == "pending"@),
{
    text::same(status, "pending")
}

impl TunnelEngine {
    /// All but the peers, the queue, the connection state and what is known of
    /// the traffic stays the same.
    pub open spec fn same_identity(self, other: TunnelEngine) -> bool {
        &&& self.keypair == other.keypair
        &&& self.our_id == other.our_id
        &&& self.our_ip == other.our_ip
        &&& self.relay_server == other.relay_server
    }

    /// Whether each peer is reached through the engine's relay server, under its
    /// own identifier.
    pub open spec fn reaches_its_peers(self) -> bool {
        forall|i: int|
            0 <= i < self.peers@.len() ==> is_addressed(
                self.our_id,
                self.relay_server,
                #[trigger] self.peers@[i],
            )
    }

    /// The engine of a device that the control service has just registered
    /// under `device_id`, with the address `ipv4`.
    pub fn new(
        keypair: KeyPair,
        device_id: PeerId,
        ipv4: &str,
        relay_server: SocketAddr,
        now: u128,
    ) -> (engine: Result<Self, EngineError>)
        ensures
            engine is Ok <==> Ipv4Addr::parsed(ipv4@) is Some,
            engine matches Err(e) ==> e is BadAddress,
            engine matches Ok(e) ==> {
                &&& e.keypair == keypair
                &&& e.our_id == device_id
                &&& Ipv4Addr::parsed(ipv4@) == Some(e.our_ip)
                &&& e.relay_server == relay_server
                &&& e.peers@.len() == 0
                &&& e.state == ConnState::Connected
                &&& e.activity == ActivityLevel::Active
                &&& e.last_traffic == now
                &&& e.outbound_queue@.len() == 0
                &&& e.sent == 0
                &&& e.reaches_its_peers()
            },
    {
        match Ipv4Addr::parse(ipv4) {
            Some(our_ip) => Ok(
                TunnelEngine {
                    keypair,
                    our_id: device_id,
                    our_ip,
                    relay_server,
                    peers: Vec::new(),
                    state: ConnState::Connected,
                    activity: ActivityLevel::Active,
                    last_traffic: now,
                    outbound_queue: Vec::new(),
                    sent: 0,
                },
            ),
            None => Err(EngineError::BadAddress),
        }
    }

    /// The engine's public key.
    pub fn public_key_bytes(&self) -> (key: [u8; 32])
        ensures
            key@ == self.keypair.public(),
    {
        self.keypair.public_key_bytes()
    }

    /// Whether a peer is connected.
    fn is_known(&self, id: PeerId) -> (known: bool)
        ensures
            known == knows(self.peers@, id),
    {
        let mut i: usize = 0;
        while i < self.peers.len()
            invariant
                i <= self.peers@.len(),
                forall|j: int| 0 <= j < i ==> (#[trigger] self.peers@[j]).id != id,
            decreases self.peers@.len() - i,
        {
            if self.peers[i].id == id {
                return true;
            }
            i = i + 1;
        }
        false
    }

    /// What to do about an entry of the peer list when the list is read for
    /// new peers: those that are connected are left alone.
    pub fn sync_peer(&self, p: &PeerEntry) -> (plan: Result<PeerPlan, EngineError>)
        ensures
            p.device_id == self.our_id || knows(self.peers@, p.device_id) ==> plan matches Ok(
                PeerPlan::Skip,
            ),
            p.device_id != self.our_id && !knows(self.peers@, p.device_id) ==> self.plans(p, plan),
    {
        if p.device_id == self.our_id || self.is_known(p.device_id) {
            return Ok(PeerPlan::Skip);
        }
        self.plan_registration(p)
    }

    /// What to do about an entry of the peer list after the network has
    /// changed: all peers register anew.
    pub fn reconnect_peer(&self, p: &PeerEntry) -> (plan: Result<PeerPlan, EngineError>)
        ensures
            p.device_id == self.our_id ==> plan matches Ok(PeerPlan::Skip),
            p.device_id != self.our_id ==> self.plans(p, plan),
    {
        if p.device_id == self.our_id {
            return Ok(PeerPlan::Skip);
        }
        self.plan_registration(p)
    }

    /// Whether `plan` is to register with the relay for that peer. It fails
    /// where the peer's address cannot be read.
    pub open spec fn plans(self, p: &PeerEntry, plan: Result<PeerPlan, EngineError>) -> bool {
        match Ipv4Addr::parsed(p.ipv4@) {
            Some(vip) => plan matches Ok(PeerPlan::Register { peer, hello }) && {
                &&& peer.id == p.device_id
                &&& peer.vip == vip
                &&& peer.relay == client_of(self.our_id, self.relay_server, p.device_id)
                &&& is_shared(self.keypair, p.public_key@, peer.key@)
                &&& hello.to == self.relay_server
                &&& hello.payload@ == Frame::signal(self.our_id, MsgType::Hello).wire()
            },
            None => plan matches Err(EngineError::BadAddress),
        }
    }

    fn plan_registration(&self, p: &PeerEntry) -> (plan: Result<PeerPlan, EngineError>)
        ensures
            self.plans(p, plan),
    {
        match Ipv4Addr::parse(p.ipv4.as_str()) {
            Some(vip) => {
                let (relay, hello): (RelayClient, Datagram) = RelayClient::register(
                    self.relay_server,
                    self.our_id,
                    p.device_id,
                );
                let key: [u8; 32] = self.keypair.diffie_hellman(&p.public_key);
                Ok(
                    PeerPlan::Register {
                        peer: PeerState { id: p.device_id, vip, relay, key },
                        hello,
                    },
                )
            },
            None => Err(EngineError::BadAddress),
        }
    }

    /// Add a peer that is registered with the relay, in place of its former
    /// self if it was connected before.
    pub fn insert_peer(&mut self, peer: PeerState)
        ensures
            final(self).peers@ == joined_by(old(self).peers@, peer),
            distinct(old(self).peers@) ==> distinct(final(self).peers@),
            final(self).peers@.contains(peer),
            forall|i: int|
                0 <= i < old(self).peers@.len() && (#[trigger] old(self).peers@[i]).id != peer.id
                    ==> final(self).peers@[i] == old(self).peers@[i],
            old(self).reaches_its_peers() && is_addressed(
                old(self).our_id,
                old(self).relay_server,
                peer,
            ) ==> final(self).reaches_its_peers(),
            final(self).same_identity(*old(self)),
            final(self).state == old(self).state,
            final(self).activity == old(self).activity,
            final(self).last_traffic == old(self).last_traffic,
            final(self).outbound_queue == old(self).outbound_queue,
            final(self).sent == old(self).sent,
    {
        let ghost all = self.peers@;
        let mut found: bool = false;
        let mut i: usize = 0;
        while i < self.peers.len()
            invariant
                i <= self.peers@.len() == all.len(),
                all == old(self).peers@,
                self.same_identity(*old(self)),
                self.state == old(self).state,
                self.activity == old(self).activity,
                self.last_traffic == old(self).last_traffic,
                self.outbound_queue == old(self).outbound_queue,
                self.sent == old(self).sent,
                found <==> exists|j: int| 0 <= j < i && (#[trigger] all[j]).id == peer.id,
                forall|j: int|
                    0 <= j < i ==> #[trigger] self.peers@[j] == if all[j].id == peer.id {
                        peer
                    } else {
                        all[j]
                    },
                forall|j: int| i <= j < all.len() ==> #[trigger] self.peers@[j] == all[j],
            decreases self.peers@.len() - i,
        {
            assert(self.peers@[i as int] == all[i as int]);
            if self.peers[i].id == peer.id {
                assert(all[i as int].id == peer.id);
                self.peers.set(i, peer);
                found = true;
            }
            i = i + 1;
        }
        if !found {
            assert(self.peers@ =~= all);
            self.peers.push(peer);
        }
        assert(self.peers@ =~= joined_by(all, peer));
        proof {
            law_adding_changes_no_other_peer(all, peer);
            if distinct(all) {
                let now = self.peers@;
                assert forall|i: int, j: int| 0 <= i < j < now.len() implies (#[trigger] now[i]).id
                    != (#[trigger] now[j]).id by {
                    if j < all.len() {
                        assert(all[i].id != all[j].id);
                    } else {
                        assert(all[i].id != peer.id);
                    }
                }
            }
        }
    }

    /// Begin to work through the peer list, for new peers only.
    pub fn sync_peers(&self, peers: Vec<PeerEntry>) -> (run: PeerRun)
        ensures
            run.wf(),
            run.entries == peers,
            !run.anew,
            run.at == 0,
            run.pending is None,
            run.count == 0,
    {
        PeerRun { entries: peers, anew: false, at: 0, pending: None, count: 0 }
    }

    /// Begin to work through the peer list, for all peers.
    pub fn reconnect_peers(&self, peers: Vec<PeerEntry>) -> (run: PeerRun)
        ensures
            run.wf(),
            run.entries == peers,
            run.anew,
            run.at == 0,
            run.pending is None,
            run.count == 0,
    {
        PeerRun { entries: peers, anew: true, at: 0, pending: None, count: 0 }
    }

    /// The network has changed: from now on packets wait until the engine is
    /// connected again.
    pub fn begin_reconnect(&mut self)
        ensures
            final(self).state == ConnState::Reconnecting,
            final(self).same_identity(*old(self)),
            final(self).peers == old(self).peers,
            final(self).activity == old(self).activity,
            final(self).last_traffic == old(self).last_traffic,
            final(self).outbound_queue == old(self).outbound_queue,
            final(self).sent == old(self).sent,
    {
        self.state = ConnState::Reconnecting;
    }

    /// The engine is connected again: the packets that waited are sent in the
    /// order that they came in. Those that cannot be sent are dropped.
    #[verifier::rlimit(30)]
    pub fn finish_reconnect(&mut self) -> (flushed: Vec<Result<Datagram, EngineError>>)
        ensures
            final(self).state == ConnState::Connected,
            final(self).same_identity(*old(self)),
            final(self).peers == old(self).peers,
            final(self).activity == old(self).activity,
            final(self).last_traffic == old(self).last_traffic,
            final(self).outbound_queue@.len() == 0,
            final(self).sent == tunnel::packet_number(old(self).sent, sent_among(flushed@)),
            flushed@.len() == old(self).outbound_queue@.len(),
            all_routed(
                old(self).peers@,
                old(self).sent,
                queue_view(old(self).outbound_queue@),
                flushed@,
            ),
    {
        self.state = ConnState::Connected;
        let mut queue: Vec<(Vec<u8>, Ipv4Addr)> = Vec::new();
        std::mem::swap(&mut queue, &mut self.outbound_queue);
        let ghost waiting = queue_view(queue@);
        let mut flushed: Vec<Result<Datagram, EngineError>> = Vec::new();
        let mut i: usize = 0;
        while i < queue.len()
            invariant
                i <= queue@.len(),
                flushed@.len() == i,
                waiting == queue_view(queue@),
                self.state == ConnState::Connected,
                self.same_identity(*old(self)),
                self.peers == old(self).peers,
                self.activity == old(self).activity,
                self.last_traffic == old(self).last_traffic,
                self.outbound_queue@.len() == 0,
                self.sent == tunnel::packet_number(old(self).sent, sent_among(flushed@)),
                all_routed(old(self).peers@, old(self).sent, waiting, flushed@),
            decreases queue@.len() - i,
        {
            let r: Result<Datagram, EngineError> = self.send_to_peer_inner(
                queue[i].0.as_slice(),
                queue[i].1,
            );
            assert(waiting[i as int] == (queue@[i as int].0@, queue@[i as int].1));
            proof {
                lemma_one_more_routed(
                    old(self).peers@,
                    old(self).sent,
                    waiting,
                    flushed@,
                    r,
                );
            }
            flushed.push(r);
            i = i + 1;
        }
        flushed
    }

    /// Send a packet to the peer with that address; while the engine is
    /// reconnecting, keep it for later, as far as there is room.
    pub fn send_to_peer(&mut self, packet: &[u8], dst_ip: Ipv4Addr, now: u128) -> (r: Result<
        SendAction,
        EngineError,
    >)
        ensures
            final(self).same_identity(*old(self)),
            final(self).peers == old(self).peers,
            final(self).state == old(self).state,
            final(self).activity == ActivityLevel::Active,
            final(self).last_traffic == now,
            final(self).sent == if r matches Ok(SendAction::Send(_)) {
                tunnel::packet_number(old(self).sent, 1)
            } else {
                old(self).sent
            },
            old(self).state == ConnState::Reconnecting ==> if old(self).outbound_queue@.len()
                < MAX_QUEUED_PACKETS {
                &&& r matches Ok(SendAction::Queued)
                &&& queue_view(final(self).outbound_queue@) == queue_view(
                    old(self).outbound_queue@,
                ).push((packet@, dst_ip))
            } else {
                &&& r matches Ok(SendAction::Dropped)
                &&& final(self).outbound_queue == old(self).outbound_queue
            },
            old(self).state == ConnState::Connected ==> {
                &&& final(self).outbound_queue == old(self).outbound_queue
                &&& match r {
                    Ok(SendAction::Send(d)) => routed(
                        old(self).peers@,
                        old(self).sent,
                        packet@,
                        dst_ip,
                        Ok::<Datagram, EngineError>(d),
                    ),
                    Ok(_) => false,
                    Err(e) => routed(
                        old(self).peers@,
                        old(self).sent,
                        packet@,
                        dst_ip,
                        Err::<Datagram, EngineError>(e),
                    ),
                }
            },
    {
        self.mark_traffic(now);
        if self.state == ConnState::Reconnecting {
            if self.outbound_queue.len() < MAX_QUEUED_PACKETS {
                let copy: Vec<u8> = codec::copy_range(packet, 0, packet.len());
                assert(copy@ =~= packet@);
                self.outbound_queue.push((copy, dst_ip));
                assert(queue_view(self.outbound_queue@) =~= queue_view(
                    old(self).outbound_queue@,
                ).push((packet@, dst_ip)));
                return Ok(SendAction::Queued);
            }
            return Ok(SendAction::Dropped);
        }
        match self.send_to_peer_inner(packet, dst_ip) {
            Ok(d) => Ok(SendAction::Send(d)),
            Err(e) => Err(e),
        }
    }

    fn send_to_peer_inner(&mut self, packet: &[u8], dst_ip: Ipv4Addr) -> (r: Result<
        Datagram,
        EngineError,
    >)
        ensures
            routed(old(self).peers@, old(self).sent, packet@, dst_ip, r),
            final(self).sent == if r is Ok {
                tunnel::packet_number(old(self).sent, 1)
            } else {
                old(self).sent
            },
            final(self).same_identity(*old(self)),
            final(self).peers == old(self).peers,
            final(self).state == old(self).state,
            final(self).activity == old(self).activity,
            final(self).last_traffic == old(self).last_traffic,
            final(self).outbound_queue == old(self).outbound_queue,
    {
        let mut i: usize = 0;
        while i < self.peers.len()
            invariant
                i <= self.peers@.len(),
                *self == *old(self),
                forall|j: int| 0 <= j < i ==> (#[trigger] self.peers@[j]).vip != dst_ip,
            decreases self.peers@.len() - i,
        {
            if self.peers[i].vip == dst_ip {
                assert(self.peers@[i as int].vip == dst_ip);
                if packet.len() > MAX_PLAIN_PACKET {
                    return Err(
                        EngineError::Io(IoError::new(IoErrorKind::Other, "payload too large")),
                    );
                }
                let peer: PeerState = self.peers[i];
                let start: u64 = if peer.relay.our_id.bits < peer.relay.peer_id.bits {
                    0
                } else {
                    RESPONDER_TX_OFFSET
                };
                let mut cipher: SessionCipher = SessionCipher::new(
                    &peer.key,
                    start.wrapping_add(self.sent),
                );
                return match cipher.encrypt(packet) {
                    Ok(sealed) => match peer.relay.send(sealed.as_slice()) {
                        Ok(d) => {
                            assert(carries(peer, number_for(peer, self.sent), packet@, d));
                            self.sent = self.sent.wrapping_add(1);
                            Ok(d)
                        },
                        Err(e) => Err(EngineError::Io(e)),
                    },
                    Err(e) => Err(EngineError::Crypto(e)),
                };
            }
            i = i + 1;
        }
        Err(EngineError::NoRoute(dst_ip))
    }

    /// Begin to look for a packet that a peer has sent.
    pub fn start_polling(&self) -> (action: PollAction)
        ensures
            self.peers@.len() > 0 ==> action matches PollAction::Poll(0),
            self.peers@.len() == 0 ==> action matches PollAction::NoData,
    {
        if self.peers.len() == 0 {
            PollAction::NoData
        } else {
            PollAction::Poll(0)
        }
    }

    /// Go on looking for a packet: what happened while peer `at` was polled
    /// decides. Datagrams that are no authentic message of that peer are passed
    /// over; a peer that has nothing gives way to the next.
    pub fn recv_from_any(&self, at: usize, event: &PollEvent) -> (action: PollAction)
        requires
            at < self.peers@.len(),
        ensures
            match event {
                PollEvent::Arrived(data) => match received(self.peers@[at as int], data@) {
                    Some(message) => action matches PollAction::Deliver(m) && m@ == message,
                    None => action matches PollAction::Poll(next) && next == at,
                },
                PollEvent::NoMore => if at + 1 < self.peers@.len() {
                    action matches PollAction::Poll(next) && next == at + 1
                } else {
                    action matches PollAction::NoData
                },
            },
    {
        match event {
            PollEvent::Arrived(data) => match self.peers[at].relay.recv(data.as_slice()) {
                Some((sealed, _sender)) => {
                    let cipher: SessionCipher = SessionCipher::new(&self.peers[at].key, 0);
                    match cipher.decrypt(sealed.as_slice()) {
                        Ok(message) => PollAction::Deliver(message),
                        Err(_) => PollAction::Poll(at),
                    }
                },
                None => PollAction::Poll(at),
            },
            PollEvent::NoMore => {
                if at < self.peers.len() - 1 {
                    PollAction::Poll(at + 1)
                } else {
                    PollAction::NoData
                }
            },
        }
    }

    /// The connection state.
    pub fn state(&self) -> (state: ConnState)
        ensures
            state == self.state,
    {
        self.state
    }

    /// The activity level.
    pub fn activity(&self) -> (level: ActivityLevel)
        ensures
            level == self.activity,
    {
        self.activity
    }

    /// Transition to a lower activity level after idle timeout.
    pub fn update_activity(&mut self, now: u128)
        ensures
            final(self).activity == level_after(secs_since(now, old(self).last_traffic)),
            final(self).same_identity(*old(self)),
            final(self).peers == old(self).peers,
            final(self).state == old(self).state,
            final(self).last_traffic == old(self).last_traffic,
            final(self).outbound_queue == old(self).outbound_queue,
            final(self).sent == old(self).sent,
    {
        let secs: u128 = if now >= self.last_traffic {
            (now - self.last_traffic) / NANOS_PER_SEC
        } else {
            0
        };
        self.activity = if secs < 5 {
            ActivityLevel::Active
        } else if secs < 30 {
            ActivityLevel::Idle
        } else {
            ActivityLevel::Sleep
        };
    }

    /// Record traffic to keep activity level high.
    pub fn mark_traffic(&mut self, now: u128)
        ensures
            final(self).activity == ActivityLevel::Active,
            final(self).last_traffic == now,
            final(self).same_identity(*old(self)),
            final(self).peers == old(self).peers,
            final(self).state == old(self).state,
            final(self).outbound_queue == old(self).outbound_queue,
            final(self).sent == old(self).sent,
    {
        self.last_traffic = now;
        self.activity = ActivityLevel::Active;
    }

    /// Current poll interval (ms) based on activity.
    pub fn poll_interval_ms(&self) -> (ms: u64)
        ensures
            ms == self.activity.poll_ms(),
    {
        self.activity.poll_interval_ms()
    }

    /// Current keepalive interval (secs) based on activity.
    pub fn keepalive_interval_secs(&self) -> (secs: u64)
        ensures
            secs == self.activity.keepalive_secs(),
    {
        self.activity.keepalive_interval_secs()
    }

    /// A keepalive for each connected relay peer.
    pub fn send_keepalives(&self) -> (out: Vec<Datagram>)
        ensures
            out@.len() == self.peers@.len(),
            forall|i: int|
                0 <= i < out@.len() ==> (#[trigger] out@[i]).to == self.peers@[i].relay.relay_addr
                    && out@[i].payload@ == Frame::signal(
                    self.peers@[i].relay.our_id,
                    MsgType::Keepalive,
                ).wire(),
    {
        let mut out: Vec<Datagram> = Vec::new();
        let mut i: usize = 0;
        while i < self.peers.len()
            invariant
                i <= self.peers@.len(),
                out@.len() == i,
                forall|j: int|
                    0 <= j < i ==> (#[trigger] out@[j]).to == self.peers@[j].relay.relay_addr
                        && out@[j].payload@ == Frame::signal(
                        self.peers@[j].relay.our_id,
                        MsgType::Keepalive,
                    ).wire(),
            decreases self.peers@.len() - i,
        {
            out.push(self.peers[i].relay.keepalive());
            i = i + 1;
        }
        out
    }

    /// Handle a packet that comes out of the virtual interface. One that is for
    /// our own address comes back; any other is encrypted and sent to its peer,
    /// and nothing comes back.
    pub fn engine_send_packet(&mut self, packet: &[u8], now: u128) -> (r: Result<
        (Vec<u8>, Option<SendAction>),
        EngineError,
    >)
        ensures
            final(self).same_identity(*old(self)),
            final(self).peers == old(self).peers,
            final(self).state == old(self).state,
            final(self).sent == if r matches Ok((_, Some(SendAction::Send(_)))) {
                tunnel::packet_number(old(self).sent, 1)
            } else {
                old(self).sent
            },
            match destination(packet@) {
                None => {
                    &&& r matches Err(EngineError::InvalidPacket)
                    &&& *final(self) == *old(self)
                },
                Some(dst) => if dst == old(self).our_ip {
                    &&& r matches Ok((back, None)) && back@ == packet@
                    &&& *final(self) == *old(self)
                } else {
                    &&& final(self).activity == ActivityLevel::Active
                    &&& final(self).last_traffic == now
                    &&& old(self).state == ConnState::Connected ==> {
                        &&& final(self).outbound_queue == old(self).outbound_queue
                        &&& match r {
                            Ok((back, Some(SendAction::Send(d)))) => back@.len() == 0 && routed(
                                old(self).peers@,
                                old(self).sent,
                                packet@,
                                dst,
                                Ok::<Datagram, EngineError>(d),
                            ),
                            Ok(_) => false,
                            Err(e) => routed(
                                old(self).peers@,
                                old(self).sent,
                                packet@,
                                dst,
                                Err::<Datagram, EngineError>(e),
                            ),
                        }
                    }
                    &&& old(self).state == ConnState::Reconnecting ==> if old(
                        self,
                    ).outbound_queue@.len() < MAX_QUEUED_PACKETS {
                        &&& r matches Ok((back, Some(SendAction::Queued))) && back@.len() == 0
                        &&& queue_view(final(self).outbound_queue@) == queue_view(
                            old(self).outbound_queue@,
                        ).push((packet@, dst))
                    } else {
                        &&& r matches Ok((back, Some(SendAction::Dropped))) && back@.len() == 0
                        &&& final(self).outbound_queue == old(self).outbound_queue
                    }
                },
            },
    {
        let dst: Ipv4Addr = match parse_dst_ip(packet) {
            Some(dst) => dst,
            None => {
                return Err(EngineError::InvalidPacket);
            },
        };
        if dst == self.our_ip {
            let back: Vec<u8> = codec::copy_range(packet, 0, packet.len());
            assert(back@ =~= packet@);
            return Ok((back, None));
        }
        match self.send_to_peer(packet, dst, now) {
            Ok(action) => Ok((Vec::new(), Some(action))),
            Err(e) => Err(e),
        }
    }
}

/// Whether an entry of a peer list calls for nothing: it is ourselves, or a
/// peer that is connected and need not register anew.
pub open spec fn calls_for_nothing(
    entry: PeerEntry,
    anew: bool,
    our_id: PeerId,
    peers: Seq<PeerState>,
) -> bool {
    entry.device_id == our_id || !anew && knows(peers, entry.device_id)
}

impl PeerRun {
    /// The entry at hand lies in the list while it registers, and no more
    /// peers were added than entries are done.
    pub open spec fn wf(self) -> bool {
        &&& self.at <= self.entries@.len()
        &&& self.pending matches Some(peer) ==> self.at < self.entries@.len() && peer.id
            == self.entries@[self.at as int].device_id
        &&& self.count <= self.at
    }

    /// Whether each entry that is done is ourselves or a peer that is known.
    pub open spec fn has_reached(self, our_id: PeerId, peers: Seq<PeerState>) -> bool {
        forall|i: int|
            0 <= i < self.at ==> (#[trigger] self.entries@[i]).device_id == our_id || knows(
                peers,
                self.entries@[i].device_id,
            )
    }

    /// The engine's peers once the entry at hand has registered, or not.
    pub open spec fn peers_after(self, peers: Seq<PeerState>, registered: bool) -> Seq<PeerState> {
        match self.pending {
            Some(peer) => if registered {
                joined_by(peers, peer)
            } else {
                peers
            },
            None => peers,
        }
    }

    /// Closes the entry at hand with how its registration went, and goes on to
    /// the next one that calls for a registration.
    ///
    /// While every registration succeeds, each entry that is done is known to
    /// the engine.
    pub fn step(&mut self, engine: &mut TunnelEngine, registered: bool) -> (action: RunAction)
        requires
            old(self).wf(),
        ensures
            final(self).wf(),
            final(self).entries == old(self).entries,
            final(self).anew == old(self).anew,
            final(engine).same_identity(*old(engine)),
            final(engine).state == old(engine).state,
            final(engine).activity == old(engine).activity,
            final(engine).last_traffic == old(engine).last_traffic,
            final(engine).outbound_queue == old(engine).outbound_queue,
            final(engine).sent == old(engine).sent,
            final(engine).peers@ == old(self).peers_after(old(engine).peers@, registered),
            distinct(old(engine).peers@) ==> distinct(final(engine).peers@),
            old(engine).reaches_its_peers() && (old(self).pending matches Some(peer)
                ==> is_addressed(old(engine).our_id, old(engine).relay_server, peer))
                ==> final(engine).reaches_its_peers(),
            final(self).pending matches Some(peer) ==> is_addressed(
                old(engine).our_id,
                old(engine).relay_server,
                peer,
            ),
            final(self).count == old(self).count + if old(self).pending is Some && registered {
                1int
            } else {
                0
            },
            final(self).at >= old(self).at + if old(self).pending is Some {
                1int
            } else {
                0
            },
            forall|i: int|
                old(self).at + (if old(self).pending is Some {
                    1int
                } else {
                    0
                }) <= i < final(self).at ==> calls_for_nothing(
                    #[trigger] final(self).entries@[i],
                    final(self).anew,
                    old(engine).our_id,
                    final(engine).peers@,
                ),
            registered && old(self).has_reached(old(engine).our_id, old(engine).peers@)
                ==> final(self).has_reached(old(engine).our_id, final(engine).peers@),
            final(self).at == final(self).entries@.len() ==> {
                &&& final(self).pending is None
                &&& action matches RunAction::Done(n) && n == final(self).count
            },
            final(self).at < final(self).entries@.len() ==> {
                let entry = final(self).entries@[final(self).at as int];
                &&& !calls_for_nothing(
                    entry,
                    final(self).anew,
                    old(engine).our_id,
                    final(engine).peers@,
                )
                &&& match action {
                    RunAction::Register(hello) => final(self).pending matches Some(peer) && old(
                        engine,
                    ).plans(&entry, Ok(PeerPlan::Register { peer, hello })),
                    RunAction::Failed(e) => final(self).pending is None && old(engine).plans(
                        &entry,
                        Err(e),
                    ),
                    RunAction::Done(_) => false,
                }
            },
    {
        let total: usize = self.entries.len();
        let closing: Option<PeerState> = self.pending;
        self.pending = None;
        if let Some(peer) = closing {
            if registered {
                engine.insert_peer(peer);
                self.count = self.count + 1;
            }
            self.at = self.at + 1;
            proof {
                if registered {
                    assert forall|i: int| 0 <= i < self.at && knows(
                        old(engine).peers@,
                        (#[trigger] self.entries@[i]).device_id,
                    ) implies knows(engine.peers@, self.entries@[i].device_id) by {
                        law_added_peer_is_known(
                            old(engine).peers@,
                            peer,
                            self.entries@[i].device_id,
                        );
                    }
                    law_added_peer_is_known(old(engine).peers@, peer, peer.id);
                }
            }
        }
        let ghost from = self.at;
        while self.at < total
            invariant
                total == self.entries@.len(),
                self.wf(),
                self.pending is None,
                self.entries == old(self).entries,
                self.anew == old(self).anew,
                self.count == old(self).count + if old(self).pending is Some && registered {
                    1int
                } else {
                    0
                },
                from == old(self).at + if old(self).pending is Some {
                    1int
                } else {
                    0
                },
                from <= self.at,
                engine.same_identity(*old(engine)),
                engine.state == old(engine).state,
                engine.activity == old(engine).activity,
                engine.last_traffic == old(engine).last_traffic,
                engine.outbound_queue == old(engine).outbound_queue,
                engine.sent == old(engine).sent,
                engine.peers@ == old(self).peers_after(old(engine).peers@, registered),
                distinct(old(engine).peers@) ==> distinct(engine.peers@),
                old(engine).reaches_its_peers() && (old(self).pending matches Some(peer)
                    ==> is_addressed(old(engine).our_id, old(engine).relay_server, peer))
                    ==> engine.reaches_its_peers(),
                registered && old(self).has_reached(old(engine).our_id, old(engine).peers@)
                    ==> self.has_reached(engine.our_id, engine.peers@),
                forall|i: int|
                    from <= i < self.at ==> calls_for_nothing(
                        #[trigger] self.entries@[i],
                        self.anew,
                        engine.our_id,
                        engine.peers@,
                    ),
            decreases self.entries@.len() - self.at,
        {
            let plan = if self.anew {
                engine.reconnect_peer(&self.entries[self.at])
            } else {
                engine.sync_peer(&self.entries[self.at])
            };
            match plan {
                Ok(PeerPlan::Skip) => {
                    self.at = self.at + 1;
                },
                Ok(PeerPlan::Register { peer, hello }) => {
                    self.pending = Some(peer);
                    return RunAction::Register(hello);
                },
                Err(e) => {
                    return RunAction::Failed(e);
                },
            }
        }
        RunAction::Done(self.count)
    }
}

/// What the engine sends to a peer is decrypted there, to the packet that was
/// sent: the peer knows us under our identifier, and by the key that both
/// share.
pub proof fn law_sent_packet_is_received(
    peer: PeerState,
    number: u64,
    packet: Seq<u8>,
    d: Datagram,
    us: PeerState,
)
    requires
        packet.len() <= MAX_PLAIN_PACKET,
        carries(peer, number, packet, d),
        us.relay.peer_id == peer.relay.our_id,
        us.key@ == peer.key@,
    ensures
        d.to == peer.relay.relay_addr,
        received(us, d.payload@) == Some(packet),
{
    let sealed = key_exchange::packet_of(peer.key@, number, packet);
    relay_proto::law_encode_decode(
        Frame::data(peer.relay.our_id, peer.relay.peer_id, sealed),
    );
}

/// Two devices that list each other, each with the other's public key, derive
/// the same key.
pub proof fn law_both_derive_the_same_key(
    ours: KeyPair,
    theirs: KeyPair,
    our_key: Seq<u8>,
    their_key: Seq<u8>,
)
    requires
        theirs.secret().len() == 32,
        theirs.public() == key_exchange::x25519_public(theirs.secret()),
        is_shared(ours, theirs.public(), our_key),
        is_shared(theirs, ours.public(), their_key),
    ensures
        our_key == their_key,
{
}

/// The packets that two devices send each other never share a nonce, as long
/// as neither device has sent 2^32 packets.
pub proof fn law_devices_never_share_a_nonce(
    peer: PeerState,
    sent: u64,
    us: PeerState,
    sent_there: u64,
)
    requires
        peer.relay.our_id == us.relay.peer_id,
        peer.relay.peer_id == us.relay.our_id,
        peer.relay.our_id != peer.relay.peer_id,
        sent < RESPONDER_TX_OFFSET,
        sent_there < RESPONDER_TX_OFFSET,
    ensures
        key_exchange::nonce_of(number_for(peer, sent)) != key_exchange::nonce_of(
            number_for(us, sent_there),
        ),
{
    let ours = peer.relay.our_id;
    let theirs = peer.relay.peer_id;
    if ours.bits < theirs.bits {
        tunnel::law_directions_never_share_a_nonce(sent as nat, sent_there as nat);
    } else {
        assert(ours.bits != theirs.bits) by {
            assert(ours == PeerId { bits: ours.bits });
            assert(theirs == PeerId { bits: theirs.bits });
        }
        tunnel::law_directions_never_share_a_nonce(sent_there as nat, sent as nat);
    }
}

/// A device never uses a nonce twice for a peer before it has sent 2^64
/// packets, however often the two connect anew.
pub proof fn law_device_never_repeats_a_nonce(peer: PeerState, again: PeerState, i: u64, j: u64)
    requires
        peer.relay.our_id == again.relay.our_id,
        peer.relay.peer_id == again.relay.peer_id,
        i < j,
    ensures
        key_exchange::nonce_of(number_for(peer, i)) != key_exchange::nonce_of(
            number_for(again, j),
        ),
{
    tunnel::law_direction_never_repeats_a_nonce(
        first_number(peer.relay.our_id, peer.relay.peer_id),
        i as nat,
        j as nat,
    );
}

/// The less traffic there is, the less often the engine polls and keeps alive.
pub proof fn law_idle_engine_polls_less(a: u128, b: u128)
    requires
        a <= b,
    ensures
        level_after(a).poll_ms() <= level_after(b).poll_ms(),
        level_after(a).keepalive_secs() <= level_after(b).keepalive_secs(),
{
}

/// A peer that is added is connected, and no other peer is changed.
pub proof fn law_added_peer_is_known(peers: Seq<PeerState>, peer: PeerState, other: PeerId)
    ensures
        knows(joined_by(peers, peer), peer.id),
        other != peer.id ==> knows(joined_by(peers, peer), other) == knows(peers, other),
        routes(joined_by(peers, peer), peer.vip),
{
    let after = joined_by(peers, peer);
    if knows(peers, peer.id) {
        let i = choose|i: int| 0 <= i < peers.len() && (#[trigger] peers[i]).id == peer.id;
        assert(after[i] == peer);
    } else {
        assert(after[peers.len() as int] == peer);
    }
    if other != peer.id {
        if knows(peers, other) {
            let i = choose|i: int| 0 <= i < peers.len() && (#[trigger] peers[i]).id == other;
            assert(after[i] == peers[i]);
        }
        if knows(after, other) {
            let i = choose|i: int| 0 <= i < after.len() && (#[trigger] after[i]).id == other;
            assert(after[i] == peers[i]);
        }
    }
}

/// Adding a peer changes no other peer: each stays where it was, exactly as it
/// was. The peer itself is there once it was added, as it was given, and nothing
/// else is.
pub proof fn law_adding_changes_no_other_peer(peers: Seq<PeerState>, peer: PeerState)
    ensures
        forall|i: int|
            0 <= i < peers.len() && (#[trigger] peers[i]).id != peer.id ==> joined_by(
                peers,
                peer,
            )[i] == peers[i],
        forall|i: int|
            0 <= i < joined_by(peers, peer).len() && (#[trigger] joined_by(peers, peer)[i]).id
                == peer.id ==> joined_by(peers, peer)[i] == peer,
        joined_by(peers, peer).contains(peer),
        joined_by(peers, peer).len() == peers.len() + if exists|i: int|
            0 <= i < peers.len() && (#[trigger] peers[i]).id == peer.id {
            0int
        } else {
            1int
        },
{
    let after = joined_by(peers, peer);
    if knows(peers, peer.id) {
        let i = choose|i: int| 0 <= i < peers.len() && (#[trigger] peers[i]).id == peer.id;
        assert(after[i] == peer);
    } else {
        assert(after[peers.len() as int] == peer);
    }
}

/// Every peer that an engine adds from a peer list is the device of that entry:
/// it has the entry's identifier and address, is reached through the engine's
/// relay server under that identifier, and shares with us the key that belongs to
/// the entry's public key. What is sent to the relay first is a HELLO of ours.
pub proof fn law_planned_peer_is_the_listed_device(
    engine: TunnelEngine,
    p: PeerEntry,
    vip: Ipv4Addr,
    plan: Result<PeerPlan, EngineError>,
)
    requires
        engine.plans(&p, plan),
        p.ipv4@ == vip.text(),
    ensures
        plan matches Ok(PeerPlan::Register { peer, hello }) && {
            &&& peer.id == p.device_id
            &&& peer.vip == vip
            &&& peer.relay.peer_id == p.device_id
            &&& peer.relay.our_id == engine.our_id
            &&& peer.relay.relay_addr == engine.relay_server
            &&& peer.key@ == key_exchange::x25519_shared(engine.keypair.secret(), p.public_key@)
            &&& hello.to == engine.relay_server
            &&& hello.payload@.len() == 36
            &&& hello.payload@[1] == 1
            &&& hello.payload@.subrange(2, 18) == engine.our_id@
        },
{
    addr::law_text_roundtrip(vip);
    relay_proto::law_wire_bytes(Frame::signal(engine.our_id, MsgType::Hello));
}

/// As long as each peer is reached under its own identifier, a packet for an
/// address goes to the relay server in a data frame from us to the device that
/// holds the address, sealed with the key that we share with that device.
pub proof fn law_packet_goes_to_the_holder_of_its_address(
    our_id: PeerId,
    relay_server: SocketAddr,
    peers: Seq<PeerState>,
    sent: u64,
    packet: Seq<u8>,
    dst: Ipv4Addr,
    d: Datagram,
)
    requires
        forall|i: int|
            0 <= i < peers.len() ==> is_addressed(our_id, relay_server, #[trigger] peers[i]),
        routed(peers, sent, packet, dst, Ok(d)),
    ensures
        d.to == relay_server,
        packet.len() <= 2020,
        d.payload@.len() == 36 + 12 + packet.len() + 16,
        d.payload@[1] == 2,
        d.payload@.subrange(2, 18) == our_id@,
        exists|i: int|
            0 <= i < peers.len() && (#[trigger] peers[i]).vip == dst && d.payload@.subrange(18, 34)
                == peers[i].id@ && key_exchange::message_in(
                peers[i].key@,
                d.payload@.subrange(36, d.payload@.len() as int),
            ) == Some(packet),
{
    let i = choose|i: int|
        0 <= i < peers.len() && (#[trigger] peers[i]).vip == dst && carries(
            peers[i],
            number_for(peers[i], sent),
            packet,
            d,
        );
    let peer = peers[i];
    assert(is_addressed(our_id, relay_server, peer));
    let sealed = key_exchange::packet_of(peer.key@, number_for(peer, sent), packet);
    let frame = Frame::data(our_id, peer.id, sealed);
    relay_proto::law_wire_bytes(frame);
    let w = d.payload@;
    assert(w.subrange(36, w.len() as int) =~= sealed) by {
        assert forall|k: int| 0 <= k < sealed.len() implies w.subrange(36, w.len() as int)[k]
            == sealed[k] by {
            assert(w[36 + k] == sealed[k]);
        }
    }
}

/// A packet is turned away exactly if no peer has its address, or if it is longer
/// than 2020 bytes.
pub proof fn law_packet_is_routed_if_some_peer_has_its_address(
    peers: Seq<PeerState>,
    sent: u64,
    packet: Seq<u8>,
    dst: Ipv4Addr,
    r: Result<Datagram, EngineError>,
)
    requires
        routed(peers, sent, packet, dst, r),
    ensures
        r is Ok <==> packet.len() <= 2020 && exists|i: int|
            0 <= i < peers.len() && (#[trigger] peers[i]).vip == dst,
        r matches Err(EngineError::NoRoute(_)) <==> !exists|i: int|
            0 <= i < peers.len() && (#[trigger] peers[i]).vip == dst,
        r matches Err(EngineError::NoRoute(ip)) ==> ip == dst,
{
}

/// Of what arrives from the relay the engine takes only the data frames of the
/// peer at hand, and only what the key that is shared with that peer opens.
pub proof fn law_only_the_peers_own_packets_are_received(
    peer: PeerState,
    data: Seq<u8>,
    message: Seq<u8>,
)
    requires
        received(peer, data) == Some(message),
    ensures
        data.len() >= 36,
        data[0] == 1,
        data[1] == 2,
        data.subrange(2, 18) == peer.relay.peer_id@,
        key_exchange::message_in(
            peer.key@,
            data.subrange(36, 36 + data[34] * 256 + data[35]),
        ) == Some(message),
{
    relay_proto::law_frame_is_read_from_its_places(data);
}

/// The packets that waited are sent in the order in which they came in: each
/// outcome is that of the packet at its place, for the address that it was kept
/// for.
pub proof fn law_waiting_packets_are_sent_in_order(
    peers: Seq<PeerState>,
    sent: u64,
    queue: Seq<(Seq<u8>, Ipv4Addr)>,
    outcomes: Seq<Result<Datagram, EngineError>>,
    i: int,
)
    requires
        all_routed(peers, sent, queue, outcomes),
        0 <= i < outcomes.len(),
    ensures
        outcomes[i] is Ok <==> queue[i].0.len() <= 2020 && exists|k: int|
            0 <= k < peers.len() && (#[trigger] peers[k]).vip == queue[i].1,
        outcomes[i] matches Ok(d) ==> exists|k: int, number: u64|
            0 <= k < peers.len() && (#[trigger] peers[k]).vip == queue[i].1 && #[trigger] carries(
                peers[k],
                number,
                queue[i].0,
                d,
            ),
{
    let before = tunnel::packet_number(sent, sent_among(outcomes.take(i)));
    assert(routed(peers, before, queue[i].0, queue[i].1, outcomes[i]));
    if let Ok(d) = outcomes[i] {
        let k = choose|k: int|
            0 <= k < peers.len() && (#[trigger] peers[k]).vip == queue[i].1 && carries(
                peers[k],
                number_for(peers[k], before),
                queue[i].0,
                d,
            );
        assert(carries(peers[k], number_for(peers[k], before), queue[i].0, d));
    }
}

/// Every packet that is sent is counted, and none that is not.
pub proof fn law_sent_packets_are_counted(
    outcomes: Seq<Result<Datagram, EngineError>>,
    r: Result<Datagram, EngineError>,
)
    ensures
        sent_among(Seq::empty()) == 0,
        sent_among(outcomes.push(r)) == sent_among(outcomes) + if r is Ok {
            1int
        } else {
            0int
        },
{
    assert(outcomes.push(r).drop_last() =~= outcomes);
}

/// A packet is for the address in the last four bytes of the first twenty, if it
/// is an IPv4 packet at all.
pub proof fn law_destination_is_read_from_the_header(packet: Seq<u8>)
    ensures
        destination(packet) is Some <==> packet.len() >= 20 && packet[0] / 16 == 4,
        destination(packet) matches Some(dst) ==> dst.bits == packet[16] * 0x100_0000 + packet[17]
            * 0x1_0000 + packet[18] * 0x100 + packet[19],
{
    acl::law_packet_fields(packet);
}

/// The engine counts whole seconds: after `n` nanoseconds as many as fit into
/// them. A clock that was set back counts as no time at all.
pub proof fn law_whole_seconds_are_counted(now: u128, last: u128)
    ensures
        now >= last ==> secs_since(now, last) * 1_000_000_000 <= now - last < (secs_since(now, last)
            + 1) * 1_000_000_000,
        now < last ==> secs_since(now, last) == 0,
{
    if now >= last {
        let n = now - last;
        assert(n / 1_000_000_000 * 1_000_000_000 <= n < (n / 1_000_000_000 + 1) * 1_000_000_000);
    }
}

/// How often the engine polls and keeps alive: for five seconds after traffic it
/// polls every 10 milliseconds, then until half a minute has passed every 100, and
/// after that every 500; it sends keepalives every 30, 60 and 120 seconds.
pub proof fn law_intervals_by_idle_time(secs: u128)
    ensures
        secs < 5 ==> level_after(secs).poll_ms() == 10 && level_after(secs).keepalive_secs() == 30,
        5 <= secs < 30 ==> level_after(secs).poll_ms() == 100 && level_after(secs).keepalive_secs()
            == 60,
        secs >= 30 ==> level_after(secs).poll_ms() == 500 && level_after(secs).keepalive_secs()
            == 120,
{
}

/// An entry of the peer list is passed over exactly if it is ourselves, or, unless
/// all peers connect anew, a peer that is connected.
pub proof fn law_entries_that_are_passed_over(
    entry: PeerEntry,
    anew: bool,
    our_id: PeerId,
    peers: Seq<PeerState>,
)
    ensures
        anew ==> (calls_for_nothing(entry, anew, our_id, peers) <==> entry.device_id == our_id),
        !anew ==> (calls_for_nothing(entry, anew, our_id, peers) <==> entry.device_id == our_id
            || exists|i: int| 0 <= i < peers.len() && (#[trigger] peers[i]).id == entry.device_id),
{
}

/// A peer is added once its registration went well, and only that peer: whatever
/// else is connected stays exactly as it was. A registration that failed changes
/// nothing.
pub proof fn law_only_registered_peers_are_added(
    run: PeerRun,
    peers: Seq<PeerState>,
    registered: bool,
    peer: PeerState,
)
    requires
        run.pending == Some(peer),
    ensures
        !registered ==> run.peers_after(peers, registered) == peers,
        registered ==> run.peers_after(peers, registered).contains(peer),
        forall|i: int|
            0 <= i < peers.len() && (#[trigger] peers[i]).id != peer.id ==> run.peers_after(
                peers,
                registered,
            )[i] == peers[i],
{
    law_adding_changes_no_other_peer(peers, peer);
}

/// The device with the lower identifier numbers its packets from zero on, the
/// other from 2^32 on.
pub proof fn law_lower_identifier_counts_from_zero(peer: PeerState, sent: u64)
    requires
        sent < 0x1_0000_0000,
    ensures
        peer.relay.our_id.bits < peer.relay.peer_id.bits ==> number_for(peer, sent) == sent,
        peer.relay.our_id.bits >= peer.relay.peer_id.bits ==> number_for(peer, sent)
            == 0x1_0000_0000 + sent,
{
}

/// Adding a peer leaves every other peer where and as it was, and leaves all else
/// that the engine knows as it was.
pub proof fn law_insert_peer(engine: &mut TunnelEngine, peer: PeerState)
    requires
        call_ensures(TunnelEngine::insert_peer, (engine, peer), ()),
    ensures
        final(engine).peers@.contains(peer),
        forall|i: int|
            0 <= i < old(engine).peers@.len() && (#[trigger] old(engine).peers@[i]).id != peer.id
                ==> final(engine).peers@[i] == old(engine).peers@[i],
        forall|i: int|
            0 <= i < final(engine).peers@.len() && (#[trigger] final(engine).peers@[i]).id
                == peer.id ==> final(engine).peers@[i] == peer,
        old(engine).peers@.len() <= final(engine).peers@.len() <= old(engine).peers@.len() + 1,
        final(engine).keypair == old(engine).keypair,
        final(engine).our_id == old(engine).our_id,
        final(engine).our_ip == old(engine).our_ip,
        final(engine).relay_server == old(engine).relay_server,
        final(engine).outbound_queue == old(engine).outbound_queue,
        final(engine).sent == old(engine).sent,
{
    law_adding_changes_no_other_peer(old(engine).peers@, peer);
}

/// While the engine reconnects, a packet is kept behind those that wait, together
/// with its address, as long as fewer than 256 wait; otherwise it is dropped, and
/// the others stay. While it is connected nothing is kept: the packet goes out or
/// is turned away. Either way there was traffic.
pub proof fn law_send_to_peer(
    engine: &mut TunnelEngine,
    packet: &[u8],
    dst: Ipv4Addr,
    now: u128,
    r: Result<SendAction, EngineError>,
)
    requires
        call_ensures(TunnelEngine::send_to_peer, (engine, packet, dst, now), r),
    ensures
        final(engine).activity == ActivityLevel::Active,
        final(engine).last_traffic == now,
        final(engine).peers == old(engine).peers,
        final(engine).state == old(engine).state,
        final(engine).our_id == old(engine).our_id,
        final(engine).relay_server == old(engine).relay_server,
        old(engine).state == ConnState::Reconnecting ==> {
            let waiting = old(engine).outbound_queue@.len() as int;
            &&& waiting < 256 ==> {
                &&& r matches Ok(SendAction::Queued)
                &&& final(engine).outbound_queue@.len() == waiting + 1
                &&& final(engine).outbound_queue@[waiting].0@ == packet@
                &&& final(engine).outbound_queue@[waiting].1 == dst
                &&& forall|i: int|
                    0 <= i < waiting ==> (#[trigger] final(engine).outbound_queue@[i]).0@ == old(engine).outbound_queue@[i].0@ && final(engine).outbound_queue@[i].1 == old(engine).outbound_queue@[i].1
            }
            &&& waiting >= 256 ==> {
                &&& r matches Ok(SendAction::Dropped)
                &&& final(engine).outbound_queue == old(engine).outbound_queue
            }
        },
        old(engine).state == ConnState::Connected ==> {
            &&& final(engine).outbound_queue == old(engine).outbound_queue
            &&& r matches Ok(action) ==> action is Send
            &&& r is Ok <==> packet@.len() <= 2020 && exists|i: int|
                0 <= i < old(engine).peers@.len() && (#[trigger] old(engine).peers@[i]).vip == dst
        },
{
    if old(engine).state == ConnState::Reconnecting && old(engine).outbound_queue@.len() < 256 {
        let was = queue_view(old(engine).outbound_queue@);
        let is = queue_view(final(engine).outbound_queue@);
        assert(is == was.push((packet@, dst)));
        assert(is.len() == final(engine).outbound_queue@.len());
        assert(is[was.len() as int] == (packet@, dst));
        assert forall|i: int| 0 <= i < was.len() implies (#[trigger] final(engine).outbound_queue@[i]).0@ == old(engine).outbound_queue@[i].0@ && final(engine).outbound_queue@[i].1 == old(engine).outbound_queue@[i].1 by {
            assert(is[i] == was[i]);
        }
    }
}

/// While an engine is connected whose peers are each reached under their own
/// identifiers, what it sends goes to the relay server, for a device that holds
/// the packet's address, and that device reads the packet out of it.
pub proof fn law_sent_packet_is_for_the_holder_of_its_address(
    engine: &mut TunnelEngine,
    packet: &[u8],
    dst: Ipv4Addr,
    now: u128,
    d: Datagram,
)
    requires
        call_ensures(
            TunnelEngine::send_to_peer,
            (engine, packet, dst, now),
            Ok::<SendAction, EngineError>(SendAction::Send(d)),
        ),
        old(engine).state == ConnState::Connected,
        old(engine).reaches_its_peers(),
    ensures
        d.to == old(engine).relay_server,
        d.payload@.subrange(2, 18) == old(engine).our_id@,
        exists|i: int|
            0 <= i < old(engine).peers@.len() && (#[trigger] old(engine).peers@[i]).vip == dst
                && d.payload@.subrange(18, 34) == old(engine).peers@[i].id@
                && key_exchange::message_in(
                old(engine).peers@[i].key@,
                d.payload@.subrange(36, d.payload@.len() as int),
            ) == Some(packet@),
{
    law_packet_goes_to_the_holder_of_its_address(
        old(engine).our_id,
        old(engine).relay_server,
        old(engine).peers@,
        old(engine).sent,
        packet@,
        dst,
        d,
    );
}

/// Once the engine is connected again nothing waits any more, and each packet that
/// waited has its outcome, in the order in which they came in: it went out if it is
/// short enough and some peer has its address.
pub proof fn law_finish_reconnect(
    engine: &mut TunnelEngine,
    flushed: Vec<Result<Datagram, EngineError>>,
    i: int,
)
    requires
        call_ensures(TunnelEngine::finish_reconnect, (engine,), flushed),
    ensures
        final(engine).state == ConnState::Connected,
        final(engine).outbound_queue@.len() == 0,
        final(engine).peers == old(engine).peers,
        final(engine).our_id == old(engine).our_id,
        flushed@.len() == old(engine).outbound_queue@.len(),
        0 <= i < flushed@.len() ==> (flushed@[i] is Ok <==> old(engine).outbound_queue@[i].0@.len() <= 2020 && exists|k: int|
            0 <= k < old(engine).peers@.len() && (#[trigger] old(engine).peers@[k]).vip == old(engine).outbound_queue@[i].1),
{
    if 0 <= i < flushed@.len() {
        law_waiting_packets_are_sent_in_order(
            old(engine).peers@,
            old(engine).sent,
            queue_view(old(engine).outbound_queue@),
            flushed@,
            i,
        );
    }
}

/// A change of the network only makes the engine wait: nothing that it knows is
/// lost.
pub proof fn law_begin_reconnect(engine: &mut TunnelEngine)
    requires
        call_ensures(TunnelEngine::begin_reconnect, (engine,), ()),
    ensures
        final(engine).state == ConnState::Reconnecting,
        final(engine).peers == old(engine).peers,
        final(engine).outbound_queue == old(engine).outbound_queue,
        final(engine).our_id == old(engine).our_id,
        final(engine).our_ip == old(engine).our_ip,
        final(engine).relay_server == old(engine).relay_server,
        final(engine).sent == old(engine).sent,
{
}

/// A packet for our own address comes back as it is, and nothing is sent; of
/// anything that is no IPv4 packet the engine makes nothing.
pub proof fn law_packet_for_ourselves_comes_back(
    engine: &mut TunnelEngine,
    packet: &[u8],
    now: u128,
    r: Result<(Vec<u8>, Option<SendAction>), EngineError>,
)
    requires
        call_ensures(TunnelEngine::engine_send_packet, (engine, packet, now), r),
    ensures
        packet@.len() < 20 || packet@[0] / 16 != 4 ==> {
            &&& r matches Err(EngineError::InvalidPacket)
            &&& *final(engine) == *old(engine)
        },
        packet@.len() >= 20 && packet@[0] / 16 == 4 && packet@[16] * 0x100_0000 + packet@[17]
            * 0x1_0000 + packet@[18] * 0x100 + packet@[19] == old(engine).our_ip.bits ==> {
            &&& r matches Ok((back, None))
            &&& back@ == packet@
            &&& *final(engine) == *old(engine)
        },
        packet@.len() >= 20 && packet@[0] / 16 == 4 && packet@[16] * 0x100_0000 + packet@[17]
            * 0x1_0000 + packet@[18] * 0x100 + packet@[19] != old(engine).our_ip.bits ==> {
            &&& final(engine).activity == ActivityLevel::Active
            &&& final(engine).last_traffic == now
            &&& r matches Ok((back, action)) ==> back@.len() == 0 && action is Some
        },
{
    law_destination_is_read_from_the_header(packet@);
    if let Some(dst) = destination(packet@) {
        assert(dst == Ipv4Addr { bits: dst.bits });
        assert(old(engine).our_ip == Ipv4Addr { bits: old(engine).our_ip.bits });
    }
}

/// What arrives while a peer is polled is handed on only if it is a data frame of
/// that peer which the key shared with that peer opens; otherwise the same peer is
/// polled on. When nothing more comes, the next peer has its turn, up to the last.
pub proof fn law_recv_from_any(
    engine: TunnelEngine,
    at: usize,
    event: PollEvent,
    action: PollAction,
)
    requires
        call_ensures(TunnelEngine::recv_from_any, (&engine, at, &event), action),
        at < engine.peers@.len(),
    ensures
        event matches PollEvent::Arrived(data) ==> match action {
            PollAction::Deliver(m) => {
                &&& data@.subrange(2, 18) == engine.peers@[at as int].relay.peer_id@
                &&& data@[1] == 2
                &&& key_exchange::message_in(
                    engine.peers@[at as int].key@,
                    data@.subrange(36, 36 + data@[34] * 256 + data@[35]),
                ) == Some(m@)
            },
            PollAction::Poll(next) => next == at,
            PollAction::NoData => false,
        },
        event is NoMore ==> {
            &&& at + 1 < engine.peers@.len() ==> (action matches PollAction::Poll(next) && next
                == at + 1)
            &&& at + 1 == engine.peers@.len() ==> action is NoData
        },
{
    if let PollEvent::Arrived(data) = event {
        if let Some(message) = received(engine.peers@[at as int], data@) {
            law_only_the_peers_own_packets_are_received(
                engine.peers@[at as int],
                data@,
                message,
            );
        }
    }
}

/// There is one keepalive for each peer: a frame without payload from us to the
/// relay.
pub proof fn law_send_keepalives(engine: TunnelEngine, out: Vec<Datagram>, i: int)
    requires
        call_ensures(TunnelEngine::send_keepalives, (&engine,), out),
        engine.reaches_its_peers(),
        0 <= i < engine.peers@.len(),
    ensures
        out@.len() == engine.peers@.len(),
        out@[i].to == engine.relay_server,
        out@[i].payload@.len() == 36,
        out@[i].payload@[1] == 3,
        out@[i].payload@.subrange(2, 18) == engine.our_id@,
{
    assert(is_addressed(engine.our_id, engine.relay_server, engine.peers@[i]));
    relay_proto::law_wire_bytes(Frame::signal(engine.our_id, MsgType::Keepalive));
    assert(out@[i].to == engine.peers@[i].relay.relay_addr);
}

/// The activity level follows from the time since there was traffic, in
/// nanoseconds: active for less than five seconds, idle for less than thirty, and
/// asleep after that. Nothing else changes.
pub proof fn law_update_activity(engine: &mut TunnelEngine, now: u128)
    requires
        call_ensures(TunnelEngine::update_activity, (engine, now), ()),
    ensures
        ({
            let idle = now - old(engine).last_traffic;
            &&& final(engine).activity is Active <==> idle < 5_000_000_000
            &&& final(engine).activity is Idle <==> 5_000_000_000 <= idle < 30_000_000_000
            &&& final(engine).activity is Sleep <==> idle >= 30_000_000_000
        }),
        final(engine).last_traffic == old(engine).last_traffic,
        final(engine).peers == old(engine).peers,
        final(engine).state == old(engine).state,
        final(engine).outbound_queue == old(engine).outbound_queue,
{
    law_whole_seconds_are_counted(now, old(engine).last_traffic);
}

/// Traffic makes the engine active from then on, and changes nothing else.
pub proof fn law_mark_traffic(engine: &mut TunnelEngine, now: u128)
    requires
        call_ensures(TunnelEngine::mark_traffic, (engine, now), ()),
    ensures
        final(engine).activity is Active,
        final(engine).last_traffic == now,
        final(engine).peers == old(engine).peers,
        final(engine).state == old(engine).state,
        final(engine).outbound_queue == old(engine).outbound_queue,
{
}

/// An engine never plans to register for itself. When it looks for new peers it
/// passes over those that are connected, and otherwise registers for every entry
/// whose address can be read.
pub proof fn law_peers_to_register_for(
    engine: TunnelEngine,
    p: PeerEntry,
    anew: bool,
    plan: Result<PeerPlan, EngineError>,
    vip: Ipv4Addr,
)
    requires
        anew ==> call_ensures(TunnelEngine::reconnect_peer, (&engine, &p), plan),
        !anew ==> call_ensures(TunnelEngine::sync_peer, (&engine, &p), plan),
        p.ipv4@ == vip.text(),
    ensures
        plan matches Ok(PeerPlan::Skip) <==> p.device_id == engine.our_id || !anew && exists|i: int|
            0 <= i < engine.peers@.len() && (#[trigger] engine.peers@[i]).id == p.device_id,
        plan matches Ok(PeerPlan::Register { peer, .. }) ==> peer.id == p.device_id && peer.vip
            == vip && is_addressed(engine.our_id, engine.relay_server, peer),
{
    if !(plan matches Ok(PeerPlan::Skip)) {
        law_planned_peer_is_the_listed_device(engine, p, vip, plan);
    } else {
        addr::law_text_roundtrip(vip);
    }
}

} // verus!
