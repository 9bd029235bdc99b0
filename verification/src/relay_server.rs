//! The relay server: forwards encrypted packets between peers.

use std::collections::HashMap;

use vstd::prelude::*;

use crate::addr::SocketAddr;
use crate::codec;
use crate::relay_proto;
use crate::relay_proto::{Frame, MsgType, PeerId, ProtoError, RelayFrame, MAX_PAYLOAD};
use crate::tunnel::relay;

verus! {

/// The peers that registered, each with the addresses that it registered from.
///
/// A peer may talk to several others, through a client of its own for each:
/// all of them register under the peer's identifier.
pub struct RelayTable {
    peers: HashMap<u128, Vec<SocketAddr>>,
}

/// What the relay does about a frame.
#[verifier::ext_equal]
pub enum Step {
    /// The sender is now known at the address it sent from.
    Registered { peer: PeerId, first: bool },
    /// The sender is still there.
    Kept { peer: PeerId },
    /// The bytes go on to all addresses of the target.
    Forwarded { to: Seq<SocketAddr>, payload: Seq<u8> },
    /// The target is unknown, so the data is dropped.
    UnknownTarget { target: PeerId },
    /// The bytes are no frame, and are dropped.
    BadFrame { error: ProtoError },
}

/// What the relay server does next, or has just done.
#[derive(Debug, Clone)]
pub enum RelayAction {
    /// The sender is now known at the address it sent from.
    Registered { peer: PeerId, first: bool },
    /// The sender is still there.
    Kept { peer: PeerId },
    /// Send the payload to each of these addresses.
    Forward { to: Vec<SocketAddr>, payload: Vec<u8> },
    /// The target is unknown, so the data is dropped.
    UnknownTarget { target: PeerId },
    /// The bytes are no frame, and are dropped.
    BadFrame(ProtoError),
}

/// The step that an action is.
pub open spec fn step_of(action: RelayAction) -> Step {
    match action {
        RelayAction::Registered { peer, first } => Step::Registered { peer, first },
        RelayAction::Kept { peer } => Step::Kept { peer },
        RelayAction::Forward { to, payload } => Step::Forwarded { to: to@, payload: payload@ },
        RelayAction::UnknownTarget { target } => Step::UnknownTarget { target },
        RelayAction::BadFrame(error) => Step::BadFrame { error },
    }
}

/// The addresses of a peer; none if it has not registered.
pub open spec fn addresses_of(
    peers: Map<PeerId, Seq<SocketAddr>>,
    peer: PeerId,
) -> Seq<SocketAddr> {
    if peers.contains_key(peer) {
        peers[peer]
    } else {
        Seq::empty()
    }
}

/// The addresses once one more was registered, or registered anew.
pub open spec fn with_address(addresses: Seq<SocketAddr>, src: SocketAddr) -> Seq<SocketAddr> {
    if addresses.contains(src) {
        addresses
    } else {
        addresses.push(src)
    }
}

/// The peers that are known after `data` arrived from `src`: HELLO and
/// KEEPALIVE register their sender there, nothing else changes the table.
pub open spec fn known_after(
    peers: Map<PeerId, Seq<SocketAddr>>,
    src: SocketAddr,
    data: Seq<u8>,
) -> Map<PeerId, Seq<SocketAddr>> {
    match Frame::parsed(data) {
        Ok(frame) => if frame.msg_type == MsgType::Data {
            peers
        } else {
            peers.insert(
                frame.sender_id,
                with_address(addresses_of(peers, frame.sender_id), src),
            )
        },
        Err(_) => peers,
    }
}

/// What the relay does about `data`.
pub open spec fn step(peers: Map<PeerId, Seq<SocketAddr>>, data: Seq<u8>) -> Step {
    match Frame::parsed(data) {
        Ok(frame) => match frame.msg_type {
            MsgType::Hello => Step::Registered {
                peer: frame.sender_id,
                first: !peers.contains_key(frame.sender_id),
            },
            MsgType::Keepalive => Step::Kept { peer: frame.sender_id },
            MsgType::Data => if !peers.contains_key(frame.target_id) {
                Step::UnknownTarget { target: frame.target_id }
            } else {
                Step::Forwarded {
                    to: peers[frame.target_id],
                    payload: Frame::data(
                        frame.sender_id,
                        frame.target_id,
                        frame.payload,
                    ).wire(),
                }
            },
        },
        Err(error) => Step::BadFrame { error },
    }
}

impl View for RelayTable {
    type V = Map<PeerId, Seq<SocketAddr>>;

    closed spec fn view(&self) -> Map<PeerId, Seq<SocketAddr>> {
        Map::new(
            |id: PeerId| self.peers@.contains_key(id.bits),
            |id: PeerId| self.peers@[id.bits]@,
        )
    }
}

impl RelayTable {
    /// A relay that knows no peer.
    pub fn new() -> (table: Self)
        ensures
            table@ == Map::<PeerId, Seq<SocketAddr>>::empty(),
    {
        RelayTable { peers: HashMap::new() }
    }

    /// The addresses of a peer, if it has registered.
    fn find(&self, peer: PeerId) -> (addresses: Option<Vec<SocketAddr>>)
        ensures
            addresses is Some <==> self@.contains_key(peer),
            addresses matches Some(list) ==> list@ == self@[peer],
    {
        match self.peers.get(&peer.bits) {
            Some(list) => {
                let mut copy: Vec<SocketAddr> = Vec::new();
                let mut i: usize = 0;
                while i < list.len()
                    invariant
                        i <= list@.len(),
                        copy@ == list@.subrange(0, i as int),
                    decreases list@.len() - i,
                {
                    copy.push(list[i]);
                    i = i + 1;
                    assert(copy@ =~= list@.subrange(0, i as int));
                }
                assert(list@.subrange(0, i as int) =~= list@);
                Some(copy)
            },
            None => None,
        }
    }

    /// Remember where a peer sends from; tells whether it was unknown.
    fn insert(&mut self, peer: PeerId, src: SocketAddr) -> (first: bool)
        ensures
            final(self)@ == old(self)@.insert(
                peer,
                with_address(addresses_of(old(self)@, peer), src),
            ),
            first == !old(self)@.contains_key(peer),
    {
        let (mut addresses, first): (Vec<SocketAddr>, bool) = match self.find(peer) {
            Some(list) => (list, false),
            None => (Vec::new(), true),
        };
        let ghost before = addresses@;
        assert(before =~= addresses_of(self@, peer));
        let mut found: bool = false;
        let mut i: usize = 0;
        while i < addresses.len()
            invariant
                i <= addresses@.len(),
                addresses@ == before,
                found <==> exists|j: int| 0 <= j < i && #[trigger] before[j] == src,
            decreases addresses@.len() - i,
        {
            if addresses[i] == src {
                assert(before[i as int] == src);
                found = true;
            }
            i = i + 1;
        }
        if !found {
            addresses.push(src);
        }
        assert(addresses@ == with_address(before, src));
        self.peers.insert(peer.bits, addresses);
        assert(self@ =~= old(self)@.insert(peer, with_address(before, src))) by {
            assert forall|id: PeerId| id != peer implies #[trigger] id.bits != peer.bits by {
                if id.bits == peer.bits {
                    assert(id == PeerId { bits: id.bits });
                }
            }
        }
        first
    }

    /// Handle one datagram that arrived from `src`.
    pub fn handle(&mut self, src: SocketAddr, data: &[u8]) -> (action: RelayAction)
        ensures
            final(self)@ == known_after(old(self)@, src, data@),
            step_of(action) == step(old(self)@, data@),
    {
        let frame = match RelayFrame::decode(data) {
            Ok(frame) => frame,
            Err(e) => {
                return RelayAction::BadFrame(e);
            },
        };
        match frame.msg_type {
            MsgType::Hello => {
                let first: bool = self.insert(frame.sender_id, src);
                RelayAction::Registered { peer: frame.sender_id, first }
            },
            MsgType::Keepalive => {
                let _first: bool = self.insert(frame.sender_id, src);
                RelayAction::Kept { peer: frame.sender_id }
            },
            MsgType::Data => {
                match self.find(frame.target_id) {
                    Some(to) => {
                        let forward = RelayFrame::data(
                            frame.sender_id,
                            frame.target_id,
                            frame.payload,
                        );
                        RelayAction::Forward { to, payload: relay::encode_small(forward) }
                    },
                    None => RelayAction::UnknownTarget { target: frame.target_id },
                }
            },
        }
    }
}

/// Data that one peer sends to another reaches each client that the other has
/// registered: the relay passes it on to the address that the client registered
/// from, and there it is taken for a message of the sender, with the bytes that
/// were sent.
pub proof fn law_relayed_data_is_delivered(
    peers: Map<PeerId, Seq<SocketAddr>>,
    sender: PeerId,
    target: PeerId,
    target_addr: SocketAddr,
    message: Seq<u8>,
)
    requires
        message.len() <= MAX_PAYLOAD,
    ensures
        ({
            let hello = Frame::signal(target, MsgType::Hello).wire();
            let registered = known_after(peers, target_addr, hello);
            let sent = Frame::data(sender, target, message).wire();
            &&& step(registered, sent) == (Step::Forwarded {
                to: registered[target],
                payload: sent,
            })
            &&& registered[target].contains(target_addr)
            &&& known_after(registered, target_addr, sent) == registered
            &&& relay::delivered(sender, sent) == Some(message)
        }),
{
    relay_proto::law_encode_decode(Frame::signal(target, MsgType::Hello));
    relay_proto::law_encode_decode(Frame::data(sender, target, message));
    let before = addresses_of(peers, target);
    if !before.contains(target_addr) {
        assert(before.push(target_addr)[before.len() as int] == target_addr);
    }
}

/// Whatever arrives later, also from other clients of the same peer, a client
/// that has registered stays registered.
pub proof fn law_registered_client_stays(
    peers: Map<PeerId, Seq<SocketAddr>>,
    src: SocketAddr,
    data: Seq<u8>,
    peer: PeerId,
    client: SocketAddr,
)
    requires
        peers.contains_key(peer),
        peers[peer].contains(client),
    ensures
        known_after(peers, src, data).contains_key(peer),
        known_after(peers, src, data)[peer].contains(client),
{
    let i = choose|i: int| 0 <= i < peers[peer].len() && peers[peer][i] == client;
    assert(with_address(peers[peer], src)[i] == client);
}

/// Whatever one peer registers, another peer keeps its addresses.
pub proof fn law_peers_register_apart(
    peers: Map<PeerId, Seq<SocketAddr>>,
    src: SocketAddr,
    data: Seq<u8>,
    other: PeerId,
)
    requires
        peers.contains_key(other),
        Frame::parsed(data) matches Ok(frame) ==> frame.sender_id != other,
    ensures
        known_after(peers, src, data).contains_key(other),
        known_after(peers, src, data)[other] == peers[other],
{
}

/// What the relay drops changes nothing.
pub proof fn law_dropped_changes_nothing(
    peers: Map<PeerId, Seq<SocketAddr>>,
    src: SocketAddr,
    data: Seq<u8>,
)
    requires
        step(peers, data) is BadFrame || step(peers, data) is UnknownTarget,
    ensures
        known_after(peers, src, data) == peers,
{
}

/// What the relay passes on are the bytes of the frame as they came, to all
/// addresses of the frame's target and to no others. It does so for every data
/// frame whose target has registered, and for nothing else.
pub proof fn law_data_goes_unchanged_to_its_target(
    peers: Map<PeerId, Seq<SocketAddr>>,
    data: Seq<u8>,
    target: PeerId,
)
    requires
        data.len() >= 36,
        data.subrange(18, 34) == target@,
    ensures
        ({
            let len = data[34] * 256 + data[35];
            let is_data = data[0] == 1 && data[1] == 2 && data.len() >= 36 + len && len <= 2048;
            &&& step(peers, data) is Forwarded <==> is_data && peers.contains_key(target)
            &&& step(peers, data) is UnknownTarget <==> is_data && !peers.contains_key(target)
            &&& is_data && peers.contains_key(target) ==> step(peers, data) == (Step::Forwarded {
                to: peers[target],
                payload: data.subrange(0, 36 + len),
            })
            &&& is_data && !peers.contains_key(target) ==> step(peers, data)
                == (Step::UnknownTarget { target })
        }),
{
    relay_proto::law_frame_is_read_from_its_places(data);
    if let Ok(frame) = Frame::parsed(data) {
        relay_proto::law_decode_encode(data);
        lemma_id_of_bytes(frame.target_id, target);
        assert(frame == Frame::data(frame.sender_id, frame.target_id, frame.payload) || !(
        frame.msg_type is Data));
    }
}

proof fn lemma_id_of_bytes(a: PeerId, b: PeerId)
    requires
        a@ == b@,
    ensures
        a == b,
{
    codec::lemma_pow256_values();
    codec::lemma_be_value_of_bytes(a.bits as nat, 16);
    codec::lemma_be_value_of_bytes(b.bits as nat, 16);
    assert(a == PeerId { bits: a.bits });
    assert(b == PeerId { bits: b.bits });
}

/// A HELLO and a KEEPALIVE register their sender at the address that they came
/// from, in addition to those that it has; nothing else changes the table, and
/// nobody else's addresses change.
pub proof fn law_only_the_sender_is_registered(
    peers: Map<PeerId, Seq<SocketAddr>>,
    src: SocketAddr,
    data: Seq<u8>,
    peer: PeerId,
)
    ensures
        ({
            let after = known_after(peers, src, data);
            let registers = Frame::parsed(data) matches Ok(frame) && frame.sender_id == peer && (
            data[1] == 1 || data[1] == 3);
            &&& after.contains_key(peer) <==> peers.contains_key(peer) || registers
            &&& !registers && peers.contains_key(peer) ==> after[peer] == peers[peer]
            &&& registers ==> after[peer].contains(src)
            &&& registers && !peers.contains_key(peer) ==> after[peer] == seq![src]
            &&& registers && peers.contains_key(peer) && peers[peer].contains(src) ==> after[peer]
                == peers[peer]
            &&& registers && peers.contains_key(peer) && !peers[peer].contains(src)
                ==> after[peer] == peers[peer].push(src)
        }),
{
    relay_proto::law_frame_is_read_from_its_places(data);
    if let Ok(frame) = Frame::parsed(data) {
        let before = addresses_of(peers, frame.sender_id);
        if !before.contains(src) {
            assert(before.push(src)[before.len() as int] == src);
        }
        if !peers.contains_key(peer) {
            assert(Seq::<SocketAddr>::empty().push(src) =~= seq![src]);
        }
    }
}

/// The sender of a HELLO is told apart as new exactly if it had not registered
/// before; that of a KEEPALIVE is not.
pub proof fn law_registering_names_the_sender(
    peers: Map<PeerId, Seq<SocketAddr>>,
    data: Seq<u8>,
    sender: PeerId,
)
    requires
        data.len() >= 36,
        data[0] == 1,
        data[34] * 256 + data[35] == 0,
        data.subrange(2, 18) == sender@,
    ensures
        data[1] == 1 ==> step(peers, data) == (Step::Registered {
            peer: sender,
            first: !peers.contains_key(sender),
        }),
        data[1] == 3 ==> step(peers, data) == (Step::Kept { peer: sender }),
{
    relay_proto::law_frame_is_read_from_its_places(data);
    if let Ok(frame) = Frame::parsed(data) {
        lemma_id_of_bytes(frame.sender_id, sender);
    }
}

/// What the relay forwards goes to every address of the frame's target, as the
/// bytes came, and leaves the table as it was.
pub proof fn law_handle_forwards(
    table: &mut RelayTable,
    src: SocketAddr,
    data: &[u8],
    to: Vec<SocketAddr>,
    payload: Vec<u8>,
    target: PeerId,
)
    requires
        call_ensures(
            RelayTable::handle,
            (table, src, data),
            RelayAction::Forward { to, payload },
        ),
        data@.len() >= 36,
        data@.subrange(18, 34) == target@,
    ensures
        data@[1] == 2,
        old(table)@.contains_key(target),
        to@ == old(table)@[target],
        payload@ == data@.subrange(0, 36 + data@[34] * 256 + data@[35]),
        final(table)@ == old(table)@,
{
    law_data_goes_unchanged_to_its_target(old(table)@, data@, target);
    relay_proto::law_frame_is_read_from_its_places(data@);
}

} // verus!
