//! A client that reaches its peer through a relay server.

use vstd::prelude::*;

use crate::addr::{Datagram, SocketAddr};
use crate::codec;
use crate::error::{IoError, IoErrorKind};
use crate::relay_proto::{Frame, MsgType, PeerId, RelayFrame, MAX_PAYLOAD};

verus! {

/// A minimal client for communicating through a relay server.
///
/// The relay client sends encrypted data wrapped in relay DATA frames
/// and receives DATA frames from other peers forwarded by the relay.
#[derive(Debug, Clone, Copy, PartialEq, Eq, Structural)]
pub struct RelayClient {
    /// The relay server.
    pub relay_addr: SocketAddr,
    /// Our own identifier.
    pub our_id: PeerId,
    /// The peer that is talked to.
    pub peer_id: PeerId,
}

/// What a client for messages of `peer_id` makes of the bytes it receives:
/// the payload of a Data frame from that peer; nothing of anything else.
pub open spec fn delivered(peer_id: PeerId, data: Seq<u8>) -> Option<Seq<u8>> {
    match Frame::parsed(data) {
        Ok(frame) => if frame.msg_type == MsgType::Data && frame.sender_id == peer_id {
            Some(frame.payload)
        } else {
            None
        },
        Err(_) => None,
    }
}

/// The bytes of a frame that is small enough to be sent.
pub(crate) fn encode_small(frame: RelayFrame) -> (bytes: Vec<u8>)
    requires
        frame@.fits(),
    ensures
        bytes@ == frame@.wire(),
{
    match frame.encode() {
        Ok(bytes) => bytes,
        Err(_) => Vec::new(),
    }
}

impl RelayClient {
    /// A client of a relay server, and the HELLO that registers it there.
    pub fn register(relay_addr: SocketAddr, our_id: PeerId, peer_id: PeerId) -> (r: (
        Self,
        Datagram,
    ))
        ensures
            r.0 == (RelayClient { relay_addr, our_id, peer_id }),
            r.1.to == relay_addr,
            r.1.payload@ == Frame::signal(our_id, MsgType::Hello).wire(),
    {
        let payload: Vec<u8> = encode_small(RelayFrame::hello(our_id));
        (RelayClient { relay_addr, our_id, peer_id }, Datagram { to: relay_addr, payload })
    }

    /// Encrypted data for the target peer, wrapped for the relay.
    ///
    /// Fails if the data is longer than a frame may be.
    pub fn send(&self, encrypted_data: &[u8]) -> (out: Result<Datagram, IoError>)
        ensures
            out is Ok <==> encrypted_data@.len() <= MAX_PAYLOAD,
            out matches Ok(d) ==> d.to == self.relay_addr && d.payload@ == Frame::data(
                self.our_id,
                self.peer_id,
                encrypted_data@,
            ).wire(),
            out matches Err(e) ==> e.kind == IoErrorKind::Other && e.message@
                == "payload too large"@,
    {
        let data: Vec<u8> = codec::copy_range(encrypted_data, 0, encrypted_data.len());
        assert(data@ =~= encrypted_data@);
        match RelayFrame::data(self.our_id, self.peer_id, data).encode() {
            Ok(payload) => Ok(Datagram { to: self.relay_addr, payload }),
            Err(_) => Err(IoError::new(IoErrorKind::Other, "payload too large")),
        }
    }

    /// The payload (encrypted tunnel packet) and the sender's ID, if the
    /// bytes are a relayed DATA frame from the remote peer. All else that
    /// arrives is passed over.
    pub fn recv(&self, data: &[u8]) -> (out: Option<(Vec<u8>, PeerId)>)
        ensures
            out is Some <==> delivered(self.peer_id, data@) is Some,
            out matches Some((payload, sender)) ==> {
                &&& delivered(self.peer_id, data@) == Some(payload@)
                &&& sender == self.peer_id
            },
    {
        match RelayFrame::decode(data) {
            Ok(frame) => {
                if frame.msg_type == MsgType::Data && frame.sender_id == self.peer_id {
                    Some((frame.payload, frame.sender_id))
                } else {
                    None
                }
            },
            Err(_) => None,
        }
    }

    /// A keepalive for the relay, to maintain the registration.
    pub fn keepalive(&self) -> (out: Datagram)
        ensures
            out.to == self.relay_addr,
            out.payload@ == Frame::signal(self.our_id, MsgType::Keepalive).wire(),
    {
        Datagram {
            to: self.relay_addr,
            payload: encode_small(RelayFrame::keepalive(self.our_id)),
        }
    }
}

} // verus!
