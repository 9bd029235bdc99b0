//! The frames that peers and relay servers exchange over UDP.
//!
//! `[version:1][type:1][sender_id:16][target_id:16][payload_len:2 BE][payload:N]`

use vstd::prelude::*;

use crate::codec;

verus! {

/// Current protocol version byte.
pub const PROTO_VERSION: u8 = 0x01;

/// Maximum payload size for a single relayed DATA frame.
pub const MAX_PAYLOAD: usize = 2048;

/// Total header size: version(1) + type(1) + sender(16) + target(16) + len(2).
pub const HEADER_LEN: usize = 1 + 1 + 16 + 16 + 2;

/// A peer identifier: a 128-bit UUID, held as the number that its sixteen
/// bytes spell most significant first.
#[derive(Debug, Clone, Copy, PartialEq, Eq, Structural)]
pub struct PeerId {
    pub bits: u128,
}

impl View for PeerId {
    type V = Seq<u8>;

    /// The sixteen bytes of the identifier, in the order of the wire.
    open spec fn view(&self) -> Seq<u8> {
        codec::be_bytes(self.bits as nat, 16)
    }
}

impl PeerId {
    /// The identifier of no peer: all bits zero.
    pub fn nil() -> (id: Self)
        ensures
            id.bits == 0,
    {
        PeerId { bits: 0 }
    }

    /// The identifier with the given sixteen bytes.
    pub fn from_bytes(bytes: [u8; 16]) -> (id: Self)
        ensures
            id@ == bytes@,
            id.bits == codec::be_value(bytes@),
    {
        let bits: u128 = codec::read_be(bytes.as_slice(), 0, 16);
        proof {
            assert(bytes@.subrange(0, 16) =~= bytes@);
            codec::lemma_be_bytes_of_value(bytes@);
        }
        PeerId { bits }
    }

    /// The sixteen bytes of the identifier.
    pub fn to_bytes(&self) -> (bytes: Vec<u8>)
        ensures
            bytes@ == self@,
            bytes@.len() == 16,
    {
        let mut bytes: Vec<u8> = Vec::with_capacity(16);
        codec::push_be(&mut bytes, self.bits, 16);
        proof {
            codec::lemma_be_bytes_len(self.bits as nat, 16);
            assert(bytes@ =~= self@);
        }
        bytes
    }

    /// A fresh random identifier (a version 4 UUID).
    pub fn new_v4() -> (id: Self)
        ensures
            is_version_4(id.bits),
            id.bits != 0,
    {
        PeerId { bits: random_uuid() }
    }

    /// The identifier as text: its bytes as pairs of lowercase hexadecimal
    /// digits, in groups of 4, 2, 2, 2 and 6 bytes between hyphens.
    pub open spec fn text(self) -> Seq<char> {
        Seq::new(
            36,
            |i: int|
                if i == 8 || i == 13 || i == 18 || i == 23 {
                    '-'
                } else {
                    hex_digit(half_byte(self@, digit_place(i)))
                },
        )
    }

    /// The identifier as text.
    pub fn to_string(&self) -> (s: String)
        ensures
            s@ == self.text(),
            Self::parsed(s@) == Some(*self),
    {
        uuid_to_string(self.bits)
    }

    /// The identifier that a text stands for, in any form that a UUID is
    /// written in.
    pub fn parse_str(s: &str) -> (id: Option<Self>)
        ensures
            id == Self::parsed(s@),
            forall|other: PeerId| #[trigger] other.text() == s@ ==> id == Some(other),
    {
        match uuid_parse_str(s) {
            Some(bits) => {
                proof {
                    assert forall|other: PeerId| #[trigger] other.text() == s@ implies bits
                        == other.bits by {
                        assert(PeerId { bits: other.bits } == other);
                    }
                }
                Some(PeerId { bits })
            },
            None => {
                proof {
                    assert forall|other: PeerId| #[trigger] other.text() == s@ implies false by {
                        assert(PeerId { bits: other.bits } == other);
                    }
                }
                None
            },
        }
    }

    /// The identifier that a text stands for.
    pub open spec fn parsed(s: Seq<char>) -> Option<PeerId> {
        match uuid_of(s) {
            Some(bits) => Some(PeerId { bits }),
            None => None,
        }
    }
}

/// The hexadecimal digit for a number below sixteen.
pub open spec fn hex_digit(d: int) -> char {
    if d < 10 {
        ('0' as int + d) as char
    } else {
        ('a' as int + d - 10) as char
    }
}

/// The upper or lower half of a byte: half `k` of the whole, counted from the
/// left.
pub open spec fn half_byte(bytes: Seq<u8>, k: int) -> int {
    if k % 2 == 0 {
        bytes[k / 2] as int / 16
    } else {
        bytes[k / 2] as int % 16
    }
}

/// Which hexadecimal digit stands at place `i` of the text: there are four
/// hyphens among them.
pub open spec fn digit_place(i: int) -> int {
    if i < 8 {
        i
    } else if i < 13 {
        i - 1
    } else if i < 18 {
        i - 2
    } else if i < 23 {
        i - 3
    } else {
        i - 4
    }
}

/// What `uuid::Uuid::parse_str` reads in a text, as a number.
pub uninterp spec fn uuid_of(s: Seq<char>) -> Option<u128>;

/// `uuid::Uuid::to_string`: the hyphenated form in lowercase, which
/// `uuid::Uuid::parse_str` reads as the same identifier.
#[verifier::external_body]
fn uuid_to_string(bits: u128) -> (s: String)
    ensures
        s@ == (PeerId { bits }).text(),
        uuid_of(s@) == Some(bits),
{
    uuid::Uuid::from_u128(bits).to_string()
}

/// `uuid::Uuid::parse_str`: what it reads depends on the text alone, and the
/// hyphenated form in lowercase is read as the identifier written so. Which
/// other texts it reads is left unsaid.
#[verifier::external_body]
fn uuid_parse_str(s: &str) -> (bits: Option<u128>)
    ensures
        bits == uuid_of(s@),
        forall|b: u128| #[trigger] (PeerId { bits: b }).text() == s@ ==> bits == Some(b),
{
    match uuid::Uuid::parse_str(s) {
        Ok(id) => Some(id.as_u128()),
        Err(_) => None,
    }
}

proof fn lemma_hex_digit_injective(a: int, b: int)
    requires
        0 <= a < 16,
        0 <= b < 16,
        hex_digit(a) == hex_digit(b),
    ensures
        a == b,
{
}

/// No two identifiers are written alike.
pub proof fn law_id_text_injective(a: PeerId, b: PeerId)
    requires
        a.text() == b.text(),
    ensures
        a == b,
{
    codec::lemma_be_bytes_len(a.bits as nat, 16);
    codec::lemma_be_bytes_len(b.bits as nat, 16);
    assert forall|k: int| 0 <= k < 32 implies #[trigger] half_byte(a@, k) == half_byte(b@, k) by {
        let i = if k < 8 {
            k
        } else if k < 12 {
            k + 1
        } else if k < 16 {
            k + 2
        } else if k < 20 {
            k + 3
        } else {
            k + 4
        };
        assert(digit_place(i) == k);
        assert(a.text()[i] == hex_digit(half_byte(a@, digit_place(i))));
        assert(b.text()[i] == hex_digit(half_byte(b@, digit_place(i))));
        lemma_hex_digit_injective(half_byte(a@, k), half_byte(b@, k));
    }
    assert(a@ =~= b@) by {
        assert forall|j: int| 0 <= j < 16 implies a@[j] == b@[j] by {
            assert(half_byte(a@, 2 * j) == half_byte(b@, 2 * j));
            assert(half_byte(a@, 2 * j + 1) == half_byte(b@, 2 * j + 1));
            assert((2 * j) / 2 == j && (2 * j + 1) / 2 == j);
        }
    }
    codec::lemma_pow256_values();
    codec::lemma_be_value_of_bytes(a.bits as nat, 16);
    codec::lemma_be_value_of_bytes(b.bits as nat, 16);
}

/// Whether the bits are those of a random UUID: the version field holds 4
/// and the two variant bits hold binary `10`.
pub open spec fn is_version_4(bits: u128) -> bool {
    &&& (bits as nat / 0x1000_0000_0000_0000_0000) % 16 == 4
    &&& (bits as nat / 0x4000_0000_0000_0000) % 4 == 2
}

/// `uuid::Uuid::new_v4`, as a number. The identifier is random; that its
/// version field holds 4 and its variant bits hold binary `10` is claimed of
/// every outcome.
#[verifier::external_body]
fn random_uuid() -> (bits: u128)
    ensures
        is_version_4(bits),
{
    uuid::Uuid::new_v4().as_u128()
}

/// Relay protocol errors.
#[derive(Debug, Clone, Copy, PartialEq, Eq, Structural)]
pub enum ProtoError {
    /// The frame data is too short to contain a valid header.
    FrameTooShort(usize),
    /// Unknown protocol version.
    UnknownVersion(u8),
    /// Unknown message type.
    UnknownType(u8),
    /// Payload exceeds maximum allowed size.
    PayloadTooLarge(usize),
}

/// Relay message types.
#[derive(Debug, Clone, Copy, PartialEq, Eq, Structural)]
pub enum MsgType {
    /// Register this peer with the relay, or refresh the registration.
    Hello,
    /// Forward encrypted data from sender to target peer.
    Data,
    /// Keepalive / heartbeat.
    Keepalive,
}

impl MsgType {
    /// The byte that stands for the type on the wire.
    pub open spec fn byte(self) -> u8 {
        match self {
            MsgType::Hello => 0x01,
            MsgType::Data => 0x02,
            MsgType::Keepalive => 0x03,
        }
    }

    /// The type that a byte stands for, if it stands for one.
    pub open spec fn of_byte(b: u8) -> Option<MsgType> {
        if b == 0x01 {
            Some(MsgType::Hello)
        } else if b == 0x02 {
            Some(MsgType::Data)
        } else if b == 0x03 {
            Some(MsgType::Keepalive)
        } else {
            None
        }
    }

    /// Parse a message type from a raw byte.
    pub fn from_byte(b: u8) -> (ty: Option<Self>)
        ensures
            ty == Self::of_byte(b),
            forall|t: MsgType| ty == Some(t) <==> #[trigger] t.byte() == b,
    {
        match b {
            0x01 => Some(MsgType::Hello),
            0x02 => Some(MsgType::Data),
            0x03 => Some(MsgType::Keepalive),
            _ => None,
        }
    }

    /// The byte that stands for the type on the wire.
    pub fn to_byte(self) -> (b: u8)
        ensures
            b == self.byte(),
    {
        match self {
            MsgType::Hello => 0x01,
            MsgType::Data => 0x02,
            MsgType::Keepalive => 0x03,
        }
    }
}

/// A relay protocol frame.
///
/// - For `Hello` and `Keepalive`, `target_id` is set to nil (all zeros).
/// - For `Data`, `sender_id` is the origin and `target_id` is the
///   intended recipient. The relay forwards the payload to `target_id`.
#[derive(Debug, Clone)]
pub struct RelayFrame {
    /// The peer that originated this frame.
    pub sender_id: PeerId,
    /// The intended recipient (ignored for Hello / Keepalive).
    pub target_id: PeerId,
    /// Message type.
    pub msg_type: MsgType,
    /// Payload: for Data frames this is the encrypted tunnel packet.
    pub payload: Vec<u8>,
}

/// What a frame says.
#[verifier::ext_equal]
pub struct Frame {
    pub sender_id: PeerId,
    pub target_id: PeerId,
    pub msg_type: MsgType,
    pub payload: Seq<u8>,
}

impl View for RelayFrame {
    type V = Frame;

    open spec fn view(&self) -> Frame {
        Frame {
            sender_id: self.sender_id,
            target_id: self.target_id,
            msg_type: self.msg_type,
            payload: self.payload@,
        }
    }
}

impl Frame {
    /// A Data frame.
    pub open spec fn data(sender_id: PeerId, target_id: PeerId, payload: Seq<u8>) -> Frame {
        Frame { sender_id, target_id, msg_type: MsgType::Data, payload }
    }

    /// A frame that only names its sender.
    pub open spec fn signal(sender_id: PeerId, msg_type: MsgType) -> Frame {
        Frame { sender_id, target_id: PeerId { bits: 0 }, msg_type, payload: Seq::empty() }
    }

    /// The frame's bytes on the wire.
    pub open spec fn wire(self) -> Seq<u8> {
        seq![PROTO_VERSION, self.msg_type.byte()] + self.sender_id@ + self.target_id@ + codec::be_bytes(
            self.payload.len(),
            2,
        ) + self.payload
    }

    /// Whether the payload is small enough to be sent.
    pub open spec fn fits(self) -> bool {
        self.payload.len() <= MAX_PAYLOAD
    }

    /// How many payload bytes the header of `data` announces.
    pub open spec fn announced_len(data: Seq<u8>) -> nat {
        codec::be_value(data.subrange(34, 36))
    }

    /// The frame that the received bytes hold, or what is wrong with them.
    /// Bytes behind the announced payload are of no account.
    pub open spec fn parsed(data: Seq<u8>) -> Result<Frame, ProtoError> {
        if data.len() < HEADER_LEN {
            Err(ProtoError::FrameTooShort(data.len() as usize))
        } else if data[0] != PROTO_VERSION {
            Err(ProtoError::UnknownVersion(data[0]))
        } else if MsgType::of_byte(data[1]) is None {
            Err(ProtoError::UnknownType(data[1]))
        } else if data.len() < HEADER_LEN + Self::announced_len(data) {
            Err(ProtoError::FrameTooShort(data.len() as usize))
        } else if Self::announced_len(data) > MAX_PAYLOAD {
            Err(ProtoError::PayloadTooLarge(Self::announced_len(data) as usize))
        } else {
            Ok(
                Frame {
                    sender_id: PeerId { bits: codec::be_value(data.subrange(2, 18)) as u128 },
                    target_id: PeerId { bits: codec::be_value(data.subrange(18, 34)) as u128 },
                    msg_type: MsgType::of_byte(data[1])->0,
                    payload: data.subrange(
                        HEADER_LEN as int,
                        HEADER_LEN + Self::announced_len(data) as int,
                    ),
                },
            )
        }
    }
}

/// A result over frames, seen through the frames' views.
pub open spec fn view_frame(r: Result<RelayFrame, ProtoError>) -> Result<Frame, ProtoError> {
    match r {
        Ok(f) => Ok(f@),
        Err(e) => Err(e),
    }
}

impl RelayFrame {
    /// Create a HELLO frame from a peer.
    pub fn hello(sender_id: PeerId) -> (frame: Self)
        ensures
            frame@ == Frame::signal(sender_id, MsgType::Hello),
    {
        RelayFrame {
            sender_id,
            target_id: PeerId::nil(),
            msg_type: MsgType::Hello,
            payload: Vec::new(),
        }
    }

    /// Create a DATA frame carrying encrypted payload from `sender` to `target`.
    pub fn data(sender_id: PeerId, target_id: PeerId, encrypted_payload: Vec<u8>) -> (frame: Self)
        ensures
            frame@ == Frame::data(sender_id, target_id, encrypted_payload@),
    {
        RelayFrame { sender_id, target_id, msg_type: MsgType::Data, payload: encrypted_payload }
    }

    /// Create a KEEPALIVE frame.
    pub fn keepalive(sender_id: PeerId) -> (frame: Self)
        ensures
            frame@ == Frame::signal(sender_id, MsgType::Keepalive),
    {
        RelayFrame {
            sender_id,
            target_id: PeerId::nil(),
            msg_type: MsgType::Keepalive,
            payload: Vec::new(),
        }
    }

    /// Serialize this frame to bytes suitable for sending over UDP.
    ///
    /// Returns `ProtoError::PayloadTooLarge` if the payload exceeds `MAX_PAYLOAD`.
    pub fn encode(&self) -> (out: Result<Vec<u8>, ProtoError>)
        ensures
            out matches Ok(bytes) ==> self@.fits() && bytes@ == self@.wire(),
            out matches Err(e) ==> !self@.fits() && e == ProtoError::PayloadTooLarge(
                self.payload@.len() as usize,
            ),
    {
        if self.payload.len() > MAX_PAYLOAD {
            return Err(ProtoError::PayloadTooLarge(self.payload.len()));
        }
        let mut buf: Vec<u8> = Vec::with_capacity(HEADER_LEN + self.payload.len());
        buf.push(PROTO_VERSION);
        buf.push(self.msg_type.to_byte());
        codec::push_be(&mut buf, self.sender_id.bits, 16);
        codec::push_be(&mut buf, self.target_id.bits, 16);
        codec::push_be(&mut buf, self.payload.len() as u128, 2);
        codec::append(&mut buf, self.payload.as_slice());
        assert(buf@ =~= self@.wire());
        Ok(buf)
    }

    /// Deserialize a frame from raw bytes received over UDP.
    ///
    /// Returns `ProtoError` variants for malformed input, and for a payload
    /// that exceeds `MAX_PAYLOAD`.
    pub fn decode(data: &[u8]) -> (out: Result<Self, ProtoError>)
        ensures
            view_frame(out) == Frame::parsed(data@),
    {
        if data.len() < HEADER_LEN {
            return Err(ProtoError::FrameTooShort(data.len()));
        }
        let version: u8 = data[0];
        if version != PROTO_VERSION {
            return Err(ProtoError::UnknownVersion(version));
        }
        let msg_type = match MsgType::from_byte(data[1]) {
            Some(ty) => ty,
            None => return Err(ProtoError::UnknownType(data[1])),
        };
        let sender_id = PeerId { bits: codec::read_be(data, 2, 16) };
        let target_id = PeerId { bits: codec::read_be(data, 18, 16) };
        let announced: u128 = codec::read_be(data, 34, 2);
        proof {
            codec::lemma_pow256_values();
        }
        let payload_len: usize = announced as usize;
        let payload_end: usize = HEADER_LEN + payload_len;
        if data.len() < payload_end {
            return Err(ProtoError::FrameTooShort(data.len()));
        }
        if payload_len > MAX_PAYLOAD {
            return Err(ProtoError::PayloadTooLarge(payload_len));
        }
        let payload: Vec<u8> = codec::copy_range(data, HEADER_LEN, payload_end);
        Ok(RelayFrame { sender_id, target_id, msg_type, payload })
    }
}

/// What a frame's bytes look like, field by field.
pub proof fn lemma_wire_layout(frame: Frame)
    requires
        frame.fits(),
    ensures
        frame.wire().len() == HEADER_LEN + frame.payload.len(),
        frame.wire()[0] == PROTO_VERSION,
        frame.wire()[1] == frame.msg_type.byte(),
        frame.wire().subrange(2, 18) == frame.sender_id@,
        frame.wire().subrange(18, 34) == frame.target_id@,
        frame.wire().subrange(34, 36) == codec::be_bytes(frame.payload.len(), 2),
        frame.wire().subrange(HEADER_LEN as int, frame.wire().len() as int) == frame.payload,
{
    codec::lemma_be_bytes_len(frame.sender_id.bits as nat, 16);
    codec::lemma_be_bytes_len(frame.target_id.bits as nat, 16);
    codec::lemma_be_bytes_len(frame.payload.len(), 2);
    let w = frame.wire();
    assert(w.subrange(2, 18) =~= frame.sender_id@);
    assert(w.subrange(18, 34) =~= frame.target_id@);
    assert(w.subrange(34, 36) =~= codec::be_bytes(frame.payload.len(), 2));
    assert(w.subrange(HEADER_LEN as int, w.len() as int) =~= frame.payload);
}

/// Every frame that can be encoded decodes to itself.
pub proof fn law_encode_decode(frame: Frame)
    requires
        frame.fits(),
    ensures
        Frame::parsed(frame.wire()) == Ok::<Frame, ProtoError>(frame),
{
    lemma_wire_layout(frame);
    codec::lemma_pow256_values();
    codec::lemma_be_value_of_bytes(frame.sender_id.bits as nat, 16);
    codec::lemma_be_value_of_bytes(frame.target_id.bits as nat, 16);
    codec::lemma_be_value_of_bytes(frame.payload.len(), 2);
}

/// Decoding is the inverse of encoding on what it accepts: a frame that was
/// decoded can be encoded, and encodes to the very bytes it was read from, up
/// to the end of the announced payload, so decoding them again gives the same
/// frame.
pub proof fn law_decode_encode(data: Seq<u8>)
    requires
        Frame::parsed(data) is Ok,
    ensures
        ({
            let frame = Frame::parsed(data)->Ok_0;
            &&& frame.fits()
            &&& frame.wire() == data.subrange(0, HEADER_LEN + frame.payload.len())
            &&& Frame::parsed(frame.wire()) == Ok::<Frame, ProtoError>(frame)
        }),
{
    let frame = Frame::parsed(data)->Ok_0;
    codec::lemma_pow256_values();
    codec::lemma_be_value_bound(data.subrange(2, 18));
    codec::lemma_be_value_bound(data.subrange(18, 34));
    codec::lemma_be_bytes_of_value(data.subrange(2, 18));
    codec::lemma_be_bytes_of_value(data.subrange(18, 34));
    codec::lemma_be_bytes_of_value(data.subrange(34, 36));
    assert(frame.wire() =~= data.subrange(0, HEADER_LEN + frame.payload.len()));
    law_encode_decode(frame);
}

/// Two frames with the same bytes on the wire are the same frame.
pub proof fn law_wire_injective(a: Frame, b: Frame)
    requires
        a.fits(),
        b.fits(),
        a.wire() == b.wire(),
    ensures
        a == b,
{
    law_encode_decode(a);
    law_encode_decode(b);
}

/// A frame on the wire, byte by byte: a 1 for the version, the type, the sixteen
/// bytes of the sender, the sixteen bytes of the target, the length of the
/// payload, and the payload.
pub proof fn law_wire_bytes(frame: Frame)
    requires
        frame.payload.len() <= 2048,
    ensures
        frame.wire().len() == 36 + frame.payload.len(),
        frame.wire()[0] == 1,
        frame.wire()[1] == match frame.msg_type {
            MsgType::Hello => 1int,
            MsgType::Data => 2int,
            MsgType::Keepalive => 3int,
        },
        frame.wire().subrange(2, 18) == frame.sender_id@,
        frame.wire().subrange(18, 34) == frame.target_id@,
        frame.wire()[34] * 256 + frame.wire()[35] == frame.payload.len(),
        forall|i: int|
            0 <= i < frame.payload.len() ==> #[trigger] frame.wire()[36 + i] == frame.payload[i],
{
    lemma_wire_layout(frame);
    let w = frame.wire();
    codec::lemma_pow256_values();
    codec::lemma_be_value_of_bytes(frame.payload.len(), 2);
    codec::lemma_be_value_2(w.subrange(34, 36));
    assert forall|i: int| 0 <= i < frame.payload.len() implies #[trigger] w[36 + i]
        == frame.payload[i] by {
        assert(w.subrange(36, w.len() as int)[i] == frame.payload[i]);
    }
}

/// Bytes are read as a frame exactly if they begin with a 1 and with one of the
/// three types, and if there are as many bytes behind the header as it announces,
/// which may be at most 2048. Each field is read from its own place.
pub proof fn law_frame_is_read_from_its_places(data: Seq<u8>)
    ensures
        ({
            let len = data[34] * 256 + data[35];
            let is_frame = data.len() >= 36 && data[0] == 1 && 1 <= data[1] <= 3 && data.len()
                >= 36 + len && len <= 2048;
            &&& Frame::parsed(data) is Ok <==> is_frame
            &&& Frame::parsed(data) matches Ok(frame) ==> {
                &&& frame.msg_type is Hello <==> data[1] == 1
                &&& frame.msg_type is Data <==> data[1] == 2
                &&& frame.msg_type is Keepalive <==> data[1] == 3
                &&& frame.sender_id@ == data.subrange(2, 18)
                &&& frame.target_id@ == data.subrange(18, 34)
                &&& frame.payload == data.subrange(36, 36 + len)
            }
        }),
{
    if data.len() >= 36 {
        codec::lemma_be_value_2(data.subrange(34, 36));
        if Frame::parsed(data) is Ok {
            let frame = Frame::parsed(data)->Ok_0;
            law_decode_encode(data);
            lemma_wire_layout(frame);
            assert(frame.wire().subrange(2, 18) =~= data.subrange(2, 18));
            assert(frame.wire().subrange(18, 34) =~= data.subrange(18, 34));
        }
    }
}

/// A payload is small enough to be sent if it has at most 2048 bytes.
pub proof fn law_payload_limit(frame: Frame)
    ensures
        frame.fits() <==> frame.payload.len() <= 2048,
{
}

/// What is wrong with bytes that are no frame. What comes first in this order is
/// what is told: there is no whole header; the version; the type; there are fewer
/// bytes than the header announces; it announces too many.
pub proof fn law_why_bytes_are_no_frame(data: Seq<u8>)
    requires
        data.len() <= usize::MAX,
    ensures
        ({
            let len = data[34] * 256 + data[35];
            let known = 1 <= data[1] <= 3;
            let r = Frame::parsed(data);
            &&& data.len() < 36 ==> r == Err::<Frame, ProtoError>(
                ProtoError::FrameTooShort(data.len() as usize),
            )
            &&& data.len() >= 36 && data[0] != 1 ==> r == Err::<Frame, ProtoError>(
                ProtoError::UnknownVersion(data[0]),
            )
            &&& data.len() >= 36 && data[0] == 1 && !known ==> r == Err::<Frame, ProtoError>(
                ProtoError::UnknownType(data[1]),
            )
            &&& data.len() >= 36 && data[0] == 1 && known && data.len() < 36 + len ==> r == Err::<
                Frame,
                ProtoError,
            >(ProtoError::FrameTooShort(data.len() as usize))
            &&& data.len() >= 36 && data[0] == 1 && known && data.len() >= 36 + len && len > 2048
                ==> r == Err::<Frame, ProtoError>(ProtoError::PayloadTooLarge(len as usize))
        }),
{
    if data.len() >= 36 {
        codec::lemma_be_value_2(data.subrange(34, 36));
    }
}

} // verus!
