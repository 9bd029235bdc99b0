//! Address discovery with STUN binding requests: the messages, and the client
//! that asks.

use vstd::prelude::*;

use crate::addr::{Datagram, Ipv4Addr, SocketAddr};
use crate::codec;
use crate::error::IoError;

verus! {

pub const MAGIC_COOKIE: u32 = 0x2112_A442;

/// The upper half of the magic cookie, which masks ports.
pub const PORT_MASK: u16 = 0x2112;

pub const BINDING_REQUEST: u16 = 0x0001;

pub const BINDING_SUCCESS: u16 = 0x0101;

pub const ATTR_XOR_MAPPED_ADDRESS: u16 = 0x0020;

pub const HEADER_LEN: usize = 20;

pub const IPV4_FAMILY: u8 = 0x01;

pub const IPV6_FAMILY: u8 = 0x02;

/// STUN operation errors.
#[derive(Debug, Clone, PartialEq, Eq)]
pub enum StunError {
    /// I/O error communicating with the STUN server.
    Io(IoError),
    /// The STUN server returned an unexpected response type.
    UnexpectedResponse(u16),
    /// The response transaction ID does not match the request.
    TransactionMismatch,
    /// Failed to parse the XOR-MAPPED-ADDRESS attribute.
    MissingMappedAddress,
    /// The server address could not be parsed.
    InvalidServerAddress,
}

/// The two bytes at `at`, as a big-endian number.
pub open spec fn word_at(s: Seq<u8>, at: int) -> u16 {
    codec::be_value(s.subrange(at, at + 2)) as u16
}

/// The four bytes at `at`, as a big-endian number.
pub open spec fn long_at(s: Seq<u8>, at: int) -> u32 {
    codec::be_value(s.subrange(at, at + 4)) as u32
}

pub fn read_word(s: &[u8], at: usize) -> (v: u16)
    requires
        at + 2 <= s@.len(),
    ensures
        v == word_at(s@, at as int),
{
    proof {
        codec::lemma_pow256_values();
    }
    codec::read_be(s, at, 2) as u16
}

pub fn read_long(s: &[u8], at: usize) -> (v: u32)
    requires
        at + 4 <= s@.len(),
    ensures
        v == long_at(s@, at as int),
{
    proof {
        codec::lemma_pow256_values();
    }
    codec::read_be(s, at, 4) as u32
}

/// A STUN message: type, length of the attributes, magic cookie,
/// transaction ID, attributes.
pub open spec fn message(msg_type: u16, tx_id: Seq<u8>, attrs: Seq<u8>) -> Seq<u8> {
    codec::be_bytes(msg_type as nat, 2) + codec::be_bytes(attrs.len(), 2) + codec::be_bytes(
        MAGIC_COOKIE as nat,
        4,
    ) + tx_id + attrs
}

pub fn build_message(msg_type: u16, tx_id: &[u8], attrs: &[u8]) -> (buf: Vec<u8>)
    requires
        attrs@.len() <= u16::MAX,
    ensures
        buf@ == message(msg_type, tx_id@, attrs@),
{
    let mut buf: Vec<u8> = Vec::with_capacity(HEADER_LEN + attrs.len());
    codec::push_be(&mut buf, msg_type as u128, 2);
    codec::push_be(&mut buf, attrs.len() as u128, 2);
    codec::push_be(&mut buf, MAGIC_COOKIE as u128, 4);
    codec::append(&mut buf, tx_id);
    codec::append(&mut buf, attrs);
    assert(buf@ =~= message(msg_type, tx_id@, attrs@));
    buf
}

/// A binding request: no attributes.
pub fn build_binding_request(tx_id: &[u8; 12]) -> (buf: Vec<u8>)
    ensures
        buf@ == message(BINDING_REQUEST, tx_id@, Seq::empty()),
{
    let none: [u8; 0] = [];
    assert(none@ =~= Seq::<u8>::empty());
    build_message(BINDING_REQUEST, tx_id.as_slice(), none.as_slice())
}

/// The parts of a STUN message: its type, transaction ID and attributes.
pub struct Parts {
    pub msg_type: u16,
    pub tx_id: Seq<u8>,
    pub attrs: Seq<u8>,
}

/// The parts of the bytes that were received, if they carry the magic
/// cookie. The attributes end where the header says, or where the bytes do.
pub open spec fn parts_of(data: Seq<u8>) -> Option<Parts> {
    if data.len() < HEADER_LEN || long_at(data, 4) != MAGIC_COOKIE {
        None
    } else {
        let announced = HEADER_LEN + word_at(data, 2);
        let end = if announced <= data.len() {
            announced
        } else {
            data.len() as int
        };
        Some(
            Parts {
                msg_type: word_at(data, 0),
                tx_id: data.subrange(8, 20),
                attrs: data.subrange(HEADER_LEN as int, end),
            },
        )
    }
}

/// Takes a STUN message apart. Anything that is none has no mapped address.
pub fn parse_response(data: &[u8]) -> (r: Result<(u16, [u8; 12], &[u8]), StunError>)
    ensures
        r matches Ok((msg_type, tx_id, attrs)) ==> parts_of(data@) == Some(
            (Parts { msg_type, tx_id: tx_id@, attrs: attrs@ }),
        ),
        r matches Err(e) ==> parts_of(data@) is None && e == StunError::MissingMappedAddress,
{
    if data.len() < HEADER_LEN {
        return Err(StunError::MissingMappedAddress);
    }
    let msg_type: u16 = read_word(data, 0);
    let msg_len: usize = read_word(data, 2) as usize;
    let magic: u32 = read_long(data, 4);
    if magic != MAGIC_COOKIE {
        return Err(StunError::MissingMappedAddress);
    }
    let tx_id: [u8; 12] = [
        data[8],
        data[9],
        data[10],
        data[11],
        data[12],
        data[13],
        data[14],
        data[15],
        data[16],
        data[17],
        data[18],
        data[19],
    ];
    let attr_end: usize = if msg_len <= data.len() - HEADER_LEN {
        HEADER_LEN + msg_len
    } else {
        data.len()
    };
    let attrs: &[u8] = vstd::slice::slice_subrange(data, HEADER_LEN, attr_end);
    assert(tx_id@ =~= data@.subrange(8, 20));
    Ok((msg_type, tx_id, attrs))
}

/// How much room an attribute value of `len` bytes takes: attributes are
/// padded to 4-byte boundaries.
pub open spec fn padded(len: int) -> int {
    len + (4 - len % 4) % 4
}

/// Whether the attribute at `pos` is a mapped address that lies within the
/// attributes.
pub open spec fn is_mapped_address(attrs: Seq<u8>, pos: int) -> bool {
    let len = word_at(attrs, pos + 2);
    &&& word_at(attrs, pos) == ATTR_XOR_MAPPED_ADDRESS
    &&& len >= 8
    &&& pos + 4 + len <= attrs.len()
}

/// The IPv4 endpoint in the attribute value at `at`, unmasked.
pub open spec fn unmasked(attrs: Seq<u8>, at: int) -> Option<SocketAddr> {
    if attrs[at + 1] != IPV4_FAMILY {
        None
    } else {
        Some(
            SocketAddr::V4 {
                ip: Ipv4Addr { bits: long_at(attrs, at + 4) ^ MAGIC_COOKIE },
                port: word_at(attrs, at + 2) ^ PORT_MASK,
            },
        )
    }
}

/// What the first mapped address among the attributes from `pos` on says,
/// if there is one and it is of IPv4.
pub open spec fn mapped_address(attrs: Seq<u8>, pos: int) -> Option<SocketAddr>
    decreases
            if pos <= attrs.len() {
                attrs.len() - pos
            } else {
                0
            },
{
    if pos < 0 || pos + 4 > attrs.len() {
        None
    } else if is_mapped_address(attrs, pos) {
        unmasked(attrs, pos + 4)
    } else {
        mapped_address(attrs, pos + 4 + padded(word_at(attrs, pos + 2) as int))
    }
}

/// The public address that the attributes of a binding response report.
pub fn parse_xor_mapped_address(attrs: &[u8]) -> (addr: Option<SocketAddr>)
    ensures
        addr == mapped_address(attrs@, 0),
{
    let mut pos: usize = 0;
    while attrs.len() - pos >= 4
        invariant
            pos <= attrs@.len(),
            mapped_address(attrs@, 0) == mapped_address(attrs@, pos as int),
        decreases attrs@.len() - pos,
    {
        let attr_type: u16 = read_word(attrs, pos);
        let attr_len: usize = read_word(attrs, pos + 2) as usize;
        let body: usize = pos + 4;
        if attr_type == ATTR_XOR_MAPPED_ADDRESS && attr_len >= 8 && attr_len <= attrs.len()
            - body {
            let family: u8 = attrs[body + 1];
            if family != IPV4_FAMILY {
                return None;
            }
            let port: u16 = read_word(attrs, body + 2) ^ PORT_MASK;
            let bits: u32 = read_long(attrs, body + 4) ^ MAGIC_COOKIE;
            return Some(SocketAddr::V4 { ip: Ipv4Addr { bits }, port });
        }
        let skip: usize = attr_len + (4 - attr_len % 4) % 4;
        if skip > attrs.len() - body {
            assert(mapped_address(attrs@, body + skip) is None);
            return None;
        }
        pos = body + skip;
    }
    None
}

/// What a client makes of the bytes that came back for its request.
pub open spec fn discovered(tx_id: Seq<u8>, data: Seq<u8>) -> Result<SocketAddr, StunError> {
    match parts_of(data) {
        None => Err(StunError::MissingMappedAddress),
        Some(parts) => if parts.msg_type != BINDING_SUCCESS {
            Err(StunError::UnexpectedResponse(parts.msg_type))
        } else if parts.tx_id != tx_id {
            Err(StunError::TransactionMismatch)
        } else {
            match mapped_address(parts.attrs, 0) {
                Some(addr) => Ok(addr),
                None => Err(StunError::MissingMappedAddress),
            }
        },
    }
}

/// A minimal STUN client that discovers the public (server-reflexive)
/// address by sending a Binding Request to a STUN server: one request that
/// is under way.
#[derive(Debug, Clone)]
pub struct StunClient {
    /// The server that is asked.
    pub server: SocketAddr,
    /// What tells the answer to this request from others.
    pub tx_id: [u8; 12],
}

/// `rand::thread_rng().gen()` for twelve bytes. Every outcome is possible.
#[verifier::external_body]
fn random_transaction_id() -> (tx_id: [u8; 12]) {
    rand::Rng::gen(&mut rand::thread_rng())
}

impl StunClient {
    /// Begin a discovery through `server`, under a random transaction ID.
    pub fn discover(server: SocketAddr) -> (client: Self)
        ensures
            client.server == server,
    {
        Self::with_transaction(server, random_transaction_id())
    }

    /// Begin a discovery through `server`, under the given transaction ID.
    pub fn with_transaction(server: SocketAddr, tx_id: [u8; 12]) -> (client: Self)
        ensures
            client.server == server,
            client.tx_id == tx_id,
    {
        StunClient { server, tx_id }
    }

    /// The Binding Request to be sent.
    pub fn request(&self) -> (out: Datagram)
        ensures
            out.to == self.server,
            out.payload@ == message(BINDING_REQUEST, self.tx_id@, Seq::empty()),
    {
        Datagram { to: self.server, payload: build_binding_request(&self.tx_id) }
    }

    /// The XOR-MAPPED-ADDRESS from the response: the public IP:port as seen
    /// by the server.
    pub fn response(&self, data: &[u8]) -> (r: Result<SocketAddr, StunError>)
        ensures
            r == discovered(self.tx_id@, data@),
    {
        let (msg_type, tx_id, attrs): (u16, [u8; 12], &[u8]) = match parse_response(data) {
            Ok(parts) => parts,
            Err(e) => return Err(e),
        };
        if msg_type != BINDING_SUCCESS {
            return Err(StunError::UnexpectedResponse(msg_type));
        }
        if !codec::bytes_equal(tx_id.as_slice(), self.tx_id.as_slice()) {
            return Err(StunError::TransactionMismatch);
        }
        match parse_xor_mapped_address(attrs) {
            Some(addr) => Ok(addr),
            None => Err(StunError::MissingMappedAddress),
        }
    }
}

/// Two bytes as a number.
proof fn lemma_word_at(s: Seq<u8>, at: int)
    requires
        0 <= at,
        at + 2 <= s.len(),
    ensures
        word_at(s, at) == s[at] * 0x100 + s[at + 1],
{
    codec::lemma_be_value_2(s.subrange(at, at + 2));
}

/// Four bytes as a number.
proof fn lemma_long_at(s: Seq<u8>, at: int)
    requires
        0 <= at,
        at + 4 <= s.len(),
    ensures
        long_at(s, at) == s[at] * 0x100_0000 + s[at + 1] * 0x1_0000 + s[at + 2] * 0x100 + s[at + 3],
{
    codec::lemma_be_value_4(s.subrange(at, at + 4));
}

/// The room that an attribute value takes is the least multiple of four that is
/// not below its length.
pub proof fn law_padding_ends_at_the_next_word(len: int)
    requires
        len >= 0,
    ensures
        padded(len) % 4 == 0,
        len <= padded(len) < len + 4,
{
}

/// What stands before the attribute at hand has no bearing on it.
proof fn lemma_address_behind(front: Seq<u8>, rest: Seq<u8>, pos: int)
    requires
        pos >= 0,
    ensures
        mapped_address(front + rest, front.len() + pos) == mapped_address(rest, pos),
    decreases
            if pos <= rest.len() {
                rest.len() - pos
            } else {
                0
            },
{
    let all = front + rest;
    let n = front.len() as int;
    if pos + 4 <= rest.len() {
        assert(all.subrange(n + pos, n + pos + 2) =~= rest.subrange(pos, pos + 2));
        assert(all.subrange(n + pos + 2, n + pos + 4) =~= rest.subrange(pos + 2, pos + 4));
        if is_mapped_address(rest, pos) {
            assert(all.subrange(n + pos + 6, n + pos + 8) =~= rest.subrange(pos + 6, pos + 8));
            assert(all.subrange(n + pos + 8, n + pos + 12) =~= rest.subrange(pos + 8, pos + 12));
            assert(all[n + pos + 5] == rest[pos + 5]);
        } else {
            lemma_address_behind(front, rest, pos + 4 + padded(word_at(rest, pos + 2) as int));
        }
    }
}

/// An attribute of another type in front of others is passed over, together with
/// the up to three bytes that fill it up to a multiple of four; so is a mapped
/// address that is too short to be one.
pub proof fn law_other_attribute_is_passed_over(
    head: Seq<u8>,
    value: Seq<u8>,
    padding: Seq<u8>,
    rest: Seq<u8>,
)
    requires
        head.len() == 4,
        head[0] != 0x00 || head[1] != 0x20 || value.len() < 8,
        head[2] * 0x100 + head[3] == value.len(),
        padding.len() < 4,
        (value.len() + padding.len()) % 4 == 0,
    ensures
        mapped_address(head + value + padding + rest, 0) == mapped_address(rest, 0),
{
    let front = head + value + padding;
    let all = front + rest;
    lemma_word_at(all, 0);
    lemma_word_at(all, 2);
    assert(all[0] == head[0] && all[1] == head[1] && all[2] == head[2] && all[3] == head[3]);
    assert(!is_mapped_address(all, 0));
    assert(4 + padded(value.len() as int) == front.len());
    lemma_address_behind(front, rest, 0);
}

/// The first mapped address among the attributes is the one that counts, whatever
/// comes behind it: of IPv4, with each byte of port and address masked by a byte
/// of the cookie; of anything else, none.
pub proof fn law_first_mapped_address_counts(attrs: Seq<u8>)
    requires
        attrs.len() >= 12,
        attrs[0] == 0x00,
        attrs[1] == 0x20,
        8 <= attrs[2] * 0x100 + attrs[3] <= attrs.len() - 4,
    ensures
        attrs[5] != 1 ==> mapped_address(attrs, 0) is None,
        attrs[5] == 1 ==> (mapped_address(attrs, 0) matches Some(SocketAddr::V4 { ip, port })
            && port == (attrs[6] ^ 0x21) * 0x100 + (attrs[7] ^ 0x12) && ip.bits == (attrs[8] ^ 0x21)
            * 0x100_0000 + (attrs[9] ^ 0x12) * 0x1_0000 + (attrs[10] ^ 0xA4) * 0x100 + (attrs[11]
            ^ 0x42)),
{
    lemma_word_at(attrs, 0);
    lemma_word_at(attrs, 2);
    lemma_word_at(attrs, 6);
    lemma_long_at(attrs, 8);
    assert(is_mapped_address(attrs, 0));
    lemma_masked_word(word_at(attrs, 6), attrs[6], attrs[7]);
    lemma_masked_long(long_at(attrs, 8), attrs[8], attrs[9], attrs[10], attrs[11]);
}

pub proof fn lemma_masked_word(x: u16, a: u8, b: u8)
    requires
        x == a * 0x100 + b,
    ensures
        x ^ 0x2112 == (a ^ 0x21) * 0x100 + (b ^ 0x12),
{
    assert(x ^ 0x2112u16 == (a ^ 0x21u8) * 0x100 + (b ^ 0x12u8)) by (bit_vector)
        requires
            x == a * 0x100 + b,
    ;
}

pub proof fn lemma_masked_long(x: u32, a: u8, b: u8, c: u8, d: u8)
    requires
        x == a * 0x100_0000 + b * 0x1_0000 + c * 0x100 + d,
    ensures
        x ^ 0x2112_A442 == (a ^ 0x21) * 0x100_0000 + (b ^ 0x12) * 0x1_0000 + (c ^ 0xA4) * 0x100 + (d
            ^ 0x42),
{
    assert(x ^ 0x2112_A442u32 == (a ^ 0x21u8) * 0x100_0000 + (b ^ 0x12u8) * 0x1_0000 + (c ^ 0xA4u8)
        * 0x100 + (d ^ 0x42u8)) by (bit_vector)
        requires
            x == a * 0x100_0000 + b * 0x1_0000 + c * 0x100 + d,
    ;
}

/// A message on the wire, byte by byte: type, length of the attributes, the magic
/// cookie, the transaction ID, the attributes.
pub proof fn law_message_bytes(msg_type: u16, tx_id: Seq<u8>, attrs: Seq<u8>)
    requires
        tx_id.len() == 12,
        attrs.len() <= u16::MAX,
    ensures
        ({
            let m = message(msg_type, tx_id, attrs);
            &&& m.len() == 20 + attrs.len()
            &&& m[0] * 0x100 + m[1] == msg_type
            &&& m[2] * 0x100 + m[3] == attrs.len()
            &&& m[4] == 0x21 && m[5] == 0x12 && m[6] == 0xA4 && m[7] == 0x42
            &&& m.subrange(8, 20) == tx_id
            &&& m.subrange(20, m.len() as int) == attrs
        }),
{
    let m = message(msg_type, tx_id, attrs);
    let cookie = codec::be_bytes(MAGIC_COOKIE as nat, 4);
    codec::lemma_be_bytes_len(msg_type as nat, 2);
    codec::lemma_be_bytes_len(attrs.len(), 2);
    codec::lemma_be_bytes_len(MAGIC_COOKIE as nat, 4);
    codec::lemma_pow256_values();
    codec::lemma_be_value_of_bytes(msg_type as nat, 2);
    codec::lemma_be_value_of_bytes(attrs.len(), 2);
    codec::lemma_be_value_of_bytes(MAGIC_COOKIE as nat, 4);
    assert(m.subrange(0, 2) =~= codec::be_bytes(msg_type as nat, 2));
    assert(m.subrange(2, 4) =~= codec::be_bytes(attrs.len(), 2));
    codec::lemma_be_value_2(m.subrange(0, 2));
    codec::lemma_be_value_2(m.subrange(2, 4));
    codec::lemma_be_value_4(cookie);
    assert(m[4] == cookie[0] && m[5] == cookie[1] && m[6] == cookie[2] && m[7] == cookie[3]);
    assert(m.subrange(8, 20) =~= tx_id);
    assert(m.subrange(20, m.len() as int) =~= attrs);
}

/// What the client makes of what came back. Without the cookie it is no answer;
/// with another type than 01 01 an unexpected one; with another transaction ID the
/// answer to something else. Otherwise the attributes decide: as many bytes behind
/// the header as it announces, or all that there are.
pub proof fn law_answer_is_judged_by_its_header(tx_id: Seq<u8>, data: Seq<u8>)
    ensures
        ({
            let r = discovered(tx_id, data);
            let has_cookie = data.len() >= 20 && data[4] == 0x21 && data[5] == 0x12 && data[6]
                == 0xA4 && data[7] == 0x42;
            let is_success = data[0] == 0x01 && data[1] == 0x01;
            let len = data[2] * 0x100 + data[3];
            let attrs = data.subrange(
                20,
                if 20 + len <= data.len() {
                    20 + len
                } else {
                    data.len() as int
                },
            );
            &&& !has_cookie ==> r == Err::<SocketAddr, StunError>(StunError::MissingMappedAddress)
            &&& has_cookie && !is_success ==> r == Err::<SocketAddr, StunError>(
                StunError::UnexpectedResponse((data[0] * 0x100 + data[1]) as u16),
            )
            &&& has_cookie && is_success && data.subrange(8, 20) != tx_id ==> r == Err::<
                SocketAddr,
                StunError,
            >(StunError::TransactionMismatch)
            &&& has_cookie && is_success && data.subrange(8, 20) == tx_id ==> match mapped_address(
                attrs,
                0,
            ) {
                Some(addr) => r == Ok::<SocketAddr, StunError>(addr),
                None => r == Err::<SocketAddr, StunError>(StunError::MissingMappedAddress),
            }
        }),
{
    if data.len() >= 20 {
        lemma_word_at(data, 0);
        lemma_word_at(data, 2);
        lemma_long_at(data, 4);
        if data.subrange(8, 20) =~= tx_id {
            assert(data.subrange(8, 20) == tx_id);
        }
    }
}

/// Bytes behind the end that the header announces are of no account.
pub proof fn law_trailing_bytes_are_of_no_account(
    tx_id: Seq<u8>,
    msg_type: u16,
    other_id: Seq<u8>,
    attrs: Seq<u8>,
    trailing: Seq<u8>,
)
    requires
        other_id.len() == 12,
        attrs.len() <= u16::MAX,
    ensures
        discovered(tx_id, message(msg_type, other_id, attrs) + trailing) == discovered(
            tx_id,
            message(msg_type, other_id, attrs),
        ),
{
    let m = message(msg_type, other_id, attrs);
    let all = m + trailing;
    law_message_bytes(msg_type, other_id, attrs);
    assert(all.subrange(0, 2) =~= m.subrange(0, 2));
    assert(all.subrange(2, 4) =~= m.subrange(2, 4));
    assert(all.subrange(4, 8) =~= m.subrange(4, 8));
    assert(all.subrange(8, 20) =~= m.subrange(8, 20));
    lemma_word_at(m, 2);
    assert(all.subrange(20, m.len() as int) =~= m.subrange(20, m.len() as int));
}

/// What a client reads in the attributes does not change with attributes of other
/// types in front of the mapped address, whatever their lengths.
pub proof fn law_parse_xor_mapped_address(
    attrs: &[u8],
    found: Option<SocketAddr>,
    head: Seq<u8>,
    value: Seq<u8>,
    padding: Seq<u8>,
    rest: &[u8],
    found_in_rest: Option<SocketAddr>,
)
    requires
        call_ensures(parse_xor_mapped_address, (attrs,), found),
        call_ensures(parse_xor_mapped_address, (rest,), found_in_rest),
        attrs@ == head + value + padding + rest@,
        head.len() == 4,
        head[0] != 0x00 || head[1] != 0x20,
        head[2] * 0x100 + head[3] == value.len(),
        padding.len() < 4,
        (value.len() + padding.len()) % 4 == 0,
    ensures
        found == found_in_rest,
{
    law_other_attribute_is_passed_over(head, value, padding, rest@);
}

/// A binding request goes to the server that is asked: twenty bytes, of which the
/// last twelve are the transaction ID.
pub proof fn law_request(client: StunClient, out: Datagram)
    requires
        call_ensures(StunClient::request, (&client,), out),
    ensures
        out.to == client.server,
        out.payload@.len() == 20,
        out.payload@[0] == 0x00,
        out.payload@[1] == 0x01,
        out.payload@[2] == 0x00,
        out.payload@[3] == 0x00,
        out.payload@.subrange(8, 20) == client.tx_id@,
{
    law_message_bytes(BINDING_REQUEST, client.tx_id@, Seq::empty());
}

} // verus!
