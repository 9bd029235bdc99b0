//! The server side of address discovery.

use vstd::prelude::*;

use crate::addr::{Ipv4Addr, Ipv6Addr, SocketAddr};
use crate::codec;
use crate::traversal::stun;

verus! {

/// The cookie bytes that mask the first octets of an IPv6 address.
pub open spec fn cookie_byte(i: int) -> u8 {
    if i == 0 {
        0x21
    } else if i == 1 {
        0x12
    } else if i == 2 {
        0xA4
    } else if i == 3 {
        0x42
    } else {
        0
    }
}

/// The octets of an IPv6 address, the first four of them masked.
pub open spec fn masked_v6(ip: Ipv6Addr) -> Seq<u8> {
    Seq::new(
        16,
        |i: int|
            if i < 4 {
                ip@[i] ^ cookie_byte(i)
            } else {
                ip@[i]
            },
    )
}

/// The XOR-MAPPED-ADDRESS attribute for an endpoint.
pub open spec fn mapped_attr(client: SocketAddr) -> Seq<u8> {
    let head = codec::be_bytes(stun::ATTR_XOR_MAPPED_ADDRESS as nat, 2);
    match client {
        SocketAddr::V4 { ip, port } => head + codec::be_bytes(8, 2) + seq![
            0u8,
            stun::IPV4_FAMILY,
        ] + codec::be_bytes((port ^ stun::PORT_MASK) as nat, 2) + codec::be_bytes(
            (ip.bits ^ stun::MAGIC_COOKIE) as nat,
            4,
        ),
        SocketAddr::V6 { ip6, port, .. } => head + codec::be_bytes(20, 2) + seq![
            0u8,
            stun::IPV6_FAMILY,
        ] + codec::be_bytes((port ^ stun::PORT_MASK) as nat, 2) + masked_v6(ip6),
    }
}

/// Whether the bytes are a binding request.
pub open spec fn is_binding_request(data: Seq<u8>) -> bool {
    &&& data.len() >= 20
    &&& stun::word_at(data, 0) == stun::BINDING_REQUEST
    &&& stun::long_at(data, 4) == stun::MAGIC_COOKIE
}

/// What the server answers to `data` from `client`: to a binding request,
/// where it came from; to anything else, nothing.
pub open spec fn answer(data: Seq<u8>, client: SocketAddr) -> Option<Seq<u8>> {
    if is_binding_request(data) {
        Some(stun::message(stun::BINDING_SUCCESS, data.subrange(8, 20), mapped_attr(client)))
    } else {
        None
    }
}

/// The response to a binding request, or nothing if the data is none.
pub fn handle_binding_request(data: &[u8], client_addr: SocketAddr) -> (response: Option<Vec<u8>>)
    ensures
        response is Some <==> is_binding_request(data@),
        response matches Some(bytes) ==> Some(bytes@) == answer(data@, client_addr),
{
    if data.len() < 20 {
        return None;
    }
    if stun::read_word(data, 0) != stun::BINDING_REQUEST {
        return None;
    }
    if stun::read_long(data, 4) != stun::MAGIC_COOKIE {
        return None;
    }
    let tx_id: &[u8] = vstd::slice::slice_subrange(data, 8, 20);
    let attr: Vec<u8> = match client_addr {
        SocketAddr::V4 { ip, port } => build_xor_mapped_v4(ip, port),
        SocketAddr::V6 { ip6, port, flowinfo, scope_id } => {
            assert(client_addr == SocketAddr::V6 { ip6, port, flowinfo, scope_id });
            build_xor_mapped_v6(ip6, port)
        },
    };
    assert(attr@ == mapped_attr(client_addr));
    Some(stun::build_message(stun::BINDING_SUCCESS, tx_id, attr.as_slice()))
}

/// The mapped address attribute for an IPv4 endpoint.
pub fn build_xor_mapped_v4(ip: Ipv4Addr, port: u16) -> (attr: Vec<u8>)
    ensures
        attr@ == mapped_attr(SocketAddr::V4 { ip, port }),
        attr@.len() == 12,
{
    let x_port: u16 = port ^ stun::PORT_MASK;
    let x_addr: u32 = ip.bits ^ stun::MAGIC_COOKIE;
    let mut attr: Vec<u8> = Vec::with_capacity(12);
    codec::push_be(&mut attr, stun::ATTR_XOR_MAPPED_ADDRESS as u128, 2);
    codec::push_be(&mut attr, 8, 2);
    attr.push(0x00);
    attr.push(stun::IPV4_FAMILY);
    codec::push_be(&mut attr, x_port as u128, 2);
    codec::push_be(&mut attr, x_addr as u128, 4);
    proof {
        codec::lemma_be_bytes_len(stun::ATTR_XOR_MAPPED_ADDRESS as nat, 2);
        codec::lemma_be_bytes_len(8, 2);
        codec::lemma_be_bytes_len(x_port as nat, 2);
        codec::lemma_be_bytes_len(x_addr as nat, 4);
        assert(attr@ =~= mapped_attr(SocketAddr::V4 { ip, port }));
    }
    attr
}

/// The mapped address attribute for an IPv6 endpoint.
pub fn build_xor_mapped_v6(ip: Ipv6Addr, port: u16) -> (attr: Vec<u8>)
    ensures
        forall|flowinfo: u32, scope_id: u32|
            attr@ == #[trigger] mapped_attr(
                SocketAddr::V6 { ip6: ip, port, flowinfo, scope_id },
            ),
        attr@.len() == 24,
{
    let x_port: u16 = port ^ stun::PORT_MASK;
    let mut octets: Vec<u8> = Vec::with_capacity(16);
    codec::push_be(&mut octets, ip.bits, 16);
    proof {
        codec::lemma_be_bytes_len(ip.bits as nat, 16);
        assert(octets@ =~= ip@);
    }
    let mut x_addr: Vec<u8> = Vec::with_capacity(16);
    x_addr.push(octets[0] ^ 0x21);
    x_addr.push(octets[1] ^ 0x12);
    x_addr.push(octets[2] ^ 0xA4);
    x_addr.push(octets[3] ^ 0x42);
    codec::append(&mut x_addr, vstd::slice::slice_subrange(octets.as_slice(), 4, 16));
    assert(x_addr@ =~= masked_v6(ip));
    let mut attr: Vec<u8> = Vec::with_capacity(24);
    codec::push_be(&mut attr, stun::ATTR_XOR_MAPPED_ADDRESS as u128, 2);
    codec::push_be(&mut attr, 20, 2);
    attr.push(0x00);
    attr.push(stun::IPV6_FAMILY);
    codec::push_be(&mut attr, x_port as u128, 2);
    codec::append(&mut attr, x_addr.as_slice());
    proof {
        codec::lemma_be_bytes_len(stun::ATTR_XOR_MAPPED_ADDRESS as nat, 2);
        codec::lemma_be_bytes_len(20, 2);
        codec::lemma_be_bytes_len(x_port as nat, 2);
        assert(attr@ =~= mapped_attr(
            SocketAddr::V6 { ip6: ip, port, flowinfo: 0, scope_id: 0 },
        ));
    }
    attr
}

/// How a STUN message reads back: its type, transaction ID and attributes
/// are those it was made of.
pub proof fn law_message_parts(msg_type: u16, tx_id: Seq<u8>, attrs: Seq<u8>)
    requires
        tx_id.len() == 12,
        attrs.len() <= u16::MAX,
    ensures
        stun::parts_of(stun::message(msg_type, tx_id, attrs)) == Some(
            stun::Parts { msg_type, tx_id, attrs },
        ),
        stun::word_at(stun::message(msg_type, tx_id, attrs), 0) == msg_type,
        stun::long_at(stun::message(msg_type, tx_id, attrs), 4) == stun::MAGIC_COOKIE,
        stun::message(msg_type, tx_id, attrs).subrange(8, 20) == tx_id,
{
    let m = stun::message(msg_type, tx_id, attrs);
    codec::lemma_be_bytes_len(msg_type as nat, 2);
    codec::lemma_be_bytes_len(attrs.len(), 2);
    codec::lemma_be_bytes_len(stun::MAGIC_COOKIE as nat, 4);
    codec::lemma_pow256_values();
    codec::lemma_be_value_of_bytes(msg_type as nat, 2);
    codec::lemma_be_value_of_bytes(attrs.len(), 2);
    codec::lemma_be_value_of_bytes(stun::MAGIC_COOKIE as nat, 4);
    assert(m.subrange(0, 2) =~= codec::be_bytes(msg_type as nat, 2));
    assert(m.subrange(2, 4) =~= codec::be_bytes(attrs.len(), 2));
    assert(m.subrange(4, 8) =~= codec::be_bytes(stun::MAGIC_COOKIE as nat, 4));
    assert(m.subrange(8, 20) =~= tx_id);
    assert(m.subrange(20, m.len() as int) =~= attrs);
}

/// The mapped address attribute of an IPv4 endpoint reads back as the
/// endpoint; that of an IPv6 endpoint is skipped by clients, which only take
/// IPv4.
pub proof fn law_mapped_attr_reads_back(client: SocketAddr)
    ensures
        client is V4 ==> stun::mapped_address(mapped_attr(client), 0) == Some(client),
        client is V6 ==> stun::mapped_address(mapped_attr(client), 0) is None,
{
    let attr = mapped_attr(client);
    codec::lemma_pow256_values();
    codec::lemma_be_bytes_len(stun::ATTR_XOR_MAPPED_ADDRESS as nat, 2);
    codec::lemma_be_bytes_len(8, 2);
    codec::lemma_be_bytes_len(20, 2);
    codec::lemma_be_value_of_bytes(stun::ATTR_XOR_MAPPED_ADDRESS as nat, 2);
    codec::lemma_be_value_of_bytes(8, 2);
    codec::lemma_be_value_of_bytes(20, 2);
    match client {
        SocketAddr::V4 { ip, port } => {
            let x_port: u16 = port ^ stun::PORT_MASK;
            let x_addr: u32 = ip.bits ^ stun::MAGIC_COOKIE;
            codec::lemma_be_bytes_len(x_port as nat, 2);
            codec::lemma_be_bytes_len(x_addr as nat, 4);
            codec::lemma_be_value_of_bytes(x_port as nat, 2);
            codec::lemma_be_value_of_bytes(x_addr as nat, 4);
            assert(attr.subrange(0, 2) =~= codec::be_bytes(
                stun::ATTR_XOR_MAPPED_ADDRESS as nat,
                2,
            ));
            assert(attr.subrange(2, 4) =~= codec::be_bytes(8, 2));
            assert(attr.subrange(6, 8) =~= codec::be_bytes(x_port as nat, 2));
            assert(attr.subrange(8, 12) =~= codec::be_bytes(x_addr as nat, 4));
            let bits = ip.bits;
            assert((port ^ 0x2112u16) ^ 0x2112u16 == port) by (bit_vector);
            assert((bits ^ 0x2112_A442u32) ^ 0x2112_A442u32 == bits) by (bit_vector);
        },
        SocketAddr::V6 { ip6, port, .. } => {
            codec::lemma_be_bytes_len((port ^ stun::PORT_MASK) as nat, 2);
            assert(attr.subrange(0, 2) =~= codec::be_bytes(
                stun::ATTR_XOR_MAPPED_ADDRESS as nat,
                2,
            ));
            assert(attr.subrange(2, 4) =~= codec::be_bytes(20, 2));
            assert(attr[5] == stun::IPV6_FAMILY);
        },
    }
}

/// A client learns from the server's answer to its own request the very
/// endpoint that the server saw, if that is an IPv4 endpoint; from any other
/// it learns nothing.
pub proof fn law_discovery(tx_id: Seq<u8>, client: SocketAddr)
    requires
        tx_id.len() == 12,
    ensures
        ({
            let request = stun::message(stun::BINDING_REQUEST, tx_id, Seq::empty());
            &&& answer(request, client) matches Some(response)
            &&& client is V4 ==> stun::discovered(tx_id, response) == Ok::<
                SocketAddr,
                stun::StunError,
            >(client)
            &&& client is V6 ==> stun::discovered(tx_id, response) == Err::<
                SocketAddr,
                stun::StunError,
            >(stun::StunError::MissingMappedAddress)
        }),
{
    let request = stun::message(stun::BINDING_REQUEST, tx_id, Seq::empty());
    law_message_parts(stun::BINDING_REQUEST, tx_id, Seq::empty());
    codec::lemma_be_bytes_len(stun::ATTR_XOR_MAPPED_ADDRESS as nat, 2);
    codec::lemma_be_bytes_len(8, 2);
    codec::lemma_be_bytes_len(20, 2);
    codec::lemma_be_bytes_len((client.port_of() ^ stun::PORT_MASK) as nat, 2);
    match client {
        SocketAddr::V4 { ip, .. } => {
            codec::lemma_be_bytes_len((ip.bits ^ stun::MAGIC_COOKIE) as nat, 4);
        },
        SocketAddr::V6 { .. } => {},
    }
    law_message_parts(stun::BINDING_SUCCESS, tx_id, mapped_attr(client));
    law_mapped_attr_reads_back(client);
    codec::lemma_be_bytes_len(stun::BINDING_REQUEST as nat, 2);
    codec::lemma_be_bytes_len(0, 2);
    codec::lemma_be_bytes_len(stun::MAGIC_COOKIE as nat, 4);
    assert(request.len() == 20);
}

/// An answer to another request is turned down.
pub proof fn law_other_transaction_is_refused(
    tx_id: Seq<u8>,
    other: Seq<u8>,
    attrs: Seq<u8>,
)
    requires
        tx_id.len() == 12,
        other.len() == 12,
        tx_id != other,
        attrs.len() <= u16::MAX,
    ensures
        stun::discovered(tx_id, stun::message(stun::BINDING_SUCCESS, other, attrs)) == Err::<
            SocketAddr,
            stun::StunError,
        >(stun::StunError::TransactionMismatch),
{
    law_message_parts(stun::BINDING_SUCCESS, other, attrs);
}

/// The server answers exactly the messages that begin with 00 01 and hold the
/// magic cookie. The answer is a success response with the transaction ID of the
/// request and one attribute: the client's endpoint, with the port and the first
/// four octets of the address masked by the bytes of the cookie.
pub proof fn law_answer_bytes(data: Seq<u8>, client: SocketAddr)
    ensures
        answer(data, client) is Some <==> data.len() >= 20 && data[0] == 0x00 && data[1] == 0x01
            && data[4] == 0x21 && data[5] == 0x12 && data[6] == 0xA4 && data[7] == 0x42,
        answer(data, client) matches Some(r) ==> {
            &&& r[0] == 0x01 && r[1] == 0x01
            &&& r[4] == 0x21 && r[5] == 0x12 && r[6] == 0xA4 && r[7] == 0x42
            &&& r.subrange(8, 20) == data.subrange(8, 20)
            &&& r[20] == 0x00 && r[21] == 0x20
            &&& r[24] == 0x00
            &&& (r[26] ^ 0x21) * 0x100 + (r[27] ^ 0x12) == client.port_of()
            &&& match client {
                SocketAddr::V4 { ip, .. } => {
                    &&& r.len() == 32
                    &&& r[2] == 0 && r[3] == 12
                    &&& r[22] == 0 && r[23] == 8
                    &&& r[25] == 1
                    &&& (r[28] ^ 0x21) * 0x100_0000 + (r[29] ^ 0x12) * 0x1_0000 + (r[30] ^ 0xA4)
                        * 0x100 + (r[31] ^ 0x42) == ip.bits
                },
                SocketAddr::V6 { ip6, .. } => {
                    &&& r.len() == 44
                    &&& r[2] == 0 && r[3] == 24
                    &&& r[22] == 0 && r[23] == 20
                    &&& r[25] == 2
                    &&& r[28] == ip6@[0] ^ 0x21
                    &&& r[29] == ip6@[1] ^ 0x12
                    &&& r[30] == ip6@[2] ^ 0xA4
                    &&& r[31] == ip6@[3] ^ 0x42
                    &&& forall|i: int| 4 <= i < 16 ==> r[28 + i] == #[trigger] ip6@[i]
                },
            }
        },
{
    if data.len() >= 20 {
        codec::lemma_be_value_2(data.subrange(0, 2));
        codec::lemma_be_value_4(data.subrange(4, 8));
    }
    if let Some(r) = answer(data, client) {
        let attr = mapped_attr(client);
        let tx_id = data.subrange(8, 20);
        let port = client.port_of();
        let x_port: u16 = port ^ stun::PORT_MASK;
        lemma_small_words();
        codec::lemma_be_bytes_len(stun::ATTR_XOR_MAPPED_ADDRESS as nat, 2);
        codec::lemma_be_bytes_len(8, 2);
        codec::lemma_be_bytes_len(20, 2);
        codec::lemma_be_bytes_len(x_port as nat, 2);
        match client {
            SocketAddr::V4 { ip, .. } => {
                codec::lemma_be_bytes_len((ip.bits ^ stun::MAGIC_COOKIE) as nat, 4);
            },
            SocketAddr::V6 { .. } => {},
        }
        stun::law_message_bytes(stun::BINDING_SUCCESS, tx_id, attr);
        assert forall|i: int| 0 <= i < attr.len() implies r[20 + i] == #[trigger] attr[i] by {
            assert(r.subrange(20, r.len() as int)[i] == attr[i]);
        }
        let pb = codec::be_bytes(x_port as nat, 2);
        codec::lemma_pow256_values();
        codec::lemma_be_value_of_bytes(x_port as nat, 2);
        codec::lemma_be_value_2(pb);
        assert(attr[6] == pb[0] && attr[7] == pb[1]);
        assert(r[26] == attr[6] && r[27] == attr[7]);
        stun::lemma_masked_word(x_port, pb[0], pb[1]);
        assert((port ^ 0x2112u16) ^ 0x2112u16 == port) by (bit_vector);
        assert(attr[0] == 0 && attr[1] == 0x20);
        assert(r[20] == attr[0] && r[21] == attr[1] && r[22] == attr[2] && r[23] == attr[3]
            && r[24] == attr[4] && r[25] == attr[5]);
        assert(r[28] == attr[8] && r[29] == attr[9] && r[30] == attr[10] && r[31] == attr[11]);
        match client {
            SocketAddr::V4 { ip, .. } => {
                let bits = ip.bits;
                let x_addr: u32 = bits ^ stun::MAGIC_COOKIE;
                let ab = codec::be_bytes(x_addr as nat, 4);
                codec::lemma_be_bytes_len(x_addr as nat, 4);
                codec::lemma_be_value_of_bytes(x_addr as nat, 4);
                codec::lemma_be_value_4(ab);
                assert(attr[8] == ab[0] && attr[9] == ab[1] && attr[10] == ab[2] && attr[11]
                    == ab[3]);
                stun::lemma_masked_long(x_addr, ab[0], ab[1], ab[2], ab[3]);
                assert((bits ^ 0x2112_A442u32) ^ 0x2112_A442u32 == bits) by (bit_vector);
            },
            SocketAddr::V6 { ip6, .. } => {
                codec::lemma_be_bytes_len(ip6.bits as nat, 16);
                assert forall|i: int| 4 <= i < 16 implies r[28 + i] == #[trigger] ip6@[i] by {
                    assert(attr[8 + i] == masked_v6(ip6)[i]);
                    assert(r[20 + (8 + i)] == attr[8 + i]);
                }
            },
        }
    }
}

proof fn lemma_small_words()
    ensures
        codec::be_bytes(0x20, 2) == seq![0u8, 0x20u8],
        codec::be_bytes(8, 2) == seq![0u8, 8u8],
        codec::be_bytes(20, 2) == seq![0u8, 20u8],
{
    reveal_with_fuel(codec::be_bytes, 3);
    assert(codec::be_bytes(0x20, 2) =~= seq![0u8, 0x20u8]);
    assert(codec::be_bytes(8, 2) =~= seq![0u8, 8u8]);
    assert(codec::be_bytes(20, 2) =~= seq![0u8, 20u8]);
}

} // verus!
