//! IP addresses and socket addresses as plain values, and their textual form.

use vstd::prelude::*;

use crate::codec;
use crate::text;

verus! {

/// An IPv4 address, held as the number that its four octets spell.
#[derive(Debug, Clone, Copy, PartialEq, Eq, Structural)]
pub struct Ipv4Addr {
    pub bits: u32,
}

/// An IPv6 address, held as the number that its sixteen octets spell.
#[derive(Debug, Clone, Copy, PartialEq, Eq, Structural)]
pub struct Ipv6Addr {
    pub bits: u128,
}

/// An IP address of either family.
#[derive(Debug, Clone, Copy, PartialEq, Eq, Structural)]
pub enum IpAddr {
    V4(Ipv4Addr),
    V6(Ipv6Addr),
}

/// A UDP endpoint.
#[derive(Debug, Clone, Copy, PartialEq, Eq, Structural)]
pub enum SocketAddr {
    V4 { ip: Ipv4Addr, port: u16 },
    V6 { ip6: Ipv6Addr, port: u16, flowinfo: u32, scope_id: u32 },
}

/// A packet to be sent over UDP, and where to.
#[derive(Debug, Clone)]
pub struct Datagram {
    pub to: SocketAddr,
    pub payload: Vec<u8>,
}

impl View for Ipv4Addr {
    type V = Seq<u8>;

    /// The four octets, as they are written from left to right.
    open spec fn view(&self) -> Seq<u8> {
        codec::be_bytes(self.bits as nat, 4)
    }
}

impl View for Ipv6Addr {
    type V = Seq<u8>;

    /// The sixteen octets, in the order of the wire.
    open spec fn view(&self) -> Seq<u8> {
        codec::be_bytes(self.bits as nat, 16)
    }
}

impl Ipv4Addr {
    /// The address with the given octets.
    pub open spec fn of(octets: Seq<u8>) -> Ipv4Addr {
        Ipv4Addr { bits: codec::be_value(octets) as u32 }
    }

    /// The address as text: four decimal numbers between dots.
    pub open spec fn text(self) -> Seq<char> {
        text::decimal(self@[0] as nat) + seq!['.'] + text::decimal(self@[1] as nat) + seq!['.']
            + text::decimal(self@[2] as nat) + seq!['.'] + text::decimal(self@[3] as nat)
    }

    /// The address that a text stands for: the one that is written so.
    pub open spec fn parsed(s: Seq<char>) -> Option<Ipv4Addr> {
        if exists|ip: Ipv4Addr| #[trigger] ip.text() == s {
            Some(choose|ip: Ipv4Addr| #[trigger] ip.text() == s)
        } else {
            None
        }
    }

    /// The address `a.b.c.d`.
    pub fn new(a: u8, b: u8, c: u8, d: u8) -> (ip: Self)
        ensures
            ip@ == seq![a, b, c, d],
            ip == Self::of(seq![a, b, c, d]),
    {
        let bits: u32 = ((a as u32 * 256 + b as u32) * 256 + c as u32) * 256 + d as u32;
        proof {
            let s = seq![a, b, c, d];
            assert(codec::be_value(s) == bits) by {
                reveal_with_fuel(codec::be_value, 5);
                assert(s.drop_last() =~= seq![a, b, c]);
                assert(seq![a, b, c].drop_last() =~= seq![a, b]);
                assert(seq![a, b].drop_last() =~= seq![a]);
                assert(seq![a].drop_last() =~= Seq::<u8>::empty());
            }
            codec::lemma_be_bytes_of_value(s);
        }
        Ipv4Addr { bits }
    }

    /// The address `0.0.0.0`.
    pub fn unspecified() -> (ip: Self)
        ensures
            ip.bits == 0,
    {
        Ipv4Addr { bits: 0 }
    }

    /// The four octets of the address.
    pub fn octets(&self) -> (octets: [u8; 4])
        ensures
            octets@ == self@,
    {
        let b: u32 = self.bits;
        let octets: [u8; 4] = [
            (b / 0x100_0000) as u8,
            ((b / 0x1_0000) % 256) as u8,
            ((b / 256) % 256) as u8,
            (b % 256) as u8,
        ];
        proof {
            reveal_with_fuel(codec::be_bytes, 5);
            assert(octets@ =~= self@);
        }
        octets
    }

    /// The address as text.
    pub fn to_string(&self) -> (s: String)
        ensures
            s@ == self.text(),
    {
        let octets: [u8; 4] = self.octets();
        proof {
            reveal_strlit(".");
        }
        let mut s: String = String::new();
        text::push_decimal(&mut s, octets[0] as u64);
        s.append(".");
        text::push_decimal(&mut s, octets[1] as u64);
        s.append(".");
        text::push_decimal(&mut s, octets[2] as u64);
        s.append(".");
        text::push_decimal(&mut s, octets[3] as u64);
        assert("."@ =~= seq!['.']);
        assert(s@ =~= self.text());
        s
    }

    /// The address that a text stands for. Leading zeros, signs, spaces and
    /// missing or surplus octets are refused.
    pub fn parse(s: &str) -> (ip: Option<Self>)
        ensures
            ip == Self::parsed(s@),
            ip matches Some(a) ==> a.text() == s@,
            ip is None ==> forall|a: Ipv4Addr| #[trigger] a.text() != s@,
    {
        let chars: Vec<char> = text::chars_of(s);
        let r = parse_dotted(&chars);
        proof {
            if let Some(a) = r {
                let b = choose|ip: Ipv4Addr| #[trigger] ip.text() == s@;
                law_text_injective(a, b);
            }
        }
        r
    }
}

/// Reads one octet of a dotted address: digits from `i` on without a leading
/// zero, with a value of at most 255. Gives the value and where it ends.
fn parse_octet(s: &Vec<char>, i: usize) -> (r: Option<(u8, usize)>)
    requires
        i <= s@.len(),
    ensures
        ({
            let e = text::digits_end(s@, i as int);
            let word = s@.subrange(i as int, e);
            &&& i <= e <= s@.len()
            &&& r is Some <==> text::is_decimal(word) && text::digits_value(word) <= 255
            &&& r matches Some((v, end)) ==> end == e && v == text::digits_value(word)
        }),
{
    let e: usize = text::find_digits_end(s, i);
    proof {
        text::lemma_digits_end(s@, i as int);
    }
    if e == i {
        return None;
    }
    if e > i + 1 && s[i] == '0' {
        return None;
    }
    match text::digits_at_most(s, i, e, 255) {
        Some(v) => Some((v as u8, e)),
        None => None,
    }
}

/// The text of an address, split after its first `k` octets.
proof fn lemma_text_layout(ip: Ipv4Addr, s: Seq<char>)
    requires
        ip.text() == s,
    ensures
        ({
            let d0 = text::decimal(ip@[0] as nat);
            let d1 = text::decimal(ip@[1] as nat);
            let d2 = text::decimal(ip@[2] as nat);
            let d3 = text::decimal(ip@[3] as nat);
            let e0 = d0.len() as int;
            let e1 = e0 + 1 + d1.len();
            let e2 = e1 + 1 + d2.len();
            let e3 = e2 + 1 + d3.len();
            &&& s.len() == e3
            &&& s[e0] == '.' && s[e1] == '.' && s[e2] == '.'
            &&& s.subrange(0, e0) == d0
            &&& s.subrange(e0 + 1, e1) == d1
            &&& s.subrange(e1 + 1, e2) == d2
            &&& s.subrange(e2 + 1, e3) == d3
            &&& text::digits_end(s, 0) == e0
            &&& text::digits_end(s, e0 + 1) == e1
            &&& text::digits_end(s, e1 + 1) == e2
            &&& text::digits_end(s, e2 + 1) == e3
        }),
{
    let d0 = text::decimal(ip@[0] as nat);
    let d1 = text::decimal(ip@[1] as nat);
    let d2 = text::decimal(ip@[2] as nat);
    let d3 = text::decimal(ip@[3] as nat);
    let e0 = d0.len() as int;
    let e1 = e0 + 1 + d1.len();
    let e2 = e1 + 1 + d2.len();
    let e3 = e2 + 1 + d3.len();
    text::lemma_decimal_value(ip@[0] as nat);
    text::lemma_decimal_value(ip@[1] as nat);
    text::lemma_decimal_value(ip@[2] as nat);
    text::lemma_decimal_value(ip@[3] as nat);
    assert(s.subrange(0, e0) =~= d0);
    assert(s.subrange(e0 + 1, e1) =~= d1);
    assert(s.subrange(e1 + 1, e2) =~= d2);
    assert(s.subrange(e2 + 1, e3) =~= d3);
    assert forall|j: int| 0 <= j < e0 implies text::is_digit(#[trigger] s[j]) by {
        assert(s[j] == d0[j]);
    }
    assert forall|j: int| e0 + 1 <= j < e1 implies text::is_digit(#[trigger] s[j]) by {
        assert(s[j] == d1[j - e0 - 1]);
    }
    assert forall|j: int| e1 + 1 <= j < e2 implies text::is_digit(#[trigger] s[j]) by {
        assert(s[j] == d2[j - e1 - 1]);
    }
    assert forall|j: int| e2 + 1 <= j < e3 implies text::is_digit(#[trigger] s[j]) by {
        assert(s[j] == d3[j - e2 - 1]);
    }
    text::lemma_digits_end_is(s, 0, e0);
    text::lemma_digits_end_is(s, e0 + 1, e1);
    text::lemma_digits_end_is(s, e1 + 1, e2);
    text::lemma_digits_end_is(s, e2 + 1, e3);
}

/// Whether `s` holds, from `i` on, a readable octet that ends before a dot.
spec fn octet_then_dot(s: Seq<char>, i: int) -> bool {
    let e = text::digits_end(s, i);
    &&& text::is_decimal(s.subrange(i, e))
    &&& text::digits_value(s.subrange(i, e)) <= 255
    &&& e < s.len() && s[e] == '.'
}

/// Every text of an address passes the checks of the reader.
proof fn lemma_text_accepted(ip: Ipv4Addr, s: Seq<char>)
    requires
        ip.text() == s,
    ensures
        octet_then_dot(s, 0),
        octet_then_dot(s, text::digits_end(s, 0) + 1),
        ({
            let e1 = text::digits_end(s, text::digits_end(s, 0) + 1);
            let e2 = text::digits_end(s, e1 + 1);
            let e3 = text::digits_end(s, e2 + 1);
            &&& octet_then_dot(s, e1 + 1)
            &&& e3 == s.len()
            &&& text::is_decimal(s.subrange(e2 + 1, e3))
            &&& text::digits_value(s.subrange(e2 + 1, e3)) <= 255
        }),
{
    lemma_text_layout(ip, s);
    text::lemma_decimal_value(ip@[0] as nat);
    text::lemma_decimal_value(ip@[1] as nat);
    text::lemma_decimal_value(ip@[2] as nat);
    text::lemma_decimal_value(ip@[3] as nat);
}

fn parse_dotted(s: &Vec<char>) -> (ip: Option<Ipv4Addr>)
    ensures
        ip matches Some(a) ==> a.text() == s@,
        ip is None ==> forall|a: Ipv4Addr| #[trigger] a.text() != s@,
{
    proof {
        assert forall|a: Ipv4Addr| #[trigger] a.text() == s@ implies octet_then_dot(s@, 0) by {
            lemma_text_accepted(a, s@);
        }
        assert forall|a: Ipv4Addr| #[trigger] a.text() == s@ implies octet_then_dot(
            s@,
            text::digits_end(s@, 0) + 1,
        ) by {
            lemma_text_accepted(a, s@);
        }
        assert forall|a: Ipv4Addr| #[trigger] a.text() == s@ implies ({
            let e1 = text::digits_end(s@, text::digits_end(s@, 0) + 1);
            let e2 = text::digits_end(s@, e1 + 1);
            let e3 = text::digits_end(s@, e2 + 1);
            &&& octet_then_dot(s@, e1 + 1)
            &&& e3 == s@.len()
            &&& text::is_decimal(s@.subrange(e2 + 1, e3))
            &&& text::digits_value(s@.subrange(e2 + 1, e3)) <= 255
        }) by {
            lemma_text_accepted(a, s@);
        }
    }
    let (a, e0): (u8, usize) = match parse_octet(s, 0) {
        Some(r) => r,
        None => return None,
    };
    if e0 >= s.len() || s[e0] != '.' {
        return None;
    }
    let (b, e1): (u8, usize) = match parse_octet(s, e0 + 1) {
        Some(r) => r,
        None => return None,
    };
    if e1 >= s.len() || s[e1] != '.' {
        return None;
    }
    let (c, e2): (u8, usize) = match parse_octet(s, e1 + 1) {
        Some(r) => r,
        None => return None,
    };
    if e2 >= s.len() || s[e2] != '.' {
        return None;
    }
    let (d, e3): (u8, usize) = match parse_octet(s, e2 + 1) {
        Some(r) => r,
        None => return None,
    };
    if e3 != s.len() {
        return None;
    }
    let ip = Ipv4Addr::new(a, b, c, d);
    proof {
        text::lemma_decimal_of_value(s@.subrange(0, e0 as int));
        text::lemma_decimal_of_value(s@.subrange(e0 + 1, e1 as int));
        text::lemma_decimal_of_value(s@.subrange(e1 + 1, e2 as int));
        text::lemma_decimal_of_value(s@.subrange(e2 + 1, e3 as int));
        assert(ip.text() =~= s@);
    }
    Some(ip)
}

pub proof fn lemma_text_is_not_empty(ip: Ipv4Addr)
    ensures
        ip.text().len() > 0,
{
    lemma_text_layout(ip, ip.text());
}

pub proof fn lemma_text_has_no_slash(ip: Ipv4Addr)
    ensures
        forall|i: int| 0 <= i < ip.text().len() ==> #[trigger] ip.text()[i] != '/',
{
    let a = text::decimal(ip@[0] as nat);
    let b = text::decimal(ip@[1] as nat);
    let c = text::decimal(ip@[2] as nat);
    let d = text::decimal(ip@[3] as nat);
    let s = ip.text();
    text::lemma_decimal_value(ip@[0] as nat);
    text::lemma_decimal_value(ip@[1] as nat);
    text::lemma_decimal_value(ip@[2] as nat);
    text::lemma_decimal_value(ip@[3] as nat);
    let p = a.len() as int;
    let q = p + 1 + b.len();
    let r = q + 1 + c.len();
    assert forall|i: int| 0 <= i < s.len() implies #[trigger] s[i] != '/' by {
        if i < p {
            assert(s[i] == a[i] && text::is_digit(a[i]));
        } else if p < i < q {
            assert(s[i] == b[i - p - 1] && text::is_digit(b[i - p - 1]));
        } else if q < i < r {
            assert(s[i] == c[i - q - 1] && text::is_digit(c[i - q - 1]));
        } else if i > r {
            assert(s[i] == d[i - r - 1] && text::is_digit(d[i - r - 1]));
        }
    }
}

/// No two addresses are written alike.
pub proof fn law_text_injective(a: Ipv4Addr, b: Ipv4Addr)
    requires
        a.text() == b.text(),
    ensures
        a == b,
{
    let s = a.text();
    lemma_text_layout(a, s);
    lemma_text_layout(b, s);
    codec::lemma_be_bytes_len(a.bits as nat, 4);
    codec::lemma_be_bytes_len(b.bits as nat, 4);
    assert forall|i: int| 0 <= i < 4 implies a@[i] == b@[i] by {
        text::lemma_decimal_value(a@[i] as nat);
        text::lemma_decimal_value(b@[i] as nat);
    }
    assert(a@ =~= b@);
    codec::lemma_pow256_values();
    codec::lemma_be_value_of_bytes(a.bits as nat, 4);
    codec::lemma_be_value_of_bytes(b.bits as nat, 4);
}

/// An address written as text and read again is the same address.
pub proof fn law_text_roundtrip(ip: Ipv4Addr)
    ensures
        Ipv4Addr::parsed(ip.text()) == Some(ip),
{
    let b = choose|b: Ipv4Addr| #[trigger] b.text() == ip.text();
    law_text_injective(b, ip);
}

impl IpAddr {
    /// The socket address with this address and the given port.
    pub open spec fn with_port(self, port: u16) -> SocketAddr {
        match self {
            IpAddr::V4(ip) => SocketAddr::V4 { ip, port },
            IpAddr::V6(ip) => SocketAddr::V6 { ip6: ip, port, flowinfo: 0, scope_id: 0 },
        }
    }
}

impl SocketAddr {
    /// The IP address of the endpoint.
    pub open spec fn ip_of(self) -> IpAddr {
        match self {
            SocketAddr::V4 { ip, .. } => IpAddr::V4(ip),
            SocketAddr::V6 { ip6, .. } => IpAddr::V6(ip6),
        }
    }

    /// The port of the endpoint.
    pub open spec fn port_of(self) -> u16 {
        match self {
            SocketAddr::V4 { port, .. } => port,
            SocketAddr::V6 { port, .. } => port,
        }
    }

    /// The endpoint with the given address and port.
    pub fn new(ip: IpAddr, port: u16) -> (addr: Self)
        ensures
            addr == ip.with_port(port),
    {
        match ip {
            IpAddr::V4(ip) => SocketAddr::V4 { ip, port },
            IpAddr::V6(ip) => SocketAddr::V6 { ip6: ip, port, flowinfo: 0, scope_id: 0 },
        }
    }

    /// The IP address of the endpoint.
    pub fn ip(&self) -> (ip: IpAddr)
        ensures
            ip == self.ip_of(),
    {
        match *self {
            SocketAddr::V4 { ip, .. } => IpAddr::V4(ip),
            SocketAddr::V6 { ip6, .. } => IpAddr::V6(ip6),
        }
    }

    /// The port of the endpoint.
    pub fn port(&self) -> (port: u16)
        ensures
            port == self.port_of(),
    {
        match *self {
            SocketAddr::V4 { port, .. } => port,
            SocketAddr::V6 { port, .. } => port,
        }
    }
}

/// An endpoint has the address and the port that it was made of.
pub proof fn law_endpoint_keeps_address_and_port(ip: IpAddr, port: u16)
    ensures
        ip.with_port(port).ip_of() == ip,
        ip.with_port(port).port_of() == port,
        ip matches IpAddr::V4(v4) ==> ip.with_port(port) == (SocketAddr::V4 { ip: v4, port }),
        ip matches IpAddr::V6(v6) ==> ip.with_port(port) == (SocketAddr::V6 {
            ip6: v6,
            port,
            flowinfo: 0,
            scope_id: 0,
        }),
{
}

/// The octets of an address, from left to right, are those of its number, the
/// highest first.
pub proof fn law_octets_spell_the_address(ip: Ipv4Addr)
    ensures
        ip@.len() == 4,
        ip.bits == ip@[0] * 0x100_0000 + ip@[1] * 0x1_0000 + ip@[2] * 0x100 + ip@[3],
        Ipv4Addr::of(ip@) == ip,
{
    codec::lemma_be_bytes_len(ip.bits as nat, 4);
    codec::lemma_pow256_values();
    codec::lemma_be_value_of_bytes(ip.bits as nat, 4);
    codec::lemma_be_value_4(ip@);
    assert(ip == Ipv4Addr { bits: ip.bits });
}

} // verus!
