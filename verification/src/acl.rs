//! Packet filtering: reading IP headers and applying access rules to them.

use vstd::prelude::*;

use crate::addr;
use crate::addr::Ipv4Addr;
use crate::codec;
use crate::text;

verus! {

/// A DNS record for Magic DNS name resolution.
#[derive(Debug, Clone)]
pub struct DnsRecord {
    /// Hostname (without domain suffix).
    pub hostname: String,
    /// Virtual IPv4 address.
    pub ipv4: Ipv4Addr,
}

/// An ACL rule for packet filtering.
#[derive(Debug, Clone)]
pub struct AclRule {
    /// Rule priority (lower = higher priority).
    pub priority: u32,
    /// Action: "allow" or "deny".
    pub action: String,
    /// Source virtual IP (optional, empty = any).
    pub src_ip: String,
    /// Destination virtual IP (optional, empty = any).
    pub dst_ip: String,
    /// Protocol: "tcp", "udp", "icmp", or "" for any.
    pub protocol: String,
    /// Source port (0 = any).
    pub src_port: u16,
    /// Destination port (0 = any).
    pub dst_port: u16,
}

/// An IP packet header parsed for ACL matching.
#[derive(Debug, Clone, Copy, PartialEq, Eq, Structural)]
pub struct PacketInfo {
    /// Source IPv4 address.
    pub src_ip: Ipv4Addr,
    /// Destination IPv4 address.
    pub dst_ip: Ipv4Addr,
    /// IP protocol number (6=TCP, 17=UDP, 1=ICMP).
    pub protocol: u8,
    /// Source port (TCP/UDP only).
    pub src_port: u16,
    /// Destination port (TCP/UDP only).
    pub dst_port: u16,
}

/// Whether the bytes begin like an IPv4 packet: room for the fixed header,
/// and version 4 in the upper half of the first byte.
pub open spec fn is_ipv4(packet: Seq<u8>) -> bool {
    packet.len() >= 20 && packet[0] / 16 == 4
}

/// The source address field of an IPv4 header.
pub open spec fn source_of(packet: Seq<u8>) -> Ipv4Addr {
    Ipv4Addr::of(packet.subrange(12, 16))
}

/// The destination address field of an IPv4 header.
pub open spec fn destination_of(packet: Seq<u8>) -> Ipv4Addr {
    Ipv4Addr::of(packet.subrange(16, 20))
}

/// Where the transport header begins: the header length field counts words
/// of four bytes.
pub open spec fn transport_start(packet: Seq<u8>) -> int {
    (packet[0] % 16) * 4
}

/// Whether the packet carries ports, and is long enough to read them.
pub open spec fn has_ports(packet: Seq<u8>) -> bool {
    &&& packet.len() >= 24
    &&& packet[9] == 6 || packet[9] == 17
    &&& packet.len() >= transport_start(packet) + 4
}

/// The two bytes of the packet at `at`, as a big-endian number.
pub open spec fn word_at(packet: Seq<u8>, at: int) -> u16 {
    codec::be_value(packet.subrange(at, at + 2)) as u16
}

impl PacketInfo {
    /// What the header of a packet says, if it is an IPv4 packet. Ports that
    /// cannot be read count as zero.
    pub open spec fn parsed(packet: Seq<u8>) -> Option<PacketInfo> {
        if !is_ipv4(packet) {
            None
        } else {
            let at = transport_start(packet);
            Some(
                PacketInfo {
                    src_ip: source_of(packet),
                    dst_ip: destination_of(packet),
                    protocol: packet[9],
                    src_port: if has_ports(packet) {
                        word_at(packet, at)
                    } else {
                        0
                    },
                    dst_port: if has_ports(packet) {
                        word_at(packet, at + 2)
                    } else {
                        0
                    },
                },
            )
        }
    }

    /// Parse an IP packet to extract ACL-relevant fields.
    pub fn parse(packet: &[u8]) -> (info: Option<Self>)
        ensures
            info == Self::parsed(packet@),
    {
        if packet.len() < 20 || packet[0] / 16 != 4 {
            return None;
        }
        proof {
            codec::lemma_pow256_values();
        }
        let src_ip = Ipv4Addr { bits: codec::read_be(packet, 12, 4) as u32 };
        let dst_ip = Ipv4Addr { bits: codec::read_be(packet, 16, 4) as u32 };
        let protocol: u8 = packet[9];
        let mut src_port: u16 = 0;
        let mut dst_port: u16 = 0;
        if packet.len() >= 24 && (protocol == 6 || protocol == 17) {
            let at: usize = (packet[0] % 16) as usize * 4;
            if packet.len() >= at + 4 {
                src_port = codec::read_be(packet, at, 2) as u16;
                dst_port = codec::read_be(packet, at + 2, 2) as u16;
            }
        }
        Some(PacketInfo { src_ip, dst_ip, protocol, src_port, dst_port })
    }
}

/// Whether a rule's address field lets an address pass: an empty field is
/// any address, and so is one that is no address.
pub open spec fn address_allows(field: Seq<char>, ip: Ipv4Addr) -> bool {
    ||| field.len() == 0
    ||| Ipv4Addr::parsed(field) is None
    ||| Ipv4Addr::parsed(field) == Some(ip)
}

/// Whether a rule's protocol field names the protocol number, or any.
pub open spec fn protocol_allows(field: Seq<char>, protocol: u8) -> bool {
    ||| field.len() == 0
    ||| field == "tcp"@ && protocol == 6
    ||| field == "udp"@ && protocol == 17
    ||| field == "icmp"@ && protocol == 1
}

/// Whether a rule's port field is the port, or zero for any.
pub open spec fn port_allows(field: u16, port: u16) -> bool {
    field == 0 || field == port
}

fn check_address(field: &String, ip: Ipv4Addr) -> (ok: bool)
    ensures
        ok == address_allows(field@, ip),
{
    if field.as_str().is_empty() {
        return true;
    }
    match Ipv4Addr::parse(field.as_str()) {
        Some(wanted) => wanted == ip,
        None => true,
    }
}

fn check_protocol(field: &String, protocol: u8) -> (ok: bool)
    ensures
        ok == protocol_allows(field@, protocol),
{
    proof {
        reveal_strlit("tcp");
        reveal_strlit("udp");
        reveal_strlit("icmp");
        assert("tcp"@[0] != "udp"@[0]);
        assert("tcp"@.len() != "icmp"@.len());
        assert("udp"@.len() != "icmp"@.len());
    }
    if field.as_str().is_empty() {
        true
    } else if text::same(field.as_str(), "tcp") {
        protocol == 6
    } else if text::same(field.as_str(), "udp") {
        protocol == 17
    } else if text::same(field.as_str(), "icmp") {
        protocol == 1
    } else {
        false
    }
}

impl AclRule {
    /// Whether the rule applies to a packet: every field that is set agrees.
    pub open spec fn applies(self, pkt: PacketInfo) -> bool {
        &&& address_allows(self.src_ip@, pkt.src_ip)
        &&& address_allows(self.dst_ip@, pkt.dst_ip)
        &&& protocol_allows(self.protocol@, pkt.protocol)
        &&& port_allows(self.src_port, pkt.src_port)
        &&& port_allows(self.dst_port, pkt.dst_port)
    }

    /// Check if this rule matches a packet.
    pub fn matches(&self, pkt: &PacketInfo) -> (yes: bool)
        ensures
            yes == self.applies(*pkt),
    {
        if !check_address(&self.src_ip, pkt.src_ip) {
            return false;
        }
        if !check_address(&self.dst_ip, pkt.dst_ip) {
            return false;
        }
        if !check_protocol(&self.protocol, pkt.protocol) {
            return false;
        }
        if self.src_port != 0 && pkt.src_port != self.src_port {
            return false;
        }
        if self.dst_port != 0 && pkt.dst_port != self.dst_port {
            return false;
        }
        true
    }
}

/// Whether rule `i` of the list goes before rule `j`: it has the lower
/// priority number, or the same one and an earlier place.
pub open spec fn goes_before(rules: Seq<AclRule>, i: int, j: int) -> bool {
    ||| rules[i].priority < rules[j].priority
    ||| rules[i].priority == rules[j].priority && i <= j
}

/// Whether rule `i` decides on the packet: it applies, and no rule that goes
/// before it does.
pub open spec fn decides(rules: Seq<AclRule>, pkt: PacketInfo, i: int) -> bool {
    &&& 0 <= i < rules.len()
    &&& rules[i].applies(pkt)
    &&& forall|j: int|
        0 <= j < rules.len() && #[trigger] rules[j].applies(pkt) ==> goes_before(rules, i, j)
}

/// Whether the rules turn the packet away: it is an IPv4 packet, some rule
/// decides on it, and that rule says "deny".
pub open spec fn denied(rules: Seq<AclRule>, packet: Seq<u8>) -> bool {
    PacketInfo::parsed(packet) matches Some(pkt) && exists|i: int| #[trigger]
        decides(rules, pkt, i) && rules[i].action@ == "deny"@
}

/// Evaluate a list of ACL rules against a packet.
/// Returns the action of the first matching rule in the order of priority,
/// or "allow" if no rules match.
pub fn evaluate_acls(rules: &[AclRule], packet: &[u8]) -> (action: &'static str)
    ensures
        action@ == if denied(rules@, packet@) {
            "deny"@
        } else {
            "allow"@
        },
{
    let pkt: PacketInfo = match PacketInfo::parse(packet) {
        Some(info) => info,
        None => return "allow",
    };
    let mut best: Option<usize> = None;
    let mut i: usize = 0;
    while i < rules.len()
        invariant
            i <= rules@.len(),
            PacketInfo::parsed(packet@) == Some(pkt),
            best matches Some(b) ==> {
                &&& b < i
                &&& rules@[b as int].applies(pkt)
                &&& forall|j: int|
                    0 <= j < i && #[trigger] rules@[j].applies(pkt) ==> goes_before(
                        rules@,
                        b as int,
                        j,
                    )
            },
            best is None ==> forall|j: int| 0 <= j < i ==> !#[trigger] rules@[j].applies(pkt),
        decreases rules@.len() - i,
    {
        if rules[i].matches(&pkt) {
            match best {
                Some(b) => {
                    if rules[i].priority < rules[b].priority {
                        best = Some(i);
                    }
                },
                None => {
                    best = Some(i);
                },
            }
        }
        i = i + 1;
    }
    match best {
        Some(b) => {
            assert(decides(rules@, pkt, b as int));
            proof {
                assert forall|k: int| #[trigger] decides(rules@, pkt, k) implies k == b by {
                    law_one_rule_decides(rules@, pkt, b as int, k);
                }
            }
            if text::same(rules[b].action.as_str(), "deny") {
                "deny"
            } else {
                "allow"
            }
        },
        None => "allow",
    }
}

/// At most one rule decides on a packet.
pub proof fn law_one_rule_decides(rules: Seq<AclRule>, pkt: PacketInfo, i: int, j: int)
    requires
        decides(rules, pkt, i),
        decides(rules, pkt, j),
    ensures
        i == j,
{
    assert(rules[i].applies(pkt));
    assert(rules[j].applies(pkt));
}

/// If any rule applies to a packet, one of them decides on it.
pub proof fn law_some_rule_decides(rules: Seq<AclRule>, pkt: PacketInfo, k: int)
    requires
        0 <= k < rules.len(),
        rules[k].applies(pkt),
    ensures
        exists|i: int| decides(rules, pkt, i),
    decreases rules[k].priority, k,
{
    if !decides(rules, pkt, k) {
        let j = choose|j: int|
            0 <= j < rules.len() && #[trigger] rules[j].applies(pkt) && !goes_before(rules, k, j);
        law_some_rule_decides(rules, pkt, j);
    }
}

/// A packet to which no rule applies passes, and so does everything that is
/// no IPv4 packet.
pub proof fn law_allowed_by_default(rules: Seq<AclRule>, packet: Seq<u8>)
    requires
        PacketInfo::parsed(packet) matches Some(pkt) ==> forall|i: int|
            0 <= i < rules.len() ==> !#[trigger] rules[i].applies(pkt),
    ensures
        !denied(rules, packet),
{
}

/// A rule that is put behind all others, with a priority number no lower
/// than theirs, changes nothing for packets to which one of them applies.
pub proof fn law_later_rule_is_shadowed(rules: Seq<AclRule>, rule: AclRule, packet: Seq<u8>)
    requires
        PacketInfo::parsed(packet) is Some,
        exists|i: int|
            0 <= i < rules.len() && #[trigger] rules[i].applies(PacketInfo::parsed(packet)->0),
        forall|i: int| 0 <= i < rules.len() ==> #[trigger] rules[i].priority <= rule.priority,
    ensures
        denied(rules.push(rule), packet) == denied(rules, packet),
{
    let pkt = PacketInfo::parsed(packet)->0;
    let k = choose|i: int| 0 <= i < rules.len() && #[trigger] rules[i].applies(pkt);
    law_some_rule_decides(rules, pkt, k);
    let d = choose|i: int| decides(rules, pkt, i);
    let more = rules.push(rule);
    assert forall|j: int| 0 <= j < more.len() && #[trigger] more[j].applies(pkt) implies goes_before(
        more,
        d,
        j,
    ) by {
        if j < rules.len() {
            assert(rules[j].applies(pkt));
            assert(goes_before(rules, d, j));
        }
    }
    assert(more[d] == rules[d]);
    assert(decides(more, pkt, d));
    assert forall|i: int| #[trigger] decides(more, pkt, i) implies i == d by {
        law_one_rule_decides(more, pkt, i, d);
    }
    assert forall|i: int| #[trigger] decides(rules, pkt, i) implies i == d by {
        law_one_rule_decides(rules, pkt, i, d);
    }
}

/// What is read out of an IPv4 packet, byte by byte: the addresses behind the
/// twelfth byte, the protocol in the tenth, and the ports in front of the rest
/// behind the header, whose length is counted in words of four bytes. Only TCP
/// and UDP have ports.
pub proof fn law_packet_fields(packet: Seq<u8>)
    ensures
        PacketInfo::parsed(packet) is Some <==> packet.len() >= 20 && packet[0] / 16 == 4,
        PacketInfo::parsed(packet) matches Some(pkt) ==> {
            let at = (packet[0] % 16) * 4;
            let with_ports = (packet[9] == 6 || packet[9] == 17) && packet.len() >= 24
                && packet.len() >= at + 4;
            &&& pkt.src_ip.bits == packet[12] * 0x100_0000 + packet[13] * 0x1_0000 + packet[14]
                * 0x100 + packet[15]
            &&& pkt.dst_ip.bits == packet[16] * 0x100_0000 + packet[17] * 0x1_0000 + packet[18]
                * 0x100 + packet[19]
            &&& pkt.protocol == packet[9]
            &&& with_ports ==> pkt.src_port == packet[at] * 0x100 + packet[at + 1]
                && pkt.dst_port == packet[at + 2] * 0x100 + packet[at + 3]
            &&& !with_ports ==> pkt.src_port == 0 && pkt.dst_port == 0
        },
{
    if is_ipv4(packet) {
        codec::lemma_be_value_4(packet.subrange(12, 16));
        codec::lemma_be_value_4(packet.subrange(16, 20));
        let at = transport_start(packet);
        if has_ports(packet) {
            codec::lemma_be_value_2(packet.subrange(at, at + 2));
            codec::lemma_be_value_2(packet.subrange(at + 2, at + 4));
        }
    }
}

/// Whether a rule says "deny" and leaves everything but, at most, the protocol
/// open.
pub open spec fn denies_by_protocol(rule: AclRule) -> bool {
    &&& rule.action@ == "deny"@
    &&& rule.src_ip@.len() == 0
    &&& rule.dst_ip@.len() == 0
    &&& rule.src_port == 0
    &&& rule.dst_port == 0
}

/// A rule on a protocol denies the IPv4 packets with that protocol's number,
/// and no others: 6 for "tcp", 17 for "udp" and 1 for "icmp". Without a protocol
/// it denies all of them, and with a protocol of another name none.
pub proof fn law_protocol_rule_denies_its_protocol(rule: AclRule, packet: Seq<u8>)
    requires
        denies_by_protocol(rule),
    ensures
        ({
            let is_packet = packet.len() >= 20 && packet[0] / 16 == 4;
            let denied = denied(seq![rule], packet);
            &&& rule.protocol@ == "tcp"@ ==> (denied <==> is_packet && packet[9] == 6)
            &&& rule.protocol@ == "udp"@ ==> (denied <==> is_packet && packet[9] == 17)
            &&& rule.protocol@ == "icmp"@ ==> (denied <==> is_packet && packet[9] == 1)
            &&& rule.protocol@ == Seq::<char>::empty() ==> (denied <==> is_packet)
            &&& rule.protocol@ != "tcp"@ && rule.protocol@ != "udp"@ && rule.protocol@ != "icmp"@
                && rule.protocol@ != Seq::<char>::empty() ==> !denied
        }),
{
    reveal_strlit("tcp");
    reveal_strlit("udp");
    reveal_strlit("icmp");
    reveal_strlit("deny");
    assert("tcp"@[0] != "udp"@[0]);
    assert("icmp"@.len() == 4 && "tcp"@.len() == 3 && "udp"@.len() == 3);
    lemma_single_rule(rule, packet);
    if rule.protocol@.len() == 0 {
        assert(rule.protocol@ =~= Seq::<char>::empty());
    }
}

proof fn lemma_single_rule(rule: AclRule, packet: Seq<u8>)
    requires
        rule.action@ == "deny"@,
    ensures
        denied(seq![rule], packet) <==> (PacketInfo::parsed(packet) matches Some(pkt)
            && rule.applies(pkt)),
{
    let rules = seq![rule];
    if let Some(pkt) = PacketInfo::parsed(packet) {
        if rule.applies(pkt) {
            assert(rules[0].applies(pkt));
            assert(decides(rules, pkt, 0));
        }
    }
}

/// A rule on the destination port denies the TCP and UDP packets that are for
/// that port, and a rule on the source port those that come from it.
pub proof fn law_port_rule_denies_its_port(rule: AclRule, packet: Seq<u8>)
    requires
        rule.action@ == "deny"@,
        rule.src_ip@.len() == 0,
        rule.dst_ip@.len() == 0,
        rule.protocol@.len() == 0,
        rule.src_port == 0 || rule.dst_port == 0,
    ensures
        ({
            let at = (packet[0] % 16) * 4;
            let with_ports = packet.len() >= 24 && packet[0] / 16 == 4 && (packet[9] == 6
                || packet[9] == 17) && packet.len() >= at + 4;
            let denied = denied(seq![rule], packet);
            &&& rule.dst_port > 0 ==> (denied <==> with_ports && packet[at + 2] * 0x100 + packet[at
                + 3] == rule.dst_port)
            &&& rule.src_port > 0 ==> (denied <==> with_ports && packet[at] * 0x100 + packet[at
                + 1] == rule.src_port)
        }),
{
    lemma_single_rule(rule, packet);
    law_packet_fields(packet);
}

/// A rule on the destination denies the packets for that address, and a rule on
/// the source those from it. What is no address stands for any.
pub proof fn law_address_rule_denies_its_address(rule: AclRule, packet: Seq<u8>, ip: Ipv4Addr)
    requires
        rule.action@ == "deny"@,
        rule.protocol@.len() == 0,
        rule.src_port == 0,
        rule.dst_port == 0,
        rule.src_ip@.len() == 0 || rule.dst_ip@.len() == 0,
    ensures
        ({
            let is_packet = packet.len() >= 20 && packet[0] / 16 == 4;
            let denied = denied(seq![rule], packet);
            &&& rule.dst_ip@ == ip.text() ==> (denied <==> is_packet && packet[16] * 0x100_0000
                + packet[17] * 0x1_0000 + packet[18] * 0x100 + packet[19] == ip.bits)
            &&& rule.src_ip@ == ip.text() ==> (denied <==> is_packet && packet[12] * 0x100_0000
                + packet[13] * 0x1_0000 + packet[14] * 0x100 + packet[15] == ip.bits)
            &&& (forall|any: Ipv4Addr| #[trigger]
                any.text() != rule.src_ip@ && any.text() != rule.dst_ip@) ==> (denied
                <==> is_packet)
        }),
{
    lemma_single_rule(rule, packet);
    law_packet_fields(packet);
    addr::law_text_roundtrip(ip);
    addr::lemma_text_is_not_empty(ip);
    if let Some(pkt) = PacketInfo::parsed(packet) {
        assert(pkt.src_ip == Ipv4Addr { bits: pkt.src_ip.bits });
        assert(pkt.dst_ip == Ipv4Addr { bits: pkt.dst_ip.bits });
        assert(ip == Ipv4Addr { bits: ip.bits });
    }
}

/// A rule denies what it would deny by each of its fields alone: `by_source`,
/// `by_destination`, `by_protocol`, `from_port` and `to_port` each have one of
/// the rule's fields, and all others open.
pub proof fn law_rule_denies_what_every_field_denies(
    rule: AclRule,
    by_source: AclRule,
    by_destination: AclRule,
    by_protocol: AclRule,
    from_port: AclRule,
    to_port: AclRule,
    packet: Seq<u8>,
)
    requires
        rule.action@ == "deny"@,
        is_open_but(by_source, rule.src_ip@, Seq::empty(), Seq::empty(), 0, 0),
        is_open_but(by_destination, Seq::empty(), rule.dst_ip@, Seq::empty(), 0, 0),
        is_open_but(by_protocol, Seq::empty(), Seq::empty(), rule.protocol@, 0, 0),
        is_open_but(from_port, Seq::empty(), Seq::empty(), Seq::empty(), rule.src_port, 0),
        is_open_but(to_port, Seq::empty(), Seq::empty(), Seq::empty(), 0, rule.dst_port),
    ensures
        denied(seq![rule], packet) <==> {
            &&& denied(seq![by_source], packet)
            &&& denied(seq![by_destination], packet)
            &&& denied(seq![by_protocol], packet)
            &&& denied(seq![from_port], packet)
            &&& denied(seq![to_port], packet)
        },
{
    lemma_single_rule(rule, packet);
    lemma_single_rule(by_source, packet);
    lemma_single_rule(by_destination, packet);
    lemma_single_rule(by_protocol, packet);
    lemma_single_rule(from_port, packet);
    lemma_single_rule(to_port, packet);
}

/// Whether a rule says "deny", with these fields.
pub open spec fn is_open_but(
    rule: AclRule,
    src_ip: Seq<char>,
    dst_ip: Seq<char>,
    protocol: Seq<char>,
    src_port: u16,
    dst_port: u16,
) -> bool {
    &&& rule.action@ == "deny"@
    &&& rule.src_ip@ == src_ip
    &&& rule.dst_ip@ == dst_ip
    &&& rule.protocol@ == protocol
    &&& rule.src_port == src_port
    &&& rule.dst_port == dst_port
}

/// Of the rules that apply to a packet, the one with the lowest priority number
/// has its way; of those with the same number, the first. It turns the packet
/// away if it says "deny", and lets it pass if it says anything else.
pub proof fn law_lowest_priority_number_decides(
    rules: Seq<AclRule>,
    packet: Seq<u8>,
    pkt: PacketInfo,
    i: int,
)
    requires
        PacketInfo::parsed(packet) == Some(pkt),
        0 <= i < rules.len(),
        rules[i].applies(pkt),
        forall|j: int|
            0 <= j < rules.len() && j != i && #[trigger] rules[j].applies(pkt) ==> rules[i].priority
                < rules[j].priority || rules[i].priority == rules[j].priority && i < j,
    ensures
        denied(rules, packet) <==> rules[i].action@ == "deny"@,
{
    assert(decides(rules, pkt, i));
    if denied(rules, packet) {
        let k = choose|k: int| #[trigger] decides(rules, pkt, k) && rules[k].action@ == "deny"@;
        law_one_rule_decides(rules, pkt, i, k);
    }
    if rules[i].action@ =~= "deny"@ {
        assert(decides(rules, PacketInfo::parsed(packet)->0, i));
    }
}

/// Whether a rule applies to a packet is whether it would turn it away if it
/// were the only rule and said "deny".
pub proof fn law_rule_applies_as_it_denies(rule: AclRule, packet: Seq<u8>, pkt: PacketInfo)
    requires
        PacketInfo::parsed(packet) == Some(pkt),
        rule.action@ == "deny"@,
    ensures
        rule.applies(pkt) <==> denied(seq![rule], packet),
{
    lemma_single_rule(rule, packet);
}

/// What a rule says does not bear on which packets it applies to, nor does its
/// priority.
pub proof fn law_action_does_not_matter_for_applying(a: AclRule, b: AclRule, pkt: PacketInfo)
    requires
        a.src_ip@ == b.src_ip@,
        a.dst_ip@ == b.dst_ip@,
        a.protocol@ == b.protocol@,
        a.src_port == b.src_port,
        a.dst_port == b.dst_port,
    ensures
        a.applies(pkt) == b.applies(pkt),
{
}

/// A single rule that says "deny", with a protocol and all else open, turns away
/// exactly the IPv4 packets whose tenth byte is the number of the protocol: 6 for
/// "tcp", 17 for "udp" and 1 for "icmp". Every other packet is allowed.
pub proof fn law_evaluate_acls_by_protocol(
    rules: &[AclRule],
    packet: &[u8],
    action: &'static str,
    number: u8,
)
    requires
        call_ensures(evaluate_acls, (rules, packet), action),
        rules@.len() == 1,
        denies_by_protocol(rules@[0]),
        ({
            ||| rules@[0].protocol@ == "tcp"@ && number == 6
            ||| rules@[0].protocol@ == "udp"@ && number == 17
            ||| rules@[0].protocol@ == "icmp"@ && number == 1
        }),
    ensures
        packet@.len() >= 20 && packet@[0] / 16 == 4 && packet@[9] == number ==> action@ == "deny"@,
        !(packet@.len() >= 20 && packet@[0] / 16 == 4 && packet@[9] == number) ==> action@
            == "allow"@,
{
    assert(rules@ =~= seq![rules@[0]]);
    law_protocol_rule_denies_its_protocol(rules@[0], packet@);
}

} // verus!
