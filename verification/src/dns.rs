//! A minimal DNS server that resolves the network's hostnames to virtual IPs.

use vstd::hash_map::StringHashMap;
use vstd::prelude::*;

use crate::addr::Ipv4Addr;
use crate::codec;
use crate::text;

verus! {

/// Length of a DNS message header.
pub const HEADER_LEN: usize = 12;

/// Answers A-record queries for hostnames matching `<name>.connectalso` or
/// bare `<name>`.
pub struct DnsServer {
    records: StringHashMap<Ipv4Addr>,
    upstream: String,
}

/// The domain that the network's names may carry.
pub open spec fn suffix() -> Seq<char> {
    ".connectalso"@
}

/// The labels of the question name that begins at `pos`, and where the name
/// ends; nothing if a label is not UTF-8.
///
/// A zero byte ends the name, and so does a compression pointer, which is two
/// bytes long and is not followed. A label that runs past the message ends it
/// too.
pub open spec fn name_at(query: Seq<u8>, pos: int) -> Option<(Seq<Seq<char>>, int)>
    decreases query.len() - pos,
{
    if pos < 0 || pos >= query.len() {
        Some((Seq::empty(), pos))
    } else if query[pos] == 0 {
        Some((Seq::empty(), pos + 1))
    } else if query[pos] >= 0x40 {
        Some((Seq::empty(), pos + 2))
    } else if pos + 1 + query[pos] > query.len() {
        Some((Seq::empty(), pos + 1))
    } else {
        let label = query.subrange(pos + 1, pos + 1 + query[pos]);
        if !vstd::utf8::valid_utf8(label) {
            None
        } else {
            after_labels(
                seq![vstd::utf8::decode_utf8(label)],
                name_at(query, pos + 1 + query[pos]),
            )
        }
    }
}

/// A name that begins with `labels` and goes on with `rest`.
pub open spec fn after_labels(
    labels: Seq<Seq<char>>,
    rest: Option<(Seq<Seq<char>>, int)>,
) -> Option<(Seq<Seq<char>>, int)> {
    match rest {
        Some((more, end)) => Some((labels + more, end)),
        None => None,
    }
}

/// The labels that a query asks for, and where the name ends. There is none
/// in a message without a question, or where type and class do not follow the
/// name.
pub open spec fn question(query: Seq<u8>) -> Option<(Seq<Seq<char>>, int)> {
    if query.len() < HEADER_LEN || query[4] == 0 && query[5] == 0 {
        None
    } else {
        match name_at(query, HEADER_LEN as int) {
            Some((labels, end)) => if end + 4 <= query.len() {
                Some((labels, end))
            } else {
                None
            },
            None => None,
        }
    }
}

/// The labels with dots between them.
pub open spec fn joined(labels: Seq<Seq<char>>) -> Seq<char>
    decreases labels.len(),
{
    if labels.len() == 0 {
        Seq::empty()
    } else if labels.len() == 1 {
        labels[0]
    } else {
        joined(labels.drop_last()).push('.') + labels.last()
    }
}

/// Each label in lowercase.
pub open spec fn lowered(labels: Seq<Seq<char>>) -> Seq<Seq<char>> {
    Seq::new(labels.len(), |i: int| text::lowercase(labels[i]))
}

/// The name without the network's domain, if it has it.
pub open spec fn host_of(name: Seq<char>) -> Seq<char> {
    let at = name.len() - suffix().len();
    if at >= 0 && name.subrange(at, name.len() as int) == suffix() {
        name.subrange(0, at)
    } else {
        name
    }
}

/// The flags and counts of an answer: no error, one question, one answer.
pub open spec fn answer_flags() -> Seq<u8> {
    seq![0x81u8, 0x80u8, 0u8, 1u8, 0u8, 1u8, 0u8, 0u8, 0u8, 0u8]
}

/// The head of an A record for the name in the question, good for a minute.
pub open spec fn record_head() -> Seq<u8> {
    seq![0xC0u8, 0x0Cu8, 0u8, 1u8, 0u8, 1u8, 0u8, 0u8, 0u8, 60u8, 0u8, 4u8]
}

/// The answer to a query whose name ends at `end`.
pub open spec fn answer(query: Seq<u8>, end: int, ip: Ipv4Addr) -> Seq<u8> {
    query.subrange(0, 2) + answer_flags() + query.subrange(HEADER_LEN as int, end + 4)
        + record_head() + ip@
}

/// The answer to a query for `name`, if there is a record of it.
pub open spec fn response(
    records: Map<Seq<char>, Ipv4Addr>,
    query: Seq<u8>,
    name: Seq<char>,
    end: int,
) -> Option<Seq<u8>> {
    if records.contains_key(host_of(name)) {
        Some(answer(query, end, records[host_of(name)]))
    } else {
        None
    }
}

/// What a query is answered.
pub open spec fn handled(records: Map<Seq<char>, Ipv4Addr>, query: Seq<u8>) -> Option<Seq<u8>> {
    match question(query) {
        Some((labels, end)) => response(records, query, joined(lowered(labels)), end),
        None => None,
    }
}

/// The records of a list of hosts; of two with one name, the later counts.
pub open spec fn table_of(hosts: Seq<(Seq<char>, Ipv4Addr)>) -> Map<Seq<char>, Ipv4Addr>
    decreases hosts.len(),
{
    if hosts.len() == 0 {
        Map::empty()
    } else {
        table_of(hosts.drop_last()).insert(hosts.last().0, hosts.last().1)
    }
}

/// The contents of a list of hosts.
pub open spec fn hosts_view(hosts: Seq<(String, Ipv4Addr)>) -> Seq<(Seq<char>, Ipv4Addr)> {
    Seq::new(hosts.len(), |i: int| (hosts[i].0@, hosts[i].1))
}

/// The hosts with their names in lowercase.
pub open spec fn lowered_hosts(hosts: Seq<(Seq<char>, Ipv4Addr)>) -> Seq<(Seq<char>, Ipv4Addr)> {
    Seq::new(hosts.len(), |i: int| (text::lowercase(hosts[i].0), hosts[i].1))
}

/// Joins labels with dots.
pub fn join_labels(labels: &Vec<String>) -> (name: String)
    ensures
        name@ == joined(text::texts(labels@)),
{
    let mut name: String = String::new();
    let mut i: usize = 0;
    let ghost all = text::texts(labels@);
    assert(all.subrange(0, 0) =~= Seq::empty());
    while i < labels.len()
        invariant
            i <= labels@.len(),
            all == text::texts(labels@),
            name@ == joined(all.subrange(0, i as int)),
        decreases labels@.len() - i,
    {
        let ghost before = name@;
        if i > 0 {
            proof {
                reveal_strlit(".");
            }
            name.append(".");
            assert(name@ =~= before.push('.'));
        }
        name.append(labels[i].as_str());
        assert(all.subrange(0, i + 1).drop_last() =~= all.subrange(0, i as int));
        assert(all.subrange(0, i + 1).last() == labels@[i as int]@);
        assert(name@ =~= joined(all.subrange(0, i + 1)));
        i = i + 1;
    }
    assert(all.subrange(0, i as int) =~= all);
    name
}

/// The host that a name stands for: the name without the network's domain, if
/// it has it.
pub fn host_part(name: &str) -> (host: String)
    ensures
        host@ == host_of(name@),
{
    proof {
        reveal_strlit(".connectalso");
    }
    let n: usize = name.unicode_len();
    if n >= 12 && text::same(name.substring_char(n - 12, n), ".connectalso") {
        name.substring_char(0, n - 12).to_owned()
    } else {
        name.to_owned()
    }
}

/// Reads the question name of a query (simple label parsing): its labels, and
/// where it ends.
pub fn parse_question(query: &[u8]) -> (q: Option<(Vec<String>, usize)>)
    ensures
        q is Some <==> question(query@) is Some,
        q matches Some((labels, end)) ==> question(query@) == Some(
            (text::texts(labels@), end as int),
        ),
{
    if query.len() < HEADER_LEN {
        return None;
    }
    if query[4] == 0 && query[5] == 0 {
        return None;
    }
    let len: usize = query.len();
    let mut pos: usize = HEADER_LEN;
    let mut labels: Vec<String> = Vec::new();
    assert(text::texts(labels@) =~= Seq::empty());
    proof {
        let whole = name_at(query@, HEADER_LEN as int);
        if whole is Some {
            assert(Seq::<Seq<char>>::empty() + (whole->0).0 =~= (whole->0).0);
        }
    }
    while pos < len
        invariant
            HEADER_LEN <= pos <= len == query@.len(),
            !(query@[4] == 0 && query@[5] == 0),
            name_at(query@, HEADER_LEN as int) == after_labels(
                text::texts(labels@),
                name_at(query@, pos as int),
            ),
        decreases len - pos,
    {
        let n: usize = query[pos] as usize;
        let ghost before = text::texts(labels@);
        if n == 0 || n >= 0x40 || n > len - pos - 1 {
            let skipped: usize = if n >= 0x40 {
                2
            } else {
                1
            };
            assert(before + Seq::<Seq<char>>::empty() =~= before);
            assert(name_at(query@, HEADER_LEN as int) == Some((before, pos + skipped)));
            if len - pos < skipped + 4 {
                return None;
            }
            return Some((labels, pos + skipped));
        }
        let bytes: &[u8] = vstd::slice::slice_subrange(query, pos + 1, pos + 1 + n);
        match text::from_utf8(bytes) {
            Some(label) => {
                labels.push(label.to_owned());
                proof {
                    let rest = name_at(query@, pos + 1 + n);
                    assert(text::texts(labels@) =~= before + seq![label@]);
                    if rest is Some {
                        assert(before + (seq![label@] + (rest->0).0) =~= text::texts(labels@)
                            + (rest->0).0);
                    }
                }
            },
            None => {
                return None;
            },
        }
        pos = pos + 1 + n;
    }
    assert(text::texts(labels@) + Seq::<Seq<char>>::empty() =~= text::texts(labels@));
    None
}

impl View for DnsServer {
    type V = Map<Seq<char>, Ipv4Addr>;

    closed spec fn view(&self) -> Map<Seq<char>, Ipv4Addr> {
        self.records@
    }
}

impl DnsServer {
    /// The resolver for names outside the network.
    pub closed spec fn forwards_to(self) -> Seq<char> {
        self.upstream@
    }

    /// A DNS server without records.
    pub fn bind(upstream: &str) -> (server: Self)
        ensures
            server@ == Map::<Seq<char>, Ipv4Addr>::empty(),
            server.forwards_to() == upstream@,
    {
        DnsServer { records: StringHashMap::new(), upstream: upstream.to_owned() }
    }

    /// The resolver for names outside the network.
    pub fn upstream(&self) -> (upstream: &str)
        ensures
            upstream@ == self.forwards_to(),
    {
        self.upstream.as_str()
    }

    /// Update the DNS records from the current peer list.
    pub fn update_records(&mut self, hosts: &[(String, Ipv4Addr)])
        ensures
            final(self)@ == table_of(lowered_hosts(hosts_view(hosts@))),
            final(self).forwards_to() == old(self).forwards_to(),
    {
        let mut lower: Vec<(String, Ipv4Addr)> = Vec::new();
        let mut i: usize = 0;
        while i < hosts.len()
            invariant
                i <= hosts@.len(),
                lower@.len() == i,
                forall|j: int|
                    0 <= j < i ==> (#[trigger] lower@[j]).0@ == text::lowercase(hosts@[j].0@)
                        && lower@[j].1 == hosts@[j].1,
            decreases hosts@.len() - i,
        {
            lower.push((text::to_lowercase(hosts[i].0.as_str()), hosts[i].1));
            i = i + 1;
        }
        assert(hosts_view(lower@) =~= lowered_hosts(hosts_view(hosts@)));
        self.set_records(lower);
    }

    /// Replaces all records; the names are taken as they are.
    pub fn set_records(&mut self, hosts: Vec<(String, Ipv4Addr)>)
        ensures
            final(self)@ == table_of(hosts_view(hosts@)),
            final(self).forwards_to() == old(self).forwards_to(),
    {
        self.records.clear();
        let ghost all = hosts_view(hosts@);
        assert(all.subrange(0, 0) =~= Seq::empty());
        let mut i: usize = 0;
        while i < hosts.len()
            invariant
                i <= hosts@.len(),
                all == hosts_view(hosts@),
                self@ == table_of(all.subrange(0, i as int)),
                self.forwards_to() == old(self).forwards_to(),
            decreases hosts@.len() - i,
        {
            let name: String = hosts[i].0.as_str().to_owned();
            self.records.insert(name, hosts[i].1);
            assert(all.subrange(0, i + 1).drop_last() =~= all.subrange(0, i as int));
            i = i + 1;
        }
        assert(all.subrange(0, i as int) =~= all);
    }

    /// Answer a query, if it asks for a name that there is a record of.
    pub fn handle_query(&self, query: &[u8]) -> (reply: Option<Vec<u8>>)
        ensures
            reply is Some <==> handled(self@, query@) is Some,
            reply matches Some(bytes) ==> handled(self@, query@) == Some(bytes@),
    {
        let (labels, end): (Vec<String>, usize) = match parse_question(query) {
            Some(q) => q,
            None => {
                return None;
            },
        };
        let ghost asked = text::texts(labels@);
        let mut lower: Vec<String> = Vec::new();
        let mut i: usize = 0;
        while i < labels.len()
            invariant
                i <= labels@.len(),
                lower@.len() == i,
                forall|j: int|
                    0 <= j < i ==> (#[trigger] lower@[j])@ == text::lowercase(labels@[j]@),
            decreases labels@.len() - i,
        {
            lower.push(text::to_lowercase(labels[i].as_str()));
            i = i + 1;
        }
        assert(text::texts(lower@) =~= lowered(asked));
        let name: String = join_labels(&lower);
        proof {
            lemma_name_end(query@, HEADER_LEN as int);
        }
        self.respond(query, name.as_str(), end)
    }

    /// The answer to a query for `name`, whose question name ends at `end`.
    pub fn respond(&self, query: &[u8], name: &str, end: usize) -> (reply: Option<Vec<u8>>)
        requires
            HEADER_LEN <= end <= query@.len() - 4,
        ensures
            reply is Some <==> response(self@, query@, name@, end as int) is Some,
            reply matches Some(bytes) ==> response(self@, query@, name@, end as int) == Some(
                bytes@,
            ),
    {
        let len: usize = query.len();
        assert(end + 4 <= len);
        let host: String = host_part(name);
        let ip: Ipv4Addr = match self.records.get(host.as_str()) {
            Some(ip) => *ip,
            None => {
                return None;
            },
        };
        let flags: [u8; 10] = [0x81, 0x80, 0, 1, 0, 1, 0, 0, 0, 0];
        let head: [u8; 12] = [0xC0, 0x0C, 0, 1, 0, 1, 0, 0, 0, 60, 0, 4];
        let octets: [u8; 4] = ip.octets();
        let mut reply: Vec<u8> = codec::copy_range(query, 0, 2);
        codec::append(&mut reply, flags.as_slice());
        codec::append(&mut reply, vstd::slice::slice_subrange(query, HEADER_LEN, end + 4));
        codec::append(&mut reply, head.as_slice());
        codec::append(&mut reply, octets.as_slice());
        assert(flags@ =~= answer_flags());
        assert(head@ =~= record_head());
        assert(reply@ =~= answer(query@, end as int, ip));
        Some(reply)
    }
}

/// A name ends no earlier than it begins.
proof fn lemma_name_end(query: Seq<u8>, pos: int)
    requires
        pos >= 0,
    ensures
        name_at(query, pos) matches Some((_, end)) ==> end >= pos,
    decreases query.len() - pos,
{
    if pos < query.len() && query[pos] != 0 && query[pos] < 0x40 && pos + 1 + query[pos]
        <= query.len() {
        lemma_name_end(query, pos + 1 + query[pos]);
    }
}

/// Labels as they stand in a message: each after its length, and a zero byte
/// at the end.
pub open spec fn encoded(labels: Seq<Seq<u8>>) -> Seq<u8>
    decreases labels.len(),
{
    if labels.len() == 0 {
        seq![0u8]
    } else {
        seq![labels[0].len() as u8] + labels[0] + encoded(labels.subrange(1, labels.len() as int))
    }
}

/// Whether each label can stand in a message.
pub open spec fn encodable(labels: Seq<Seq<u8>>) -> bool {
    forall|i: int|
        0 <= i < labels.len() ==> 1 <= (#[trigger] labels[i]).len() < 0x40
            && vstd::utf8::valid_utf8(labels[i])
}

/// The text of each label.
pub open spec fn decoded(labels: Seq<Seq<u8>>) -> Seq<Seq<char>> {
    Seq::new(labels.len(), |i: int| vstd::utf8::decode_utf8(labels[i]))
}

proof fn lemma_name_reads_back(before: Seq<u8>, labels: Seq<Seq<u8>>, after: Seq<u8>)
    requires
        encodable(labels),
    ensures
        name_at(before + encoded(labels) + after, before.len() as int) == Some(
            (decoded(labels), (before.len() + encoded(labels).len()) as int),
        ),
    decreases labels.len(),
{
    let whole = before + encoded(labels) + after;
    let pos = before.len() as int;
    if labels.len() == 0 {
        assert(whole[pos] == 0);
        assert(decoded(labels) =~= Seq::empty());
    } else {
        let first = labels[0];
        let rest = labels.subrange(1, labels.len() as int);
        let length = seq![first.len() as u8];
        assert(whole[pos] == first.len());
        assert forall|i: int| 0 <= i < rest.len() implies 1 <= (#[trigger] rest[i]).len() < 0x40
            && vstd::utf8::valid_utf8(rest[i]) by {
            assert(rest[i] == labels[i + 1]);
        }
        lemma_name_reads_back(before + length + first, rest, after);
        assert(before + length + first + encoded(rest) + after =~= whole);
        assert(whole.subrange(pos + 1, pos + 1 + first.len()) =~= first);
        assert(seq![vstd::utf8::decode_utf8(first)] + decoded(rest) =~= decoded(labels));
    }
}

/// A query for a name is read as asking for that name: a header that
/// announces a question, the name's labels, and the type and class after them.
pub proof fn law_question_reads_back(
    header: Seq<u8>,
    labels: Seq<Seq<u8>>,
    type_and_class: Seq<u8>,
)
    requires
        header.len() == HEADER_LEN,
        header[4] != 0 || header[5] != 0,
        encodable(labels),
        type_and_class.len() == 4,
    ensures
        question(query_of(header, labels, type_and_class)) == Some(
            (decoded(labels), (HEADER_LEN + encoded(labels).len()) as int),
        ),
{
    lemma_name_reads_back(header, labels, type_and_class);
}

/// A host is found under its bare name and under its name in the network's
/// domain alike.
pub proof fn law_domain_is_optional(host: Seq<char>)
    ensures
        host_of(host + suffix()) == host,
        host_of(host) == host || host == host_of(host) + suffix(),
{
    let name = host + suffix();
    assert(name.subrange(host.len() as int, name.len() as int) =~= suffix());
    assert(name.subrange(0, host.len() as int) =~= host);
    let at = host.len() - suffix().len();
    if at >= 0 && host.subrange(at, host.len() as int) == suffix() {
        assert(host =~= host.subrange(0, at) + suffix());
    }
}

/// Every answer carries the query's identifier and its question, and names one
/// address, which is that of the record.
pub proof fn law_answer_fits_the_query(
    records: Map<Seq<char>, Ipv4Addr>,
    query: Seq<u8>,
    reply: Seq<u8>,
)
    requires
        handled(records, query) == Some(reply),
    ensures
        question(query) is Some,
        ({
            let (labels, end) = question(query)->0;
            let host = host_of(joined(lowered(labels)));
            &&& records.contains_key(host)
            &&& reply.len() == end + 20
            &&& reply.subrange(0, 2) == query.subrange(0, 2)
            &&& reply.subrange(12, end + 4) == query.subrange(12, end + 4)
            &&& reply.subrange(end + 16, end + 20) == records[host]@
        }),
{
    let (labels, end) = question(query)->0;
    lemma_name_end(query, HEADER_LEN as int);
    let ip = records[host_of(joined(lowered(labels)))];
    assert(reply == answer(query, end, ip));
    codec::lemma_be_bytes_len(ip.bits as nat, 4);
    assert(reply.subrange(0, 2) =~= query.subrange(0, 2));
    assert(reply.subrange(12, end + 4) =~= query.subrange(12, end + 4));
    assert(reply.subrange(end + 16, end + 20) =~= ip@);
}

/// Whether a name is written in upper or lower case makes no difference.
pub proof fn law_case_makes_no_difference(
    records: Map<Seq<char>, Ipv4Addr>,
    a: Seq<u8>,
    b: Seq<u8>,
)
    requires
        question(a) is Some,
        question(b) is Some,
        lowered((question(a)->0).0) == lowered((question(b)->0).0),
    ensures
        handled(records, a) is Some <==> handled(records, b) is Some,
        handled(records, a) is Some ==> (handled(records, a)->0).subrange(
            (handled(records, a)->0).len() - 4,
            (handled(records, a)->0).len() as int,
        ) == (handled(records, b)->0).subrange(
            (handled(records, b)->0).len() - 4,
            (handled(records, b)->0).len() as int,
        ),
{
    if handled(records, a) is Some {
        law_answer_fits_the_query(records, a, handled(records, a)->0);
        law_answer_fits_the_query(records, b, handled(records, b)->0);
    }
}

/// A query for a name: a header that announces a question, the labels of the
/// name, and the type and class after them.
pub open spec fn query_of(
    header: Seq<u8>,
    labels: Seq<Seq<u8>>,
    type_and_class: Seq<u8>,
) -> Seq<u8> {
    header + encoded(labels) + type_and_class
}

/// Whether these are the parts of a query for an ASCII name, in any mix of
/// letter case.
pub open spec fn asks_for(
    header: Seq<u8>,
    labels: Seq<Seq<u8>>,
    type_and_class: Seq<u8>,
    name: Seq<char>,
) -> bool {
    let asked = joined(decoded(labels));
    &&& header.len() == HEADER_LEN
    &&& header[4] != 0 || header[5] != 0
    &&& encodable(labels)
    &&& type_and_class.len() == 4
    &&& text::is_ascii(asked)
    &&& text::ascii_lowered(asked) == text::ascii_lowered(name)
}

/// The last four bytes of an answer.
pub open spec fn answered_address(reply: Seq<u8>) -> Seq<u8> {
    reply.subrange(reply.len() - 4, reply.len() as int)
}

proof fn lemma_lowered_name(labels: Seq<Seq<char>>)
    requires
        text::is_ascii(joined(labels)),
    ensures
        joined(lowered(labels)) == text::ascii_lowered(joined(labels)),
    decreases labels.len(),
{
    let name = joined(labels);
    let lower = lowered(labels);
    if labels.len() == 0 {
        assert(joined(lower) =~= text::ascii_lowered(name));
    } else if labels.len() == 1 {
        assert(joined(lower) =~= text::ascii_lowered(name));
    } else {
        let front = labels.drop_last();
        let head = joined(front);
        let last = labels.last();
        assert(name == head.push('.') + last);
        assert forall|i: int| 0 <= i < head.len() implies #[trigger] head[i] < '\u{80}' by {
            assert(name[i] == head[i]);
        }
        assert forall|i: int| 0 <= i < last.len() implies #[trigger] last[i] < '\u{80}' by {
            assert(name[head.len() + 1 + i] == last[i]);
        }
        lemma_lowered_name(front);
        assert(lower.drop_last() =~= lowered(front));
        assert(lower.last() == text::ascii_lowered(last));
        assert(joined(lower) =~= text::ascii_lowered(name));
    }
}

proof fn lemma_answer_to(
    hosts: Seq<(Seq<char>, Ipv4Addr)>,
    header: Seq<u8>,
    labels: Seq<Seq<u8>>,
    type_and_class: Seq<u8>,
    name: Seq<char>,
    host: Seq<char>,
)
    requires
        asks_for(header, labels, type_and_class, name),
        host_of(text::ascii_lowered(name)) == host,
    ensures
        ({
            let records = table_of(lowered_hosts(hosts));
            let reply = handled(records, query_of(header, labels, type_and_class));
            &&& reply is Some <==> records.contains_key(host)
            &&& reply is Some ==> answered_address(reply->0) == records[host]@
        }),
{
    let records = table_of(lowered_hosts(hosts));
    let query = query_of(header, labels, type_and_class);
    law_question_reads_back(header, labels, type_and_class);
    lemma_lowered_name(decoded(labels));
    if handled(records, query) is Some {
        law_answer_fits_the_query(records, query, handled(records, query)->0);
    }
}

/// A bare name and the name in the network's domain, each in any mix of letter
/// case, are answered alike: with the address of the host in the list that has
/// that name, whatever its case, and with nothing if there is none.
pub proof fn law_bare_and_full_name_are_answered_alike(
    hosts: Seq<(Seq<char>, Ipv4Addr)>,
    name: Seq<char>,
    header: Seq<u8>,
    labels: Seq<Seq<u8>>,
    type_and_class: Seq<u8>,
    other_header: Seq<u8>,
    other_labels: Seq<Seq<u8>>,
    other_type_and_class: Seq<u8>,
)
    requires
        host_of(text::ascii_lowered(name)) == text::ascii_lowered(name),
        forall|i: int, j: int|
            0 <= i < j < hosts.len() ==> text::lowercase((#[trigger] hosts[i]).0)
                != text::lowercase((#[trigger] hosts[j]).0),
        asks_for(header, labels, type_and_class, name),
        asks_for(other_header, other_labels, other_type_and_class, name + suffix()),
    ensures
        ({
            let records = table_of(lowered_hosts(hosts));
            let reply = handled(records, query_of(header, labels, type_and_class));
            let other_reply = handled(
                records,
                query_of(other_header, other_labels, other_type_and_class),
            );
            &&& reply is Some <==> other_reply is Some
            &&& reply is Some <==> exists|i: int|
                0 <= i < hosts.len() && text::lowercase((#[trigger] hosts[i]).0)
                    == text::ascii_lowered(name)
            &&& forall|i: int|
                0 <= i < hosts.len() && text::lowercase((#[trigger] hosts[i]).0)
                    == text::ascii_lowered(name) ==> answered_address(reply->0) == hosts[i].1@
                    && answered_address(other_reply->0) == hosts[i].1@
        }),
{
    let host = text::ascii_lowered(name);
    let lower = lowered_hosts(hosts);
    reveal_strlit(".connectalso");
    assert(text::ascii_lowered(name + suffix()) =~= host + suffix());
    law_domain_is_optional(host);
    lemma_answer_to(hosts, header, labels, type_and_class, name, host);
    lemma_answer_to(
        hosts,
        other_header,
        other_labels,
        other_type_and_class,
        name + suffix(),
        host,
    );
    if exists|i: int| 0 <= i < hosts.len() && text::lowercase((#[trigger] hosts[i]).0) == host {
        assert forall|i: int|
            0 <= i < hosts.len() && text::lowercase((#[trigger] hosts[i]).0)
                == host implies table_of(lower).contains_key(host) && table_of(lower)[host]
            == hosts[i].1 by {
            assert forall|j: int| i < j < lower.len() implies (#[trigger] lower[j]).0
                != lower[i].0 by {
                assert(text::lowercase(hosts[i].0) != text::lowercase(hosts[j].0));
            }
            law_listed_host_is_found(lower, i);
        }
    } else {
        assert forall|j: int| 0 <= j < lower.len() implies (#[trigger] lower[j]).0 != host by {
            assert(text::lowercase(hosts[j].0) != host);
        }
        law_only_listed_hosts_are_found(lower, host);
    }
}

/// A host of the list is found under its name in lowercase, with the address
/// of the last entry of that name.
pub proof fn law_listed_host_is_found(hosts: Seq<(Seq<char>, Ipv4Addr)>, i: int)
    requires
        0 <= i < hosts.len(),
        forall|j: int| i < j < hosts.len() ==> (#[trigger] hosts[j]).0 != hosts[i].0,
    ensures
        table_of(hosts).contains_key(hosts[i].0),
        table_of(hosts)[hosts[i].0] == hosts[i].1,
    decreases hosts.len(),
{
    let front = hosts.drop_last();
    if i < hosts.len() - 1 {
        assert(front[i] == hosts[i]);
        assert(hosts[hosts.len() - 1].0 != hosts[i].0);
        law_listed_host_is_found(front, i);
    }
}

/// Nothing else is found.
pub proof fn law_only_listed_hosts_are_found(hosts: Seq<(Seq<char>, Ipv4Addr)>, name: Seq<char>)
    requires
        forall|j: int| 0 <= j < hosts.len() ==> (#[trigger] hosts[j]).0 != name,
    ensures
        !table_of(hosts).contains_key(name),
    decreases hosts.len(),
{
    if hosts.len() > 0 {
        assert(hosts[hosts.len() - 1].0 != name);
        let front = hosts.drop_last();
        assert forall|j: int| 0 <= j < front.len() implies (#[trigger] front[j]).0 != name by {
            assert(front[j] == hosts[j]);
        }
        law_only_listed_hosts_are_found(front, name);
    }
}

/// A query is not understood if it has no whole header, if it announces no
/// question, or if less than four bytes follow the name.
pub proof fn law_what_is_no_question(query: Seq<u8>)
    ensures
        query.len() < 12 ==> question(query) is None,
        query.len() >= 12 && query[4] == 0 && query[5] == 0 ==> question(query) is None,
        question(query) matches Some((_, end)) ==> end + 4 <= query.len(),
        query.len() >= 12 && (query[4] != 0 || query[5] != 0) ==> (name_at(query, 12) matches Some(
            (labels, end),
        ) ==> (question(query) is Some <==> end + 4 <= query.len())),
{
}

/// A name goes on with a label of at most 63 bytes and with what follows it,
/// unless the label is not UTF-8: then there is no name.
pub proof fn law_how_a_name_goes_on(query: Seq<u8>, pos: int)
    requires
        0 <= pos < query.len(),
        1 <= query[pos] < 64,
        pos + 1 + query[pos] <= query.len(),
    ensures
        ({
            let next = pos + 1 + query[pos];
            let label = query.subrange(pos + 1, next);
            &&& !vstd::utf8::valid_utf8(label) ==> name_at(query, pos) is None
            &&& name_at(query, next) is None ==> name_at(query, pos) is None
            &&& vstd::utf8::valid_utf8(label) && name_at(query, next) is Some ==> {
                let (rest, end) = name_at(query, next)->0;
                name_at(query, pos) == Some((seq![vstd::utf8::decode_utf8(label)] + rest, end))
            }
        }),
{
}

/// A name ends at a zero byte, at a compression pointer, which takes two bytes and
/// is not followed, at a label that does not fit into the message, and at the end
/// of the message.
pub proof fn law_where_a_name_ends(query: Seq<u8>, pos: int)
    requires
        0 <= pos,
    ensures
        pos >= query.len() ==> name_at(query, pos) == Some((Seq::<Seq<char>>::empty(), pos)),
        pos < query.len() && query[pos] == 0 ==> name_at(query, pos) == Some(
            (Seq::<Seq<char>>::empty(), pos + 1),
        ),
        pos < query.len() && query[pos] >= 64 ==> name_at(query, pos) == Some(
            (Seq::<Seq<char>>::empty(), pos + 2),
        ),
        pos < query.len() && 1 <= query[pos] < 64 && pos + 1 + query[pos] > query.len() ==> name_at(
            query,
            pos,
        ) == Some((Seq::<Seq<char>>::empty(), pos + 1)),
{
}

/// The answer, byte by byte: the identifier of the query, the flags of a response
/// without error, one question and one answer; the question as it was asked; and
/// an A record for the name at byte twelve, good for sixty seconds, with the
/// address.
pub proof fn law_answer_bytes(query: Seq<u8>, end: int, ip: Ipv4Addr)
    requires
        12 <= end,
        end + 4 <= query.len(),
    ensures
        ({
            let a = answer(query, end, ip);
            let r = end + 4;
            &&& a.len() == end + 20
            &&& a[0] == query[0] && a[1] == query[1]
            &&& a[2] == 0x81 && a[3] == 0x80
            &&& a[4] == 0 && a[5] == 1
            &&& a[6] == 0 && a[7] == 1
            &&& a[8] == 0 && a[9] == 0 && a[10] == 0 && a[11] == 0
            &&& forall|i: int| 12 <= i < end + 4 ==> #[trigger] a[i] == query[i]
            &&& a[r] == 0xC0 && a[r + 1] == 12
            &&& a[r + 2] == 0 && a[r + 3] == 1
            &&& a[r + 4] == 0 && a[r + 5] == 1
            &&& a[r + 6] == 0 && a[r + 7] == 0 && a[r + 8] == 0 && a[r + 9] == 60
            &&& a[r + 10] == 0 && a[r + 11] == 4
            &&& a[r + 12] * 0x100_0000 + a[r + 13] * 0x1_0000 + a[r + 14] * 0x100 + a[r + 15]
                == ip.bits
        }),
{
    let a = answer(query, end, ip);
    let r = end + 4;
    codec::lemma_be_bytes_len(ip.bits as nat, 4);
    codec::lemma_pow256_values();
    codec::lemma_be_value_of_bytes(ip.bits as nat, 4);
    codec::lemma_be_value_4(ip@);
    assert(a[r + 12] == ip@[0] && a[r + 13] == ip@[1] && a[r + 14] == ip@[2] && a[r + 15]
        == ip@[3]);
    assert forall|i: int| 12 <= i < end + 4 implies #[trigger] a[i] == query[i] by {
        assert(a[i] == query.subrange(12, end + 4)[i - 12]);
    }
}

/// Labels are joined by single dots: a name that is made of two parts is the one
/// part, a dot and the other.
pub proof fn law_labels_are_joined_by_dots(a: Seq<Seq<char>>, b: Seq<Seq<char>>)
    requires
        a.len() > 0,
        b.len() > 0,
    ensures
        joined(a + b) == joined(a) + seq!['.'] + joined(b),
        joined(seq![a[0]]) == a[0],
        joined(Seq::empty()) == Seq::<char>::empty(),
    decreases b.len(),
{
    let all = a + b;
    assert(all.last() == b.last());
    assert(all.drop_last() =~= a + b.drop_last());
    if b.len() == 1 {
        assert(a + b.drop_last() =~= a);
        assert(joined(all) =~= joined(a) + seq!['.'] + joined(b));
    } else {
        law_labels_are_joined_by_dots(a, b.drop_last());
        assert(joined(all) =~= joined(a) + seq!['.'] + joined(b));
    }
}

/// The domain of the network is the word connectalso behind a dot, and is taken
/// off where it stands at the end of a name.
pub proof fn law_domain_is_taken_off(name: Seq<char>)
    ensures
        suffix() == seq!['.', 'c', 'o', 'n', 'n', 'e', 'c', 't', 'a', 'l', 's', 'o'],
        host_of(name) == name || name.len() == host_of(name).len() + 12,
        forall|i: int| 0 <= i < host_of(name).len() ==> #[trigger] host_of(name)[i] == name[i],
{
    reveal_strlit(".connectalso");
    assert(suffix() =~= seq!['.', 'c', 'o', 'n', 'n', 'e', 'c', 't', 'a', 'l', 's', 'o']);
}

} // verus!
