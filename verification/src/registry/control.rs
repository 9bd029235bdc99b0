//! The requests that the control service answers.

use vstd::prelude::*;

use crate::addr;
use crate::addr::Ipv4Addr;
use crate::registry::device::{DeviceRecord, DeviceStatus, Record};
use crate::registry::laws;
use crate::registry::order;
use crate::registry::pool;
use crate::registry::tables;
use crate::registry::tables::{Registry, Tables};
use crate::relay_proto;
use crate::relay_proto::PeerId;
use crate::text;

verus! {

/// Why a network range was refused.
#[derive(Debug, Clone, Copy, PartialEq, Eq, Structural)]
pub enum CidrError {
    /// Not an address and a prefix length with one slash between them.
    Format,
    /// The address cannot be read.
    Address,
    /// The prefix length cannot be read.
    Prefix,
    /// The prefix length is more than 32.
    PrefixTooLong,
}

/// Whether there is exactly one slash, at `at`.
pub open spec fn one_slash(s: Seq<char>, at: int) -> bool {
    &&& 0 <= at < s.len()
    &&& s[at] == '/'
    &&& forall|i: int| 0 <= i < s.len() && i != at ==> #[trigger] s[i] != '/'
}

/// The number that a text spells, if it is at most 255: digits, maybe with a
/// plus sign before them and with leading zeros.
pub open spec fn byte_of(s: Seq<char>) -> Option<int> {
    let digits = if s.len() > 0 && s[0] == '+' {
        s.subrange(1, s.len() as int)
    } else {
        s
    };
    if digits.len() > 0 && text::all_digits(digits) && text::digits_value(digits) <= 255 {
        Some(text::digits_value(digits) as int)
    } else {
        None
    }
}

/// The address and the prefix length of a network range.
pub open spec fn cidr_of(s: Seq<char>) -> Result<(Ipv4Addr, u8), CidrError> {
    if !exists|at: int| one_slash(s, at) {
        Err(CidrError::Format)
    } else {
        let at = choose|at: int| one_slash(s, at);
        match Ipv4Addr::parsed(s.subrange(0, at)) {
            None => Err(CidrError::Address),
            Some(ip) => match byte_of(s.subrange(at + 1, s.len() as int)) {
                None => Err(CidrError::Prefix),
                Some(prefix) => if prefix > 32 {
                    Err(CidrError::PrefixTooLong)
                } else {
                    Ok((ip, prefix as u8))
                },
            },
        }
    }
}

/// The number that a text spells, if it is at most 255.
fn parse_byte(s: &Vec<char>, from: usize) -> (n: Option<u8>)
    requires
        from <= s@.len(),
    ensures
        n is Some <==> byte_of(s@.subrange(from as int, s@.len() as int)) is Some,
        n matches Some(v) ==> byte_of(s@.subrange(from as int, s@.len() as int)) == Some(v as int),
{
    let ghost part = s@.subrange(from as int, s@.len() as int);
    let start: usize = if from < s.len() && s[from] == '+' {
        from + 1
    } else {
        from
    };
    let ghost digits = s@.subrange(start as int, s@.len() as int);
    assert(start == from + 1 ==> part.subrange(1, part.len() as int) =~= digits);
    assert(from < s@.len() ==> part[0] == s@[from as int]);
    if start == s.len() {
        return None;
    }
    let end: usize = text::find_digits_end(s, start);
    if end < s.len() {
        proof {
            if text::all_digits(digits) {
                assert forall|j: int| start <= j < s@.len() implies text::is_digit(
                    #[trigger] s@[j],
                ) by {
                    assert(s@[j] == digits[j - start]);
                }
                text::lemma_digits_end_is(s@, start as int, s@.len() as int);
            }
        }
        return None;
    }
    proof {
        text::lemma_digits_end(s@, start as int);
    }
    match text::digits_at_most(s, start, end, 255) {
        Some(v) => Some(v as u8),
        None => None,
    }
}

/// Reads a network range: an address and a prefix length.
pub fn cidr_parts(cidr: &str) -> (r: Result<(Ipv4Addr, u8), CidrError>)
    ensures
        r == cidr_of(cidr@),
{
    let chars: Vec<char> = text::chars_of(cidr);
    let mut slash: Option<usize> = None;
    let mut i: usize = 0;
    while i < chars.len()
        invariant
            i <= chars@.len(),
            slash is None ==> forall|j: int| 0 <= j < i ==> #[trigger] chars@[j] != '/',
            slash matches Some(at) ==> at < i && chars@[at as int] == '/' && forall|j: int|
                0 <= j < i && j != at ==> #[trigger] chars@[j] != '/',
            chars@ == cidr@,
        decreases chars@.len() - i,
    {
        if chars[i] == '/' {
            if let Some(at) = slash {
                assert forall|k: int| !one_slash(cidr@, k) by {
                    if one_slash(cidr@, k) {
                        assert(cidr@[at as int] == '/');
                        assert(cidr@[i as int] == '/');
                    }
                }
                return Err(CidrError::Format);
            }
            slash = Some(i);
        }
        i = i + 1;
    }
    let at: usize = match slash {
        Some(at) => at,
        None => {
            assert forall|k: int| !one_slash(cidr@, k) by {
                if one_slash(cidr@, k) {
                    assert(chars@[k] == '/');
                }
            }
            return Err(CidrError::Format);
        },
    };
    proof {
        assert(one_slash(cidr@, at as int));
        let k = choose|k: int| one_slash(cidr@, k);
        assert(k == at) by {
            if k != at {
                assert(cidr@[k] == '/');
            }
        }
    }
    let ip: Ipv4Addr = match Ipv4Addr::parse(cidr.substring_char(0, at)) {
        Some(ip) => ip,
        None => {
            return Err(CidrError::Address);
        },
    };
    match parse_byte(&chars, at + 1) {
        None => Err(CidrError::Prefix),
        Some(prefix) => {
            if prefix > 32 {
                Err(CidrError::PrefixTooLong)
            } else {
                Ok((ip, prefix))
            }
        },
    }
}

/// The first address of a network range and its largest offset. A prefix
/// length of zero is not a range that addresses can be counted in.
pub fn parse_cidr(cidr: &str) -> (r: Result<(u32, u32), CidrError>)
    requires
        cidr_of(cidr@) matches Ok((_, prefix)) ==> prefix >= 1,
    ensures
        match cidr_of(cidr@) {
            Ok((ip, prefix)) => r == Ok::<(u32, u32), CidrError>(
                (
                    ip.bits,
                    (vstd::arithmetic::power2::pow2((32 - prefix) as nat) - 1) as u32,
                ),
            ),
            Err(e) => r == Err::<(u32, u32), CidrError>(e),
        },
{
    match cidr_parts(cidr) {
        Ok((ip, prefix)) => {
            let mut size: u64 = 1;
            let mut bits: u8 = 0;
            proof {
                vstd::arithmetic::power2::lemma2_to64();
            }
            while bits < 32 - prefix
                invariant
                    1 <= prefix <= 32,
                    bits <= 32 - prefix,
                    size == vstd::arithmetic::power2::pow2(bits as nat),
                    1 <= size <= 0x8000_0000,
                decreases 32 - prefix - bits,
            {
                proof {
                    vstd::arithmetic::power2::lemma2_to64();
                    vstd::arithmetic::power2::lemma_pow2_unfold((bits + 1) as nat);
                    if bits + 1 < 31 {
                        vstd::arithmetic::power2::lemma_pow2_strictly_increases(
                            (bits + 1) as nat,
                            31,
                        );
                    }
                }
                size = size * 2;
                bits = bits + 1;
            }
            Ok((ip.bits, (size - 1) as u32))
        },
        Err(e) => Err(e),
    }
}

/// What a device is told when it registers.
#[derive(Debug, Clone)]
pub struct Registration {
    pub device_id: PeerId,
    pub ipv4: String,
    pub network: String,
}

/// Why a device could not be registered.
#[derive(Debug, Clone, Copy, PartialEq, Eq, Structural)]
pub enum RegisterError {
    /// All addresses of the network are in use.
    PoolFull,
    /// The device clashes with one that is registered.
    Duplicate,
}

/// Whether a device with that public key is registered.
pub open spec fn is_known(t: Tables, public_key: Seq<u8>) -> bool {
    exists|i: int| 0 <= i < t.devices.len() && (#[trigger] t.devices[i]).public_key == public_key
}

/// The record of a device that registers now: it is still to be approved.
pub open spec fn newcomer(
    device_id: PeerId,
    public_key: Seq<u8>,
    hostname: Seq<char>,
    ipv4: Ipv4Addr,
    now: i64,
) -> Record {
    Record {
        device_id,
        public_key,
        hostname,
        ipv4,
        status: DeviceStatus::Pending,
        created_at: now,
        last_seen: now,
    }
}

/// Whether `r` is what a device is told that registers under `device_id`, and
/// `after` is what becomes of the registry.
pub open spec fn registered(
    t: Tables,
    device_id: PeerId,
    public_key: Seq<u8>,
    hostname: Seq<char>,
    now: i64,
    ip_base: u32,
    ip_max_offset: u32,
    network_cidr: Seq<char>,
    r: Result<Registration, RegisterError>,
    after: Tables,
) -> bool {
    let pool_after = pool::after_allocation(t.pool, ip_base, ip_max_offset);
    if is_known(t, public_key) {
        &&& after == t
        &&& r matches Ok(reg) && reg.network@ == network_cidr && exists|i: int|
            0 <= i < t.devices.len() && (#[trigger] t.devices[i]).public_key == public_key
                && reg.device_id == t.devices[i].record().device_id && reg.ipv4@
                == t.devices[i].record().ipv4.text()
    } else {
        match pool::allocation(t.pool, ip_base, ip_max_offset) {
            None => {
                &&& r matches Err(e) && e is PoolFull
                &&& after == Tables { pool: pool_after, ..t }
            },
            Some(ip) => {
                let row = newcomer(device_id, public_key, hostname, ip, now).row();
                if tables::clashes(t.devices, row) {
                    &&& r matches Err(e) && e is Duplicate
                    &&& after == Tables { pool: pool_after, ..t }
                } else {
                    &&& after == Tables {
                        pool: pool_after,
                        devices: t.devices.push(row),
                        ..t
                    }
                    &&& r matches Ok(reg) && reg.device_id == device_id && reg.ipv4@ == ip.text()
                        && reg.network@ == network_cidr
                    &&& row.record() == newcomer(device_id, public_key, hostname, ip, now)
                }
            },
        }
    }
}

/// What a peer is told of another.
#[derive(Debug, Clone)]
pub struct PeerInfo {
    pub device_id: PeerId,
    pub ipv4: String,
    pub public_key: [u8; 32],
    pub hostname: String,
    pub last_seen_secs: i64,
}

/// The contents of what a peer is told of another.
#[verifier::ext_equal]
pub struct Peer {
    pub device_id: PeerId,
    pub ipv4: Seq<char>,
    pub public_key: Seq<u8>,
    pub hostname: Seq<char>,
    pub last_seen_secs: i64,
}

impl View for PeerInfo {
    type V = Peer;

    open spec fn view(&self) -> Peer {
        Peer {
            device_id: self.device_id,
            ipv4: self.ipv4@,
            public_key: self.public_key@,
            hostname: self.hostname@,
            last_seen_secs: self.last_seen_secs,
        }
    }
}

/// The time that has passed between two times, as far as it can be counted.
pub open spec fn elapsed(now: i64, since: i64) -> i64 {
    if now - since > i64::MAX {
        i64::MAX
    } else if now - since < i64::MIN {
        i64::MIN
    } else {
        (now - since) as i64
    }
}

/// What is told of a device.
pub open spec fn peer_of(record: Record, now: i64) -> Peer {
    Peer {
        device_id: record.device_id,
        ipv4: record.ipv4.text(),
        public_key: record.public_key,
        hostname: record.hostname,
        last_seen_secs: elapsed(now, record.last_seen),
    }
}

/// What is told of each device.
pub open spec fn peers_of(t: Tables, now: i64) -> Seq<Peer> {
    Seq::new(t.devices.len(), |i: int| peer_of(t.devices[i].record(), now))
}

/// How the addresses of the network are used.
#[derive(Debug, Clone)]
pub struct Allocations {
    pub total: u64,
    pub used: u64,
    pub free: u64,
    pub network: String,
}

fn elapsed_secs(now: i64, since: i64) -> (secs: i64)
    ensures
        secs == elapsed(now, since),
{
    let wide: i128 = now as i128 - since as i128;
    if wide > i64::MAX as i128 {
        i64::MAX
    } else if wide < i64::MIN as i128 {
        i64::MIN
    } else {
        wide as i64
    }
}

impl Registry {
    /// Register a device under the given new identifier.
    ///
    /// A device whose public key is registered keeps what it has. Any other
    /// gets an address, and waits for approval. An address that was taken for
    /// a device that then turns out to clash stays taken.
    pub fn register_as(
        &mut self,
        device_id: PeerId,
        public_key: [u8; 32],
        hostname: String,
        now: i64,
        ip_base: u32,
        ip_max_offset: u32,
        network_cidr: &str,
    ) -> (r: Result<Registration, RegisterError>)
        requires
            old(self)@.wf(),
            is_known(old(self)@, public_key@) || pool::in_range(
                old(self)@.pool,
                ip_base,
                ip_max_offset,
            ),
        ensures
            final(self)@.wf(),
            r is Ok ==> is_known(final(self)@, public_key@),
            registered(
                old(self)@,
                device_id,
                public_key@,
                hostname@,
                now,
                ip_base,
                ip_max_offset,
                network_cidr@,
                r,
                final(self)@,
            ),
    {
        if let Some(existing) = self.find_by_public_key(&public_key) {
            return Ok(
                Registration {
                    device_id: existing.device_id,
                    ipv4: existing.ipv4.to_string(),
                    network: network_cidr.to_owned(),
                },
            );
        }
        proof {
            pool::law_allocated_is_taken(self@.pool, ip_base, ip_max_offset);
        }
        let ip: Ipv4Addr = match self.pool.allocate_ip(ip_base, ip_max_offset) {
            Some(ip) => ip,
            None => {
                return Err(RegisterError::PoolFull);
            },
        };
        let ghost before = self@;
        let record = DeviceRecord {
            device_id,
            public_key,
            hostname,
            ipv4: ip,
            status: DeviceStatus::Pending,
            created_at: now,
            last_seen: now,
        };
        match self.insert_device(&record) {
            Ok(()) => {
                proof {
                    laws::law_insert_keeps_consistency(
                        before.devices,
                        record@.row(),
                    );
                    assert(self@.devices[before.devices.len() as int].public_key == public_key@);
                }
                Ok(
                    Registration {
                        device_id,
                        ipv4: ip.to_string(),
                        network: network_cidr.to_owned(),
                    },
                )
            },
            Err(_) => Err(RegisterError::Duplicate),
        }
    }

    /// Answer a registration request, with a new random identifier for a
    /// device that is not registered.
    pub fn handle_register(
        &mut self,
        public_key: [u8; 32],
        hostname: String,
        now: i64,
        ip_base: u32,
        ip_max_offset: u32,
        network_cidr: &str,
    ) -> (r: Result<Registration, RegisterError>)
        requires
            old(self)@.wf(),
            is_known(old(self)@, public_key@) || pool::in_range(
                old(self)@.pool,
                ip_base,
                ip_max_offset,
            ),
        ensures
            final(self)@.wf(),
            r is Ok ==> is_known(final(self)@, public_key@),
            exists|device_id: PeerId|
                relay_proto::is_version_4(device_id.bits) && #[trigger] registered(
                    old(self)@,
                    device_id,
                    public_key@,
                    hostname@,
                    now,
                    ip_base,
                    ip_max_offset,
                    network_cidr@,
                    r,
                    final(self)@,
                ),
    {
        let device_id: PeerId = PeerId::new_v4();
        self.register_as(
            device_id,
            public_key,
            hostname,
            now,
            ip_base,
            ip_max_offset,
            network_cidr,
        )
    }

    /// Answer a request for the peers of the network: the approved devices,
    /// oldest registration first.
    pub fn handle_peers(&self, now: i64) -> (peers: Vec<PeerInfo>)
        requires
            self@.wf(),
        ensures
            order::listing(
                peers_of(self@, now),
                tables::by_age(self@.devices, Some(1)),
                crate::registry::rows::contents(peers@),
            ),
    {
        let devices: Vec<DeviceRecord> = self.list_approved();
        let ghost keys = tables::by_age(self@.devices, Some(1));
        let ghost listed = crate::registry::rows::contents(devices@);
        let ghost places = choose|places: Seq<usize>|
            #[trigger] order::lists(tables::records(self@.devices), keys, places, listed);
        assert(order::listing(tables::records(self@.devices), keys, listed));
        assert(order::lists(tables::records(self@.devices), keys, places, listed));
        let mut peers: Vec<PeerInfo> = Vec::new();
        let mut i: usize = 0;
        while i < devices.len()
            invariant
                i <= devices@.len(),
                peers@.len() == i,
                keys == tables::by_age(self@.devices, Some(1)),
                listed == crate::registry::rows::contents(devices@),
                order::lists(tables::records(self@.devices), keys, places, listed),
                forall|j: int|
                    0 <= j < i ==> (#[trigger] peers@[j])@ == peer_of(devices@[j]@, now),
            decreases devices@.len() - i,
        {
            let d: &DeviceRecord = &devices[i];
            peers.push(
                PeerInfo {
                    device_id: d.device_id,
                    ipv4: d.ipv4.to_string(),
                    public_key: d.public_key,
                    hostname: d.hostname.clone(),
                    last_seen_secs: elapsed_secs(now, d.last_seen),
                },
            );
            i = i + 1;
        }
        proof {
            let out = crate::registry::rows::contents(peers@);
            let list = Seq::new(
                places.len(),
                |i: int| tables::records(self@.devices)[places[i] as int],
            );
            assert(listed == list);
            assert(out.len() == listed.len() == places.len());
            assert forall|k: int| 0 <= k < out.len() implies #[trigger] out[k] == peers_of(
                self@,
                now,
            )[places[k] as int] by {
                assert(listed[k] == devices@[k]@);
                assert(places[k] < keys.len());
            }
            assert(out =~= Seq::new(places.len(), |i: int| peers_of(self@, now)[places[i] as int]));
            assert(order::lists(peers_of(self@, now), keys, places, out));
        }
        peers
    }

    /// Answer a request for the use of the addresses of the network: how many
    /// there are, how many are in use, and how many are left.
    pub fn handle_allocations(&self, ip_max_offset: u32, network_cidr: &str) -> (a: Allocations)
        ensures
            a.total == ip_max_offset + 1,
            a.used == self@.pool.filter(pool::in_use()).len(),
            a.free == if a.used <= a.total {
                a.total - a.used
            } else {
                0
            },
            a.network@ == network_cidr@,
    {
        let total: u64 = ip_max_offset as u64 + 1;
        let used: u64 = self.pool.allocated_count();
        Allocations { total, used, free: total.saturating_sub(used), network: network_cidr.to_owned() }
    }
}

/// The path of the backup of a database file.
pub fn backup_path(db_path: &str) -> (path: String)
    ensures
        path@ == db_path@ + ".backup"@,
{
    let mut path: String = db_path.to_owned();
    path.append(".backup");
    path
}

/// A device that registers again, under whatever name, is told the identifier
/// and the address that it was told first, and nothing changes.
pub proof fn law_registering_again_changes_nothing(
    t: Tables,
    device_id: PeerId,
    public_key: Seq<u8>,
    hostname: Seq<char>,
    now: i64,
    ip_base: u32,
    ip_max_offset: u32,
    network_cidr: Seq<char>,
    first: Result<Registration, RegisterError>,
    after: Tables,
    other_id: PeerId,
    other_name: Seq<char>,
    later: i64,
    second: Result<Registration, RegisterError>,
    after_second: Tables,
)
    requires
        t.wf(),
        registered(
            t,
            device_id,
            public_key,
            hostname,
            now,
            ip_base,
            ip_max_offset,
            network_cidr,
            first,
            after,
        ),
        first is Ok,
        registered(
            after,
            other_id,
            public_key,
            other_name,
            later,
            ip_base,
            ip_max_offset,
            network_cidr,
            second,
            after_second,
        ),
    ensures
        after_second == after,
        second is Ok,
        second->Ok_0.device_id == first->Ok_0.device_id,
        second->Ok_0.ipv4@ == first->Ok_0.ipv4@,
        second->Ok_0.network@ == first->Ok_0.network@,
{
    if is_known(t, public_key) {
        let i = choose|i: int|
            0 <= i < t.devices.len() && (#[trigger] t.devices[i]).public_key == public_key
                && first->Ok_0.device_id == t.devices[i].record().device_id && first->Ok_0.ipv4@
                == t.devices[i].record().ipv4.text();
        let j = choose|j: int|
            0 <= j < t.devices.len() && (#[trigger] t.devices[j]).public_key == public_key
                && second->Ok_0.device_id == t.devices[j].record().device_id
                && second->Ok_0.ipv4@ == t.devices[j].record().ipv4.text();
        if i < j {
            assert(!tables::clash(t.devices[i], t.devices[j]));
        } else if j < i {
            assert(!tables::clash(t.devices[j], t.devices[i]));
        }
    } else {
        let last = t.devices.len() as int;
        assert(after.devices[last].public_key == public_key);
        assert(is_known(after, public_key));
        assert forall|j: int|
            0 <= j < after.devices.len() && (#[trigger] after.devices[j]).public_key
                == public_key implies j == last by {
            if j < last {
                assert(t.devices[j] == after.devices[j]);
            }
        }
    }
}

/// As long as the addresses of the devices are taken in the pool, they stay so
/// when a device registers, and a device with a new identifier is turned away
/// only when there is no address left.
pub proof fn law_newcomer_gets_an_address_of_its_own(
    t: Tables,
    device_id: PeerId,
    public_key: Seq<u8>,
    hostname: Seq<char>,
    now: i64,
    ip_base: u32,
    ip_max_offset: u32,
    network_cidr: Seq<char>,
    r: Result<Registration, RegisterError>,
    after: Tables,
)
    requires
        t.wf(),
        tables::pooled(t),
        registered(
            t,
            device_id,
            public_key,
            hostname,
            now,
            ip_base,
            ip_max_offset,
            network_cidr,
            r,
            after,
        ),
    ensures
        tables::pooled(after),
        !tables::has_id(t.devices, device_id.text()) ==> r is Ok || is_known(t, public_key)
            || pool::allocation(t.pool, ip_base, ip_max_offset) is None,
{
    if !is_known(t, public_key) {
        pool::law_allocated_is_taken(t.pool, ip_base, ip_max_offset);
        assert forall|i: int|
            0 <= i < t.devices.len() && (#[trigger] t.devices[i]).ipv4.len()
                > 0 implies pool::is_taken(after.pool, t.devices[i].ipv4) by {
            pool::lemma_taken_stays_taken(
                t.pool,
                ip_base,
                ip_max_offset,
                t.devices[i].ipv4,
            );
        }
        if let Some(ip) = pool::allocation(t.pool, ip_base, ip_max_offset) {
            let row = newcomer(device_id, public_key, hostname, ip, now).row();
            if tables::clashes(t.devices, row) {
                let i = choose|i: int|
                    0 <= i < t.devices.len() && tables::clash(#[trigger] t.devices[i], row);
                laws::law_new_address_is_nobodys(t, ip_base, ip_max_offset, i);
                assert(t.devices[i].device_id == device_id.text());
            } else {
                assert forall|i: int|
                    0 <= i < after.devices.len() && (#[trigger] after.devices[i]).ipv4.len()
                        > 0 implies pool::is_taken(after.pool, after.devices[i].ipv4) by {
                    if i < t.devices.len() {
                        assert(after.devices[i] == t.devices[i]);
                    } else {
                        assert(after.devices[i] == row);
                    }
                }
            }
        }
    }
}

/// A device that has just registered is listed as waiting for approval, and is
/// not among the peers that others are told of.
pub proof fn law_newcomer_waits_for_approval(
    t: Tables,
    device_id: PeerId,
    public_key: Seq<u8>,
    hostname: Seq<char>,
    ipv4: Ipv4Addr,
    now: i64,
)
    ensures
        ({
            let devices = t.devices.push(
                newcomer(device_id, public_key, hostname, ipv4, now).row(),
            );
            let last = t.devices.len() as int;
            &&& tables::by_age(devices, Some(0))[last] is Some
            &&& tables::by_age(devices, Some(1))[last] is None
            &&& tables::resolved(devices)[last] is None
            &&& tables::by_age(tables::approved(devices, device_id.text()), Some(1))[last] is Some
        }),
{
}

/// What a device is told that registers for the first time is what is stored of
/// it: one row behind those that there were, with its own key and name, the
/// identifier and the address that it is told, not approved, and seen just now.
/// The address is taken in the pool, and nothing else changes.
pub proof fn law_newcomer_is_stored_as_it_was_told(
    t: Tables,
    device_id: PeerId,
    public_key: Seq<u8>,
    hostname: Seq<char>,
    now: i64,
    ip_base: u32,
    ip_max_offset: u32,
    network_cidr: Seq<char>,
    r: Result<Registration, RegisterError>,
    after: Tables,
)
    requires
        t.wf(),
        registered(
            t,
            device_id,
            public_key,
            hostname,
            now,
            ip_base,
            ip_max_offset,
            network_cidr,
            r,
            after,
        ),
    ensures
        after.candidates == t.candidates,
        after.rules == t.rules,
        r is Err ==> after.devices == t.devices,
        forall|i: int|
            0 <= i < t.devices.len() && (#[trigger] t.devices[i]).public_key == public_key ==> {
                &&& after == t
                &&& r matches Ok(reg) && reg.network@ == network_cidr
            },
        (forall|i: int|
            0 <= i < t.devices.len() ==> (#[trigger] t.devices[i]).public_key != public_key) ==> (
        r matches Ok(reg) ==> {
            let last = after.devices.last();
            &&& after.devices.len() == t.devices.len() + 1
            &&& forall|i: int|
                0 <= i < t.devices.len() ==> #[trigger] after.devices[i] == t.devices[i]
            &&& reg.device_id == device_id
            &&& reg.network@ == network_cidr
            &&& last.device_id == device_id.text()
            &&& last.public_key == public_key
            &&& last.hostname == hostname
            &&& last.ipv4 == reg.ipv4@
            &&& last.status == 0
            &&& last.created_at == now
            &&& last.last_seen == now
            &&& exists|k: int|
                0 <= k < after.pool.len() && (#[trigger] after.pool[k]).ipv4 == reg.ipv4@
                    && after.pool[k].allocated != 0
            &&& forall|k: int|
                0 <= k < t.pool.len() && (#[trigger] t.pool[k]).ipv4 == reg.ipv4@
                    ==> t.pool[k].allocated == 0
        }),
{
    if !is_known(t, public_key) && r is Ok {
        let ip = pool::allocation(t.pool, ip_base, ip_max_offset)->0;
        pool::law_allocated_is_taken(t.pool, ip_base, ip_max_offset);
        assert(pool::is_taken(after.pool, ip.text()));
        assert forall|k: int|
            0 <= k < t.pool.len() && (#[trigger] t.pool[k]).ipv4
                == ip.text() implies t.pool[k].allocated == 0 by {
            pool::law_allocated_was_not_in_use(t.pool, ip_base, ip_max_offset, k);
        }
    }
}

/// A device that is registered is told the identifier and the address in its own
/// row.
pub proof fn law_known_device_is_told_its_own(
    t: Tables,
    device_id: PeerId,
    public_key: Seq<u8>,
    hostname: Seq<char>,
    now: i64,
    ip_base: u32,
    ip_max_offset: u32,
    network_cidr: Seq<char>,
    r: Result<Registration, RegisterError>,
    after: Tables,
    i: int,
    ip: Ipv4Addr,
)
    requires
        t.wf(),
        registered(
            t,
            device_id,
            public_key,
            hostname,
            now,
            ip_base,
            ip_max_offset,
            network_cidr,
            r,
            after,
        ),
        0 <= i < t.devices.len(),
        t.devices[i].public_key == public_key,
        t.devices[i].ipv4 == ip.text(),
    ensures
        r matches Ok(reg) && reg.ipv4@ == t.devices[i].ipv4 && reg.device_id
            == t.devices[i].record().device_id,
{
    assert(is_known(t, public_key));
    let j = choose|j: int|
        0 <= j < t.devices.len() && (#[trigger] t.devices[j]).public_key == public_key
            && r->Ok_0.device_id == t.devices[j].record().device_id && r->Ok_0.ipv4@
            == t.devices[j].record().ipv4.text();
    laws::law_devices_share_nothing(t, i, j);
    crate::registry::device::law_record_says_what_the_row_says(t.devices[i]);
}

/// The peers that a device is told of are the approved devices and no others,
/// the oldest registration first, each with its own name, key and address and
/// with the time since it was last seen.
pub proof fn law_peers_are_the_approved_devices(
    t: Tables,
    now: i64,
    out: Seq<Peer>,
) -> (places: Seq<int>)
    requires
        t.wf(),
        order::listing(peers_of(t, now), tables::by_age(t.devices, Some(1)), out),
    ensures
        places.len() == out.len(),
        forall|k: int|
            0 <= k < out.len() ==> {
                let d = t.devices[#[trigger] places[k]];
                &&& 0 <= places[k] < t.devices.len()
                &&& d.status == 1
                &&& out[k].hostname == d.hostname
                &&& out[k].public_key == d.public_key.subrange(0, 32)
                &&& out[k].device_id == d.record().device_id
                &&& forall|ip: Ipv4Addr| #[trigger] ip.text() == d.ipv4 ==> out[k].ipv4 == d.ipv4
                &&& i64::MIN <= now - d.last_seen <= i64::MAX ==> out[k].last_seen_secs == now
                    - d.last_seen
            },
        forall|i: int|
            0 <= i < t.devices.len() && (#[trigger] t.devices[i]).status == 1 ==> places.contains(
                i,
            ),
        forall|k: int, l: int|
            0 <= k < l < out.len() ==> t.devices[#[trigger] places[k]].created_at
                <= t.devices[#[trigger] places[l]].created_at && places[k] != places[l],
{
    let keys = tables::by_age(t.devices, Some(1));
    let places = order::law_listing_goes_by_the_keys(peers_of(t, now), keys, out);
    assert forall|k: int| 0 <= k < out.len() implies {
        let d = t.devices[#[trigger] places[k]];
        &&& 0 <= places[k] < t.devices.len()
        &&& d.status == 1
        &&& out[k].hostname == d.hostname
        &&& out[k].public_key == d.public_key.subrange(0, 32)
        &&& out[k].device_id == d.record().device_id
        &&& forall|ip: Ipv4Addr| #[trigger] ip.text() == d.ipv4 ==> out[k].ipv4 == d.ipv4
        &&& i64::MIN <= now - d.last_seen <= i64::MAX ==> out[k].last_seen_secs == now
            - d.last_seen
    } by {
        let d = t.devices[places[k]];
        assert(keys[places[k]] is Some);
        assert(out[k] == peer_of(d.record(), now));
        laws::law_devices_share_nothing(t, places[k], places[k]);
        crate::registry::device::law_record_says_what_the_row_says(d);
    }
    assert forall|i: int|
        0 <= i < t.devices.len() && (#[trigger] t.devices[i]).status
            == 1 implies places.contains(i) by {
        assert(keys[i] is Some);
        let a = choose|a: int| 0 <= a < out.len() && #[trigger] places[a] == i;
    }
    assert forall|k: int, l: int| 0 <= k < l < out.len() implies t.devices[
    #[trigger] places[k]].created_at <= t.devices[#[trigger] places[l]].created_at && places[k]
        != places[l] by {
        let i = places[k];
        let j = places[l];
        assert(keys[i] == Some(t.devices[i].created_at as i128));
        assert(keys[j] == Some(t.devices[j].created_at as i128));
    }
    places
}

/// A network range is an address, a slash and a prefix length of at most 32, and
/// is read as what it was written from.
pub proof fn law_cidr_reads_address_and_prefix(ip: Ipv4Addr, prefix: u8)
    ensures
        cidr_of(ip.text() + seq!['/'] + text::decimal(prefix as nat)) == if prefix <= 32 {
            Ok::<(Ipv4Addr, u8), CidrError>((ip, prefix))
        } else {
            Err::<(Ipv4Addr, u8), CidrError>(CidrError::PrefixTooLong)
        },
{
    let digits = text::decimal(prefix as nat);
    let s = ip.text() + seq!['/'] + digits;
    let at = ip.text().len() as int;
    text::lemma_decimal_value(prefix as nat);
    addr::lemma_text_has_no_slash(ip);
    assert forall|i: int| 0 <= i < s.len() && i != at implies #[trigger] s[i] != '/' by {
        if i < at {
            assert(s[i] == ip.text()[i]);
        } else {
            assert(s[i] == digits[i - at - 1]);
            assert(text::is_digit(digits[i - at - 1]));
        }
    }
    assert(one_slash(s, at));
    let k = choose|k: int| one_slash(s, k);
    assert(k == at) by {
        if k != at {
            assert(s[k] == '/');
        }
    }
    assert(s.subrange(0, at) =~= ip.text());
    assert(s.subrange(at + 1, s.len() as int) =~= digits);
    addr::law_text_roundtrip(ip);
    assert(text::is_digit(digits[0]));
}

/// A prefix length may have a plus sign before it and zeros in front, and makes no
/// difference by that.
pub proof fn law_sign_and_zeros_make_no_difference(n: u8, zeros: nat)
    ensures
        byte_of(Seq::new(zeros, |i: int| '0') + text::decimal(n as nat)) == Some(n as int),
        byte_of(seq!['+'] + (Seq::new(zeros, |i: int| '0') + text::decimal(n as nat))) == Some(
            n as int,
        ),
        byte_of(Seq::empty()) is None,
        byte_of(seq!['+']) is None,
{
    let d = text::decimal(n as nat);
    let s = Seq::new(zeros, |i: int| '0') + d;
    text::lemma_decimal_value(n as nat);
    lemma_leading_zeros(zeros, d);
    assert forall|i: int| 0 <= i < s.len() implies text::is_digit(#[trigger] s[i]) by {
        if i >= zeros {
            assert(s[i] == d[i - zeros]);
            assert(text::is_digit(d[i - zeros]));
        }
    }
    assert(text::is_digit(s[0]));
    let signed = seq!['+'] + s;
    assert(signed.subrange(1, signed.len() as int) =~= s);
    assert(seq!['+'].subrange(1, 1) =~= Seq::<char>::empty());
}

proof fn lemma_leading_zeros(zeros: nat, d: Seq<char>)
    requires
        d.len() > 0,
        text::all_digits(d),
    ensures
        text::digits_value(Seq::new(zeros, |i: int| '0') + d) == text::digits_value(d),
    decreases d.len(),
{
    let front = Seq::new(zeros, |i: int| '0');
    let s = front + d;
    assert(s.drop_last() =~= front + d.drop_last());
    assert(s.last() == d.last());
    if d.len() == 1 {
        assert(front + d.drop_last() =~= front);
        lemma_zeros(zeros);
        assert(d.drop_last() =~= Seq::<char>::empty());
        assert(text::digits_value(d.drop_last()) == 0);
    } else {
        assert forall|i: int| 0 <= i < d.drop_last().len() implies text::is_digit(
            #[trigger] d.drop_last()[i],
        ) by {
            assert(text::is_digit(d[i]));
        }
        lemma_leading_zeros(zeros, d.drop_last());
    }
}

proof fn lemma_zeros(n: nat)
    ensures
        text::digits_value(Seq::new(n, |i: int| '0')) == 0,
    decreases n,
{
    if n > 0 {
        let s = Seq::new(n, |i: int| '0');
        assert(s.drop_last() =~= Seq::new((n - 1) as nat, |i: int| '0'));
        lemma_zeros((n - 1) as nat);
    }
}

/// A network range without a slash, or with more than one, is refused; so is one
/// whose first part is no address.
pub proof fn law_malformed_ranges_are_refused(s: Seq<char>, i: int, j: int)
    ensures
        (forall|k: int| 0 <= k < s.len() ==> #[trigger] s[k] != '/') ==> cidr_of(s) == Err::<
            (Ipv4Addr, u8),
            CidrError,
        >(CidrError::Format),
        0 <= i < j < s.len() && s[i] == '/' && s[j] == '/' ==> cidr_of(s) == Err::<
            (Ipv4Addr, u8),
            CidrError,
        >(CidrError::Format),
        0 <= i < s.len() && s[i] == '/' && (forall|k: int|
            0 <= k < s.len() && k != i ==> #[trigger] s[k] != '/') && (forall|ip: Ipv4Addr| #[trigger]
            ip.text() != s.subrange(0, i)) ==> cidr_of(s) == Err::<(Ipv4Addr, u8), CidrError>(
            CidrError::Address,
        ),
{
    if exists|at: int| one_slash(s, at) {
        let at = choose|at: int| one_slash(s, at);
        assert(s[at] == '/');
    }
    if 0 <= i < s.len() && s[i] == '/' && (forall|k: int|
        0 <= k < s.len() && k != i ==> #[trigger] s[k] != '/') {
        assert(one_slash(s, i));
        let at = choose|at: int| one_slash(s, at);
        assert(s[at] == '/');
        assert(at == i);
    }
}

/// The time since a device was seen is the difference of the two times, or the
/// number nearest to it that can be written.
pub proof fn law_elapsed_is_the_difference(now: i64, since: i64)
    ensures
        i64::MIN <= now - since <= i64::MAX ==> elapsed(now, since) == now - since,
        now - since > i64::MAX ==> elapsed(now, since) == i64::MAX,
        now - since < i64::MIN ==> elapsed(now, since) == i64::MIN,
{
}

/// The addresses that are in use and those that are free make up the network, as
/// long as no more are in use than there are.
pub proof fn law_free_and_used_addresses_make_up_the_network(
    registry: Registry,
    ip_max_offset: u32,
    network_cidr: &str,
    a: Allocations,
)
    requires
        call_ensures(Registry::handle_allocations, (&registry, ip_max_offset, network_cidr), a),
    ensures
        a.total == ip_max_offset + 1,
        a.used <= a.total ==> a.used + a.free == a.total,
        a.used > a.total ==> a.free == 0,
        a.used <= registry@.pool.len(),
        a.network@ == network_cidr@,
{
    lemma_filter_is_no_longer(registry@.pool, pool::in_use());
}

proof fn lemma_filter_is_no_longer<A>(s: Seq<A>, keep: spec_fn(A) -> bool)
    ensures
        s.filter(keep).len() <= s.len(),
    decreases s.len(),
{
    reveal(Seq::filter);
    if s.len() > 0 {
        lemma_filter_is_no_longer(s.drop_last(), keep);
    }
}

/// A network range is an address and as many addresses as the bits behind the
/// prefix can count.
pub proof fn law_parse_cidr(
    cidr: &str,
    ip: Ipv4Addr,
    prefix: u8,
    r: Result<(u32, u32), CidrError>,
)
    requires
        call_ensures(parse_cidr, (cidr,), r),
        cidr@ == ip.text() + seq!['/'] + text::decimal(prefix as nat),
        1 <= prefix,
    ensures
        prefix > 32 ==> r == Err::<(u32, u32), CidrError>(CidrError::PrefixTooLong),
        prefix <= 32 ==> (r matches Ok((base, max_offset)) && base == ip.bits && (max_offset + 1)
            * vstd::arithmetic::power2::pow2(prefix as nat) == 0x1_0000_0000),
{
    law_cidr_reads_address_and_prefix(ip, prefix);
    if prefix <= 32 {
        let bits = (32 - prefix) as nat;
        vstd::arithmetic::power2::lemma2_to64();
        vstd::arithmetic::power2::lemma_pow2_pos(bits);
        if bits < 31 {
            vstd::arithmetic::power2::lemma_pow2_strictly_increases(bits, 31);
        }
        vstd::arithmetic::power2::lemma_pow2_adds(bits, prefix as nat);
    }
}

/// Whoever asks for the peers is told of approved devices alone, and of all of
/// them: each by its own name and with the time since it was seen.
pub proof fn law_handle_peers(
    registry: Registry,
    now: i64,
    peers: Vec<PeerInfo>,
    k: int,
    i: int,
)
    requires
        registry@.wf(),
        call_ensures(Registry::handle_peers, (&registry, now), peers),
    ensures
        0 <= k < peers@.len() ==> exists|n: int|
            0 <= n < registry@.devices.len() && (#[trigger] registry@.devices[n]).status == 1
                && peers@[k].hostname@ == registry@.devices[n].hostname && peers@[k].public_key@
                == registry@.devices[n].public_key.subrange(0, 32) && (i64::MIN <= now
                - registry@.devices[n].last_seen <= i64::MAX ==> peers@[k].last_seen_secs == now
                - registry@.devices[n].last_seen),
        0 <= i < registry@.devices.len() && registry@.devices[i].status == 1 ==> exists|n: int|
            0 <= n < peers@.len() && (#[trigger] peers@[n]).hostname@
                == registry@.devices[i].hostname && peers@[n].public_key@
                == registry@.devices[i].public_key.subrange(0, 32),
{
    let out = crate::registry::rows::contents(peers@);
    let places = law_peers_are_the_approved_devices(registry@, now, out);
    if 0 <= k < peers@.len() {
        assert(out[k] == peers@[k]@);
        let n = places[k];
        assert(registry@.devices[n].status == 1);
        assert(peers@[k].hostname@ == registry@.devices[n].hostname);
        assert(peers@[k].public_key@ == registry@.devices[n].public_key.subrange(0, 32));
    }
    if 0 <= i < registry@.devices.len() && registry@.devices[i].status == 1 {
        assert(places.contains(i));
        let n = choose|n: int| 0 <= n < places.len() && places[n] == i;
        assert(out[n] == peers@[n]@);
        assert(registry@.devices[places[n]].status == 1);
        assert(peers@[n].hostname@ == registry@.devices[i].hostname);
        assert(peers@[n].public_key@ == registry@.devices[i].public_key.subrange(0, 32));
    }
}

} // verus!
