//! The tables of the registry and the rules for changing them.

use vstd::prelude::*;

use crate::codec;
use crate::registry::candidates;
use crate::registry::candidates::{CandidateEntry, CandidateTable};
use crate::registry::device::{Device, DeviceRecord, DeviceRow, Record, PUBLIC_KEY_LEN};
use crate::registry::order;
use crate::registry::pool;
use crate::registry::pool::{IpPool, PoolEntry};
use crate::registry::rows;
use crate::registry::rules;
use crate::registry::rules::{AclTable, RuleEntry};
use crate::relay_proto::PeerId;
use crate::text;

verus! {

/// The device registry: devices, the addresses they hold, the candidate
/// addresses they publish, and the access rules.
pub struct Registry {
    pub devices: Vec<DeviceRow>,
    pub pool: IpPool,
    pub candidates: CandidateTable,
    pub rules: AclTable,
}

/// The contents of the registry.
#[verifier::ext_equal]
pub struct Tables {
    pub devices: Seq<Device>,
    pub pool: Seq<PoolEntry>,
    pub candidates: Seq<CandidateEntry>,
    pub rules: Seq<RuleEntry>,
}

impl View for Registry {
    type V = Tables;

    open spec fn view(&self) -> Tables {
        Tables {
            devices: rows::contents(self.devices@),
            pool: self.pool@,
            candidates: self.candidates@,
            rules: self.rules@,
        }
    }
}

/// Why the registry turned a change down.
#[derive(Debug, Clone, Copy, PartialEq, Eq, Structural)]
pub enum RegistryError {
    /// Another device has the same identifier, public key or address.
    Duplicate,
}

/// Whether two devices could not both be registered. Devices without an
/// address are in nobody's way on that account.
pub open spec fn clash(a: Device, b: Device) -> bool {
    a.device_id == b.device_id || a.public_key == b.public_key || a.ipv4 == b.ipv4
        && a.ipv4.len() > 0
}

/// No two devices share an identifier, a public key or an address, and no key
/// is too short.
pub open spec fn consistent(devices: Seq<Device>) -> bool {
    &&& forall|i: int, j: int|
        0 <= i < j < devices.len() ==> !clash(#[trigger] devices[i], #[trigger] devices[j])
    &&& forall|i: int|
        0 <= i < devices.len() ==> (#[trigger] devices[i]).public_key.len() >= PUBLIC_KEY_LEN
}

impl Tables {
    /// The rules that the tables keep at all times: nothing is entered twice.
    pub open spec fn wf(self) -> bool {
        &&& consistent(self.devices)
        &&& pool::distinct(self.pool)
        &&& candidates::distinct(self.candidates)
        &&& rules::distinct(self.rules)
    }
}

/// Whether each address that a device has is taken in the pool.
pub open spec fn pooled(t: Tables) -> bool {
    forall|i: int|
        0 <= i < t.devices.len() && (#[trigger] t.devices[i]).ipv4.len() > 0 ==> pool::is_taken(
            t.pool,
            t.devices[i].ipv4,
        )
}

/// Whether a device with that identifier is registered.
pub open spec fn has_id(devices: Seq<Device>, id: Seq<char>) -> bool {
    exists|i: int| 0 <= i < devices.len() && (#[trigger] devices[i]).device_id == id
}

/// Whether a device with that identifier and status is registered.
pub open spec fn has_status(devices: Seq<Device>, id: Seq<char>, status: i32) -> bool {
    exists|i: int|
        0 <= i < devices.len() && (#[trigger] devices[i]).device_id == id && devices[i].status
            == status
}

/// Whether a device that is registered stands in the way of another.
pub open spec fn clashes(devices: Seq<Device>, device: Device) -> bool {
    exists|i: int| 0 <= i < devices.len() && clash(#[trigger] devices[i], device)
}

/// The devices after a sign of life of one of them.
pub open spec fn touched(devices: Seq<Device>, id: Seq<char>, now: i64) -> Seq<Device> {
    Seq::new(
        devices.len(),
        |i: int|
            if devices[i].device_id == id {
                Device { last_seen: now, ..devices[i] }
            } else {
                devices[i]
            },
    )
}

/// The devices after one of them was approved.
pub open spec fn approved(devices: Seq<Device>, id: Seq<char>) -> Seq<Device> {
    Seq::new(
        devices.len(),
        |i: int|
            if devices[i].device_id == id && devices[i].status == 0 {
                Device { status: 1, ..devices[i] }
            } else {
                devices[i]
            },
    )
}

/// The devices after one of them was revoked: it keeps its record and loses
/// its address.
pub open spec fn revoked(devices: Seq<Device>, id: Seq<char>) -> Seq<Device> {
    Seq::new(
        devices.len(),
        |i: int|
            if devices[i].device_id == id && devices[i].status == 1 {
                Device { status: -1i32, ipv4: Seq::empty(), ..devices[i] }
            } else {
                devices[i]
            },
    )
}

/// Whether a device holds an address.
pub open spec fn has_address(devices: Seq<Device>, id: Seq<char>, ipv4: Seq<char>) -> bool {
    exists|i: int|
        0 <= i < devices.len() && (#[trigger] devices[i]).device_id == id && devices[i].ipv4
            == ipv4
}

/// Pool entries that are not that of a device.
pub open spec fn not_held_by(devices: Seq<Device>, id: Seq<char>) -> spec_fn(PoolEntry) -> bool {
    |e: PoolEntry| !has_address(devices, id, e.ipv4)
}

/// Devices with another identifier.
pub open spec fn other_than(id: Seq<char>) -> spec_fn(Device) -> bool {
    |d: Device| d.device_id != id
}

/// Whether a device is to be purged: it was last seen before `cutoff`, and is
/// not approved.
pub open spec fn is_stale(d: Device, cutoff: int) -> bool {
    d.last_seen < cutoff && d.status != 1
}

/// Whether an address is that of a device that is to be purged.
pub open spec fn is_stale_address(devices: Seq<Device>, cutoff: int, ipv4: Seq<char>) -> bool {
    exists|i: int|
        0 <= i < devices.len() && is_stale(#[trigger] devices[i], cutoff) && devices[i].ipv4
            == ipv4
}

/// Pool entries that are not those of a device that is to be purged.
pub open spec fn not_stale_address(
    devices: Seq<Device>,
    cutoff: int,
) -> spec_fn(PoolEntry) -> bool {
    |e: PoolEntry| !is_stale_address(devices, cutoff, e.ipv4)
}

/// Devices that stay when those are purged that were last seen before
/// `cutoff`: approved devices do in any case.
pub open spec fn survives(cutoff: int) -> spec_fn(Device) -> bool {
    |d: Device| !is_stale(d, cutoff)
}

/// The records of the devices.
pub open spec fn records(devices: Seq<Device>) -> Seq<Record> {
    Seq::new(devices.len(), |i: int| devices[i].record())
}

/// The devices with a given status, or all of them, by the time of their
/// registration.
pub open spec fn by_age(devices: Seq<Device>, status: Option<i32>) -> Seq<Option<i128>> {
    Seq::new(
        devices.len(),
        |i: int|
            if status is None || devices[i].status == status->0 {
                Some(devices[i].created_at as i128)
            } else {
                None
            },
    )
}

/// The names and addresses of the devices.
pub open spec fn names(devices: Seq<Device>) -> Seq<(Seq<char>, Seq<char>)> {
    Seq::new(devices.len(), |i: int| (devices[i].hostname, devices[i].ipv4))
}

/// The devices that are resolved by name: approved ones that have a name and
/// an address, as they stand in the table.
pub open spec fn resolved(devices: Seq<Device>) -> Seq<Option<i128>> {
    Seq::new(
        devices.len(),
        |i: int|
            if devices[i].status == 1 && devices[i].hostname.len() > 0 && devices[i].ipv4.len()
                > 0 {
                Some(0i128)
            } else {
                None
            },
    )
}

/// The contents of a list of pairs of strings.
pub open spec fn pairs(list: Seq<(String, String)>) -> Seq<(Seq<char>, Seq<char>)> {
    Seq::new(list.len(), |i: int| (list[i].0@, list[i].1@))
}

/// Whether two devices could not both be registered.
fn rows_clash(a: &DeviceRow, b: &DeviceRow) -> (r: bool)
    ensures
        r == clash(a@, b@),
{
    text::same(a.device_id.as_str(), b.device_id.as_str()) || codec::bytes_equal(
        a.public_key.as_slice(),
        b.public_key.as_slice(),
    ) || text::same(a.ipv4.as_str(), b.ipv4.as_str()) && !a.ipv4.as_str().is_empty()
}

impl Registry {
    /// An empty registry.
    pub fn new() -> (r: Self)
        ensures
            r@.wf(),
            r@.devices.len() == 0,
            r@.pool.len() == 0,
            r@.candidates.len() == 0,
            r@.rules.len() == 0,
    {
        Registry {
            devices: Vec::new(),
            pool: IpPool::new(),
            candidates: CandidateTable::new(),
            rules: AclTable::new(),
        }
    }

    /// Whether the tables keep their rules.
    pub fn is_well_formed(&self) -> (ok: bool)
        ensures
            ok == self@.wf(),
    {
        self.devices_are_consistent() && self.pool.is_distinct() && self.candidates.is_distinct()
            && self.rules.is_distinct()
    }

    fn devices_are_consistent(&self) -> (ok: bool)
        ensures
            ok == consistent(self@.devices),
    {
        let mut j: usize = 0;
        while j < self.devices.len()
            invariant
                j <= self.devices@.len(),
                forall|a: int, b: int|
                    0 <= a < b < j ==> !clash(
                        #[trigger] self@.devices[a],
                        #[trigger] self@.devices[b],
                    ),
                forall|a: int|
                    0 <= a < j ==> (#[trigger] self@.devices[a]).public_key.len()
                        >= PUBLIC_KEY_LEN,
            decreases self.devices@.len() - j,
        {
            assert(self@.devices[j as int] == self.devices@[j as int]@);
            if self.devices[j].public_key.len() < PUBLIC_KEY_LEN {
                return false;
            }
            let mut i: usize = 0;
            while i < j
                invariant
                    i <= j < self.devices@.len(),
                    forall|a: int|
                        0 <= a < i ==> !clash(
                            #[trigger] self@.devices[a],
                            self@.devices[j as int],
                        ),
                decreases j - i,
            {
                let a: &DeviceRow = &self.devices[i];
                let b: &DeviceRow = &self.devices[j];
                assert(self@.devices[i as int] == a@);
                assert(self@.devices[j as int] == b@);
                if rows_clash(a, b) {
                    return false;
                }
                i = i + 1;
            }
            j = j + 1;
        }
        true
    }

    /// Find a device by its public key, or return `None`.
    pub fn find_by_public_key(&self, pk: &[u8; 32]) -> (found: Option<DeviceRecord>)
        requires
            self@.wf(),
        ensures
            found is Some <==> exists|i: int|
                0 <= i < self@.devices.len() && (#[trigger] self@.devices[i]).public_key == pk@,
            found matches Some(record) ==> exists|i: int|
                0 <= i < self@.devices.len() && (#[trigger] self@.devices[i]).public_key == pk@
                    && record@ == self@.devices[i].record(),
    {
        let mut i: usize = 0;
        while i < self.devices.len()
            invariant
                i <= self.devices@.len(),
                self@.wf(),
                forall|j: int| 0 <= j < i ==> (#[trigger] self@.devices[j]).public_key != pk@,
            decreases self.devices@.len() - i,
        {
            assert(self@.devices[i as int] == self.devices@[i as int]@);
            if codec::bytes_equal(self.devices[i].public_key.as_slice(), pk.as_slice()) {
                return Some(DeviceRecord::from_row(&self.devices[i]));
            }
            i = i + 1;
        }
        None
    }

    /// Find a device by ID.
    pub fn find_by_id(&self, device_id: PeerId) -> (found: Option<DeviceRecord>)
        requires
            self@.wf(),
        ensures
            found is Some <==> has_id(self@.devices, device_id.text()),
            found matches Some(record) ==> exists|i: int|
                0 <= i < self@.devices.len() && (#[trigger] self@.devices[i]).device_id
                    == device_id.text() && record@ == self@.devices[i].record(),
    {
        let id: String = device_id.to_string();
        let mut i: usize = 0;
        while i < self.devices.len()
            invariant
                i <= self.devices@.len(),
                self@.wf(),
                id@ == device_id.text(),
                forall|j: int| 0 <= j < i ==> (#[trigger] self@.devices[j]).device_id != id@,
            decreases self.devices@.len() - i,
        {
            assert(self@.devices[i as int] == self.devices@[i as int]@);
            if text::same(self.devices[i].device_id.as_str(), id.as_str()) {
                return Some(DeviceRecord::from_row(&self.devices[i]));
            }
            i = i + 1;
        }
        None
    }

    /// Insert a new device.
    ///
    /// Fails if its identifier, its public key or its address is a duplicate.
    pub fn insert_device(&mut self, dev: &DeviceRecord) -> (r: Result<(), RegistryError>)
        ensures
            r is Err <==> clashes(old(self)@.devices, dev@.row()),
            r matches Err(e) ==> e is Duplicate && final(self)@ == old(self)@,
            r is Ok ==> final(self)@ == (Tables {
                devices: old(self)@.devices.push(dev@.row()),
                ..old(self)@
            }),
            // What is stored of the device is read back the same.
            dev@.row().record() == dev@,
    {
        let row: DeviceRow = dev.to_row();
        let mut i: usize = 0;
        while i < self.devices.len()
            invariant
                i <= self.devices@.len(),
                *self == *old(self),
                row@ == dev@.row(),
                dev@.row().record() == dev@,
                forall|j: int| 0 <= j < i ==> !clash(#[trigger] self@.devices[j], row@),
            decreases self.devices@.len() - i,
        {
            assert(self@.devices[i as int] == self.devices@[i as int]@);
            let other: &DeviceRow = &self.devices[i];
            if rows_clash(other, &row) {
                return Err(RegistryError::Duplicate);
            }
            i = i + 1;
        }
        self.devices.push(row);
        assert(self@.devices =~= old(self)@.devices.push(dev@.row()));
        Ok(())
    }

    /// Update only the last_seen timestamp.
    ///
    /// Returns `true` if the device exists and was updated.
    pub fn heartbeat(&mut self, device_id: PeerId, now: i64) -> (ok: bool)
        ensures
            final(self)@ == (Tables {
                devices: touched(old(self)@.devices, device_id.text(), now),
                ..old(self)@
            }),
            ok == has_id(old(self)@.devices, device_id.text()),
    {
        let id: String = device_id.to_string();
        let ghost all = self@.devices;
        let mut ok: bool = false;
        let mut i: usize = 0;
        while i < self.devices.len()
            invariant
                i <= self.devices@.len() == all.len(),
                id@ == device_id.text(),
                all == old(self)@.devices,
                self.pool == old(self).pool,
                self.candidates == old(self).candidates,
                self.rules == old(self).rules,
                ok <==> exists|j: int| 0 <= j < i && (#[trigger] all[j]).device_id == id@,
                forall|j: int|
                    0 <= j < i ==> #[trigger] self@.devices[j] == touched(all, id@, now)[j],
                forall|j: int| i <= j < all.len() ==> #[trigger] self@.devices[j] == all[j],
            decreases self.devices@.len() - i,
        {
            let ghost before = self@.devices;
            assert(self@.devices[i as int] == all[i as int]);
            if text::same(self.devices[i].device_id.as_str(), id.as_str()) {
                assert(all[i as int].device_id == id@);
                self.devices[i].last_seen = now;
                assert(self@.devices =~= before.update(i as int, touched(all, id@, now)[i as int]));
                ok = true;
            }
            i = i + 1;
        }
        assert(self@.devices =~= touched(all, id@, now));
        ok
    }

    /// Approve a pending device.
    ///
    /// Returns `true` if the device exists and was in pending state.
    pub fn approve_device(&mut self, device_id: PeerId) -> (ok: bool)
        ensures
            final(self)@ == (Tables {
                devices: approved(old(self)@.devices, device_id.text()),
                ..old(self)@
            }),
            ok == has_status(old(self)@.devices, device_id.text(), 0),
    {
        let id: String = device_id.to_string();
        let ghost all = self@.devices;
        let mut ok: bool = false;
        let mut i: usize = 0;
        while i < self.devices.len()
            invariant
                i <= self.devices@.len() == all.len(),
                id@ == device_id.text(),
                all == old(self)@.devices,
                self.pool == old(self).pool,
                self.candidates == old(self).candidates,
                self.rules == old(self).rules,
                ok <==> exists|j: int|
                    0 <= j < i && (#[trigger] all[j]).device_id == id@ && all[j].status == 0,
                forall|j: int| 0 <= j < i ==> #[trigger] self@.devices[j] == approved(all, id@)[j],
                forall|j: int| i <= j < all.len() ==> #[trigger] self@.devices[j] == all[j],
            decreases self.devices@.len() - i,
        {
            let ghost before = self@.devices;
            assert(self@.devices[i as int] == all[i as int]);
            if self.devices[i].status == 0 && text::same(
                self.devices[i].device_id.as_str(),
                id.as_str(),
            ) {
                assert(all[i as int].device_id == id@);
                self.devices[i].status = 1;
                assert(self@.devices =~= before.update(i as int, approved(all, id@)[i as int]));
                ok = true;
            }
            i = i + 1;
        }
        assert(self@.devices =~= approved(all, id@));
        ok
    }

    /// Whether a device holds an address.
    fn holds_address(&self, id: &str, ipv4: &str) -> (r: bool)
        ensures
            r == has_address(self@.devices, id@, ipv4@),
    {
        let mut i: usize = 0;
        while i < self.devices.len()
            invariant
                i <= self.devices@.len(),
                forall|j: int|
                    0 <= j < i ==> !((#[trigger] self@.devices[j]).device_id == id@
                        && self@.devices[j].ipv4 == ipv4@),
            decreases self.devices@.len() - i,
        {
            assert(self@.devices[i as int] == self.devices@[i as int]@);
            if text::same(self.devices[i].device_id.as_str(), id) && text::same(
                self.devices[i].ipv4.as_str(),
                ipv4,
            ) {
                return true;
            }
            i = i + 1;
        }
        false
    }

    /// Whether an address is that of a device that is to be purged.
    fn is_stale_address(&self, cutoff: i64, ipv4: &str) -> (r: bool)
        ensures
            r == is_stale_address(self@.devices, cutoff as int, ipv4@),
    {
        let mut i: usize = 0;
        while i < self.devices.len()
            invariant
                i <= self.devices@.len(),
                forall|j: int|
                    0 <= j < i ==> !(is_stale(#[trigger] self@.devices[j], cutoff as int)
                        && self@.devices[j].ipv4 == ipv4@),
            decreases self.devices@.len() - i,
        {
            assert(self@.devices[i as int] == self.devices@[i as int]@);
            if self.devices[i].last_seen < cutoff && self.devices[i].status != 1 && text::same(
                self.devices[i].ipv4.as_str(),
                ipv4,
            ) {
                return true;
            }
            i = i + 1;
        }
        false
    }

    /// Whether a device is registered and approved.
    fn is_approved(&self, id: &str) -> (r: bool)
        ensures
            r == has_status(self@.devices, id@, 1),
    {
        let mut i: usize = 0;
        while i < self.devices.len()
            invariant
                i <= self.devices@.len(),
                forall|j: int|
                    0 <= j < i ==> !((#[trigger] self@.devices[j]).device_id == id@
                        && self@.devices[j].status == 1),
            decreases self.devices@.len() - i,
        {
            assert(self@.devices[i as int] == self.devices@[i as int]@);
            if self.devices[i].status == 1 && text::same(self.devices[i].device_id.as_str(), id) {
                return true;
            }
            i = i + 1;
        }
        false
    }

    /// Takes the address of a device out of the pool.
    fn release_address_of(&mut self, id: &str)
        ensures
            final(self)@ == (Tables {
                pool: old(self)@.pool.filter(not_held_by(old(self)@.devices, id@)),
                ..old(self)@
            }),
    {
        let ghost keep = not_held_by(self@.devices, id@);
        let mut marks: Vec<bool> = Vec::new();
        let mut i: usize = 0;
        while i < self.pool.rows.len()
            invariant
                i <= self.pool.rows@.len(),
                *self == *old(self),
                marks@.len() == i,
                forall|j: int|
                    0 <= j < i ==> #[trigger] marks@[j] == !has_address(
                        self@.devices,
                        id@,
                        self@.pool[j].ipv4,
                    ),
            decreases self.pool.rows@.len() - i,
        {
            assert(self@.pool[i as int].ipv4 == self.pool.rows@[i as int].ipv4@);
            marks.push(!self.holds_address(id, self.pool.rows[i].ipv4.as_str()));
            i = i + 1;
        }
        rows::keep_marked(&mut self.pool.rows, &marks, Ghost(keep));
    }

    /// Revoke an approved device (keeps record, frees IP).
    ///
    /// Returns `true` if the device exists and was successfully revoked. Of a
    /// device that is not approved only the address is freed.
    pub fn revoke_device(&mut self, device_id: PeerId) -> (r: Result<bool, RegistryError>)
        ensures
            r == Ok::<bool, RegistryError>(has_status(old(self)@.devices, device_id.text(), 1)),
            final(self)@ == (Tables {
                devices: revoked(old(self)@.devices, device_id.text()),
                pool: old(self)@.pool.filter(not_held_by(old(self)@.devices, device_id.text())),
                ..old(self)@
            }),
    {
        let id: String = device_id.to_string();
        let was_approved: bool = self.is_approved(id.as_str());
        self.release_address_of(id.as_str());
        let ghost freed = self@;
        let ghost all = self@.devices;
        let mut i: usize = 0;
        while i < self.devices.len()
            invariant
                i <= self.devices@.len() == all.len(),
                id@ == device_id.text(),
                all == freed.devices,
                self@.pool == freed.pool,
                self@.candidates == freed.candidates,
                self@.rules == freed.rules,
                forall|j: int| 0 <= j < i ==> #[trigger] self@.devices[j] == revoked(all, id@)[j],
                forall|j: int| i <= j < all.len() ==> #[trigger] self@.devices[j] == all[j],
            decreases self.devices@.len() - i,
        {
            let ghost before = self@.devices;
            assert(self@.devices[i as int] == all[i as int]);
            if self.devices[i].status == 1 && text::same(
                self.devices[i].device_id.as_str(),
                id.as_str(),
            ) {
                self.devices[i].status = -1;
                self.devices[i].ipv4 = String::new();
                assert(self@.devices =~= before.update(i as int, revoked(all, id@)[i as int]));
            }
            i = i + 1;
        }
        assert(self@.devices =~= revoked(all, id@));
        Ok(was_approved)
    }

    /// Delete a device completely.
    ///
    /// Returns `true` if the device existed and was deleted.
    pub fn delete_device(&mut self, device_id: PeerId) -> (deleted: bool)
        ensures
            final(self)@ == (Tables {
                devices: old(self)@.devices.filter(other_than(device_id.text())),
                pool: old(self)@.pool.filter(not_held_by(old(self)@.devices, device_id.text())),
                ..old(self)@
            }),
            deleted == has_id(old(self)@.devices, device_id.text()),
    {
        let id: String = device_id.to_string();
        self.release_address_of(id.as_str());
        let ghost freed = *self;
        let mut marks: Vec<bool> = Vec::new();
        let mut deleted: bool = false;
        let mut i: usize = 0;
        while i < self.devices.len()
            invariant
                i <= self.devices@.len(),
                *self == freed,
                marks@.len() == i,
                forall|j: int|
                    0 <= j < i ==> #[trigger] marks@[j] == (self@.devices[j].device_id != id@),
                deleted <==> exists|j: int|
                    0 <= j < i && (#[trigger] self@.devices[j]).device_id == id@,
            decreases self.devices@.len() - i,
        {
            assert(self@.devices[i as int] == self.devices@[i as int]@);
            let is_meant: bool = text::same(self.devices[i].device_id.as_str(), id.as_str());
            marks.push(!is_meant);
            if is_meant {
                deleted = true;
            }
            i = i + 1;
        }
        assert(deleted == has_id(self@.devices, id@));
        rows::keep_marked(&mut self.devices, &marks, Ghost(other_than(id@)));
        deleted
    }

    /// Takes the addresses of all devices that are to be purged out of the pool.
    fn release_stale_addresses(&mut self, cutoff: i64)
        ensures
            final(self)@ == (Tables {
                pool: old(self)@.pool.filter(
                    not_stale_address(old(self)@.devices, cutoff as int),
                ),
                ..old(self)@
            }),
    {
        let ghost keep = not_stale_address(self@.devices, cutoff as int);
        let mut marks: Vec<bool> = Vec::new();
        let mut i: usize = 0;
        while i < self.pool.rows.len()
            invariant
                i <= self.pool.rows@.len(),
                *self == *old(self),
                marks@.len() == i,
                forall|j: int|
                    0 <= j < i ==> #[trigger] marks@[j] == !is_stale_address(
                        self@.devices,
                        cutoff as int,
                        self@.pool[j].ipv4,
                    ),
            decreases self.pool.rows@.len() - i,
        {
            assert(self@.pool[i as int].ipv4 == self.pool.rows@[i as int].ipv4@);
            marks.push(!self.is_stale_address(cutoff, self.pool.rows[i].ipv4.as_str()));
            i = i + 1;
        }
        rows::keep_marked(&mut self.pool.rows, &marks, Ghost(keep));
    }

    /// Remove devices that haven't sent a heartbeat in `timeout_secs`.
    /// Approved devices stay, and keep their addresses.
    ///
    /// Returns the number of purged devices.
    pub fn purge_stale(&mut self, now: i64, timeout_secs: i64) -> (count: usize)
        requires
            i64::MIN <= now - timeout_secs <= i64::MAX,
        ensures
            final(self)@ == (Tables {
                devices: old(self)@.devices.filter(survives(now - timeout_secs)),
                pool: old(self)@.pool.filter(
                    not_stale_address(old(self)@.devices, now - timeout_secs),
                ),
                ..old(self)@
            }),
            count == old(self)@.devices.len() - final(self)@.devices.len(),
    {
        let cutoff: i64 = now - timeout_secs;
        self.release_stale_addresses(cutoff);
        let ghost freed = *self;
        let mut marks: Vec<bool> = Vec::new();
        let mut i: usize = 0;
        while i < self.devices.len()
            invariant
                i <= self.devices@.len(),
                *self == freed,
                marks@.len() == i,
                forall|j: int|
                    0 <= j < i ==> #[trigger] marks@[j] == !is_stale(
                        self@.devices[j],
                        cutoff as int,
                    ),
            decreases self.devices@.len() - i,
        {
            assert(self@.devices[i as int] == self.devices@[i as int]@);
            marks.push(self.devices[i].last_seen >= cutoff || self.devices[i].status == 1);
            i = i + 1;
        }
        rows::keep_marked(&mut self.devices, &marks, Ghost(survives(now - timeout_secs)))
    }

    /// The records of the devices with a given status, or of all, oldest
    /// registration first.
    fn list(&self, status: Option<i32>) -> (out: Vec<DeviceRecord>)
        requires
            self@.wf(),
        ensures
            order::listing(
                records(self@.devices),
                by_age(self@.devices, status),
                rows::contents(out@),
            ),
    {
        let mut keys: Vec<Option<i128>> = Vec::new();
        let mut i: usize = 0;
        while i < self.devices.len()
            invariant
                i <= self.devices@.len(),
                keys@.len() == i,
                forall|j: int|
                    0 <= j < i ==> #[trigger] keys@[j] == by_age(self@.devices, status)[j],
            decreases self.devices@.len() - i,
        {
            assert(self@.devices[i as int] == self.devices@[i as int]@);
            let row: &DeviceRow = &self.devices[i];
            let wanted: bool = match status {
                Some(s) => row.status == s,
                None => true,
            };
            keys.push(
                if wanted {
                    Some(row.created_at as i128)
                } else {
                    None
                },
            );
            i = i + 1;
        }
        assert(keys@ =~= by_age(self@.devices, status));
        let places: Vec<usize> = order::ordered(&keys);
        let mut out: Vec<DeviceRecord> = Vec::new();
        let mut k: usize = 0;
        while k < places.len()
            invariant
                k <= places@.len(),
                out@.len() == k,
                self@.wf(),
                keys@.len() == self.devices@.len(),
                order::in_order(places@, keys@),
                forall|j: int|
                    0 <= j < k ==> (#[trigger] out@[j])@ == records(
                        self@.devices,
                    )[places@[j] as int],
            decreases places@.len() - k,
        {
            assert(places@[k as int] < keys@.len());
            let row: &DeviceRow = &self.devices[places[k]];
            assert(self@.devices[places@[k as int] as int] == row@);
            out.push(DeviceRecord::from_row(row));
            k = k + 1;
        }
        assert(rows::contents(out@) =~= Seq::new(
            places@.len(),
            |i: int| records(self@.devices)[places@[i] as int],
        ));
        assert(order::lists(records(self@.devices), keys@, places@, rows::contents(out@)));
        out
    }

    /// List all approved devices (for peer discovery).
    pub fn list_approved(&self) -> (out: Vec<DeviceRecord>)
        requires
            self@.wf(),
        ensures
            order::listing(
                records(self@.devices),
                by_age(self@.devices, Some(1)),
                rows::contents(out@),
            ),
    {
        self.list(Some(1))
    }

    /// List all devices (for admin).
    pub fn list_all(&self) -> (out: Vec<DeviceRecord>)
        requires
            self@.wf(),
        ensures
            order::listing(
                records(self@.devices),
                by_age(self@.devices, None),
                rows::contents(out@),
            ),
    {
        self.list(None)
    }

    /// List pending devices (status = 0).
    pub fn list_pending(&self) -> (out: Vec<DeviceRecord>)
        requires
            self@.wf(),
        ensures
            order::listing(
                records(self@.devices),
                by_age(self@.devices, Some(0)),
                rows::contents(out@),
            ),
    {
        self.list(Some(0))
    }

    /// List DNS records: hostname → IP mapping for approved devices.
    pub fn list_dns_records(&self) -> (out: Vec<(String, String)>)
        ensures
            order::listing(names(self@.devices), resolved(self@.devices), pairs(out@)),
    {
        let mut keys: Vec<Option<i128>> = Vec::new();
        let mut i: usize = 0;
        while i < self.devices.len()
            invariant
                i <= self.devices@.len(),
                keys@.len() == i,
                forall|j: int| 0 <= j < i ==> #[trigger] keys@[j] == resolved(self@.devices)[j],
            decreases self.devices@.len() - i,
        {
            assert(self@.devices[i as int] == self.devices@[i as int]@);
            let row: &DeviceRow = &self.devices[i];
            let wanted: bool = row.status == 1 && !row.hostname.as_str().is_empty()
                && !row.ipv4.as_str().is_empty();
            keys.push(
                if wanted {
                    Some(0i128)
                } else {
                    None
                },
            );
            i = i + 1;
        }
        assert(keys@ =~= resolved(self@.devices));
        let places: Vec<usize> = order::ordered(&keys);
        let mut out: Vec<(String, String)> = Vec::new();
        let mut k: usize = 0;
        while k < places.len()
            invariant
                k <= places@.len(),
                out@.len() == k,
                keys@.len() == self.devices@.len(),
                order::in_order(places@, keys@),
                forall|j: int|
                    0 <= j < k ==> ((#[trigger] out@[j]).0@, out@[j].1@) == names(
                        self@.devices,
                    )[places@[j] as int],
            decreases places@.len() - k,
        {
            assert(places@[k as int] < keys@.len());
            let row: &DeviceRow = &self.devices[places[k]];
            assert(self@.devices[places@[k as int] as int] == row@);
            out.push((row.hostname.clone(), row.ipv4.clone()));
            k = k + 1;
        }
        assert(pairs(out@) =~= Seq::new(
            places@.len(),
            |i: int| names(self@.devices)[places@[i] as int],
        ));
        assert(order::lists(names(self@.devices), keys@, places@, pairs(out@)));
        out
    }
}

} // verus!
