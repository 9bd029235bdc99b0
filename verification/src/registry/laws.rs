//! What holds of the registry whatever is done to it.

use vstd::prelude::*;

use crate::addr;
use crate::registry::device::{Device, DeviceRecord, DeviceStatus, Record, PUBLIC_KEY_LEN};
use crate::registry::order;
use crate::registry::pool;
use crate::registry::pool::PoolEntry;
use crate::registry::rows;
use crate::registry::tables;
use crate::registry::tables::{Registry, RegistryError, Tables};
use crate::relay_proto::PeerId;

verus! {

/// Inserting a device that clashes with none keeps the tables consistent.
pub proof fn law_insert_keeps_consistency(devices: Seq<Device>, device: Device)
    requires
        tables::consistent(devices),
        !tables::clashes(devices, device),
        device.public_key.len() >= PUBLIC_KEY_LEN,
    ensures
        tables::consistent(devices.push(device)),
        tables::has_id(devices.push(device), device.device_id),
{
    let after = devices.push(device);
    assert(after[devices.len() as int] == device);
    assert forall|i: int, j: int| 0 <= i < j < after.len() implies !tables::clash(
        #[trigger] after[i],
        #[trigger] after[j],
    ) by {
        assert(!tables::clash(devices[i], device));
    }
}

/// A sign of life keeps the tables consistent and changes no other device.
pub proof fn law_heartbeat_changes_one_time(devices: Seq<Device>, id: Seq<char>, now: i64)
    requires
        tables::consistent(devices),
    ensures
        tables::consistent(tables::touched(devices, id, now)),
        forall|i: int|
            0 <= i < devices.len() ==> (#[trigger] tables::touched(devices, id, now)[i])
                == (Device {
                last_seen: if devices[i].device_id == id {
                    now
                } else {
                    devices[i].last_seen
                },
                ..devices[i]
            }),
{
    let after = tables::touched(devices, id, now);
    assert forall|i: int, j: int| 0 <= i < j < after.len() implies !tables::clash(
        #[trigger] after[i],
        #[trigger] after[j],
    ) by {
        assert(!tables::clash(devices[i], devices[j]));
    }
}

/// An approved device is approved, and cannot be approved again.
pub proof fn law_approved_once(devices: Seq<Device>, id: Seq<char>)
    requires
        tables::consistent(devices),
    ensures
        tables::consistent(tables::approved(devices, id)),
        !tables::has_status(tables::approved(devices, id), id, 0),
        tables::has_status(devices, id, 0) ==> tables::has_status(
            tables::approved(devices, id),
            id,
            1,
        ),
{
    let after = tables::approved(devices, id);
    assert forall|i: int, j: int| 0 <= i < j < after.len() implies !tables::clash(
        #[trigger] after[i],
        #[trigger] after[j],
    ) by {
        assert(!tables::clash(devices[i], devices[j]));
    }
    if tables::has_status(devices, id, 0) {
        let i = choose|i: int|
            0 <= i < devices.len() && (#[trigger] devices[i]).device_id == id && devices[i].status
                == 0;
        assert(after[i].status == 1 && after[i].device_id == id);
    }
}

/// A revoked device stays registered, is not approved any more, and holds no
/// address.
pub proof fn law_revoked_keeps_its_record(devices: Seq<Device>, id: Seq<char>)
    requires
        tables::consistent(devices),
        tables::has_status(devices, id, 1),
    ensures
        tables::consistent(tables::revoked(devices, id)),
        tables::has_id(tables::revoked(devices, id), id),
        tables::has_status(tables::revoked(devices, id), id, -1i32),
        !tables::has_status(tables::revoked(devices, id), id, 1),
        tables::has_address(tables::revoked(devices, id), id, Seq::empty()),
{
    let after = tables::revoked(devices, id);
    let r = choose|i: int|
        0 <= i < devices.len() && (#[trigger] devices[i]).device_id == id && devices[i].status == 1;
    assert(after[r].device_id == id && after[r].status == -1i32);
    assert(after[r].ipv4 == Seq::<char>::empty());
    assert forall|i: int, j: int| 0 <= i < j < after.len() implies !tables::clash(
        #[trigger] after[i],
        #[trigger] after[j],
    ) by {
        assert(!tables::clash(devices[i], devices[j]));
    }
}

/// The address of a device that is revoked or deleted is not in the pool any
/// more; the addresses of the others are as before.
pub proof fn law_freed_address_leaves_the_pool(
    devices: Seq<Device>,
    entries: Seq<PoolEntry>,
    id: Seq<char>,
    ipv4: Seq<char>,
)
    requires
        pool::distinct(entries),
    ensures
        pool::distinct(entries.filter(tables::not_held_by(devices, id))),
        pool::holds(entries.filter(tables::not_held_by(devices, id)), ipv4) == (pool::holds(
            entries,
            ipv4,
        ) && !tables::has_address(devices, id, ipv4)),
{
    let keep = tables::not_held_by(devices, id);
    lemma_pool_filter(entries, keep);
    lemma_pool_filter_holds(entries, keep, ipv4);
    if pool::holds(entries, ipv4) {
        let i = choose|i: int| 0 <= i < entries.len() && (#[trigger] entries[i]).ipv4 == ipv4;
        assert(keep(entries[i]) == !tables::has_address(devices, id, ipv4));
    }
}

proof fn lemma_pool_filter(entries: Seq<PoolEntry>, keep: spec_fn(PoolEntry) -> bool)
    requires
        pool::distinct(entries),
    ensures
        pool::distinct(entries.filter(keep)),
{
    let rest = entries.filter(keep);
    rows::lemma_filter_origin(entries, keep);
    let from = choose|from: Seq<int>| #[trigger] rows::kept_from(entries, keep, from);
    assert forall|i: int, j: int| 0 <= i < j < rest.len() implies (#[trigger] rest[i]).ipv4 != (
    #[trigger] rest[j]).ipv4 by {
        assert(from[i] < from[j]);
        assert(entries[from[i]].ipv4 != entries[from[j]].ipv4);
    }
}

proof fn lemma_pool_filter_holds(
    entries: Seq<PoolEntry>,
    keep: spec_fn(PoolEntry) -> bool,
    ipv4: Seq<char>,
)
    ensures
        pool::holds(entries.filter(keep), ipv4) <==> exists|i: int|
            0 <= i < entries.len() && (#[trigger] entries[i]).ipv4 == ipv4 && keep(entries[i]),
{
    let rest = entries.filter(keep);
    rows::lemma_filter_origin(entries, keep);
    let from = choose|from: Seq<int>| #[trigger] rows::kept_from(entries, keep, from);
    entries.filter_lemma(keep);
    if pool::holds(rest, ipv4) {
        let k = choose|k: int| 0 <= k < rest.len() && (#[trigger] rest[k]).ipv4 == ipv4;
        assert(entries[from[k]].ipv4 == ipv4 && keep(entries[from[k]]));
    }
    if exists|i: int|
        0 <= i < entries.len() && (#[trigger] entries[i]).ipv4 == ipv4 && keep(entries[i]) {
        let i = choose|i: int|
            0 <= i < entries.len() && (#[trigger] entries[i]).ipv4 == ipv4 && keep(entries[i]);
        assert(rest.contains(entries[i]));
        let k = choose|k: int| 0 <= k < rest.len() && rest[k] == entries[i];
        assert(rest[k].ipv4 == ipv4);
    }
}

proof fn lemma_devices_filter(devices: Seq<Device>, keep: spec_fn(Device) -> bool)
    requires
        tables::consistent(devices),
    ensures
        tables::consistent(devices.filter(keep)),
{
    let rest = devices.filter(keep);
    rows::lemma_filter_origin(devices, keep);
    let from = choose|from: Seq<int>| #[trigger] rows::kept_from(devices, keep, from);
    assert forall|i: int, j: int| 0 <= i < j < rest.len() implies !tables::clash(
        #[trigger] rest[i],
        #[trigger] rest[j],
    ) by {
        assert(from[i] < from[j]);
        assert(!tables::clash(devices[from[i]], devices[from[j]]));
    }
    assert forall|i: int| 0 <= i < rest.len() implies (#[trigger] rest[i]).public_key.len()
        >= PUBLIC_KEY_LEN by {
        assert(devices[from[i]].public_key.len() >= PUBLIC_KEY_LEN);
    }
}

/// A deleted device is gone, and every other device stays.
pub proof fn law_deleted_device_is_gone(devices: Seq<Device>, id: Seq<char>, other: Device)
    requires
        tables::consistent(devices),
    ensures
        tables::consistent(devices.filter(tables::other_than(id))),
        !tables::has_id(devices.filter(tables::other_than(id)), id),
        devices.filter(tables::other_than(id)).contains(other) <==> devices.contains(other)
            && other.device_id != id,
{
    let keep = tables::other_than(id);
    lemma_devices_filter(devices, keep);
    lemma_filter_contains(devices, keep, other);
    devices.filter_lemma(keep);
    let rest = devices.filter(keep);
    if tables::has_id(rest, id) {
        let i = choose|i: int| 0 <= i < rest.len() && (#[trigger] rest[i]).device_id == id;
        assert(keep(rest[i]));
    }
}

proof fn lemma_filter_contains(devices: Seq<Device>, keep: spec_fn(Device) -> bool, d: Device)
    ensures
        devices.filter(keep).contains(d) <==> devices.contains(d) && keep(d),
{
    let rest = devices.filter(keep);
    rows::lemma_filter_origin(devices, keep);
    let from = choose|from: Seq<int>| #[trigger] rows::kept_from(devices, keep, from);
    devices.filter_lemma(keep);
    if rest.contains(d) {
        let i = choose|i: int| 0 <= i < rest.len() && rest[i] == d;
        assert(devices[from[i]] == d && keep(devices[from[i]]));
    }
    if devices.contains(d) && keep(d) {
        let i = choose|i: int| 0 <= i < devices.len() && devices[i] == d;
        assert(rest.contains(devices[i]));
    }
}

/// Purging removes the devices that were not seen for too long, and keeps all
/// others and all approved ones.
pub proof fn law_purge_keeps_approved_and_live(
    devices: Seq<Device>,
    now: i64,
    timeout_secs: i64,
    d: Device,
)
    requires
        tables::consistent(devices),
        devices.contains(d),
    ensures
        tables::consistent(devices.filter(tables::survives(now - timeout_secs))),
        devices.filter(tables::survives(now - timeout_secs)).contains(d) <==> d.status == 1
            || d.last_seen >= now - timeout_secs,
{
    let keep = tables::survives(now - timeout_secs);
    lemma_devices_filter(devices, keep);
    lemma_filter_contains(devices, keep, d);
}

/// A device that has just given a sign of life is not purged.
pub proof fn law_heartbeat_survives_purge(
    devices: Seq<Device>,
    id: Seq<char>,
    now: i64,
    timeout_secs: i64,
    i: int,
)
    requires
        0 <= i < devices.len(),
        devices[i].device_id == id,
        timeout_secs >= 0,
    ensures
        tables::touched(devices, id, now).filter(
            tables::survives(now - timeout_secs),
        ).contains(tables::touched(devices, id, now)[i]),
{
    let after = tables::touched(devices, id, now);
    let keep = tables::survives(now - timeout_secs);
    lemma_filter_contains(after, keep, after[i]);
    assert(after.contains(after[i]));
    assert(keep(after[i]));
}

/// As long as the addresses of the devices are taken in the pool, a new address
/// is that of no device.
pub proof fn law_new_address_is_nobodys(t: Tables, base: u32, max_offset: u32, i: int)
    requires
        t.wf(),
        tables::pooled(t),
        0 <= i < t.devices.len(),
        pool::allocation(t.pool, base, max_offset) is Some,
    ensures
        t.devices[i].ipv4 != pool::allocation(t.pool, base, max_offset)->0.text(),
{
    let ip = pool::allocation(t.pool, base, max_offset)->0;
    if t.devices[i].ipv4 == ip.text() {
        addr::lemma_text_is_not_empty(ip);
        let k = choose|k: int|
            0 <= k < t.pool.len() && (#[trigger] t.pool[k]).ipv4 == t.devices[i].ipv4
                && t.pool[k].allocated != 0;
        pool::law_allocated_was_not_in_use(t.pool, base, max_offset, k);
    }
}

proof fn lemma_still_taken(
    entries: Seq<PoolEntry>,
    keep: spec_fn(PoolEntry) -> bool,
    ipv4: Seq<char>,
)
    requires
        pool::is_taken(entries, ipv4),
        forall|e: PoolEntry| e.ipv4 == ipv4 ==> #[trigger] keep(e),
    ensures
        pool::is_taken(entries.filter(keep), ipv4),
{
    let rest = entries.filter(keep);
    let i = choose|i: int|
        0 <= i < entries.len() && (#[trigger] entries[i]).ipv4 == ipv4 && entries[i].allocated
            != 0;
    entries.filter_lemma(keep);
    assert(keep(entries[i]));
    assert(rest.contains(entries[i]));
    let k = choose|k: int| 0 <= k < rest.len() && rest[k] == entries[i];
    assert(rest[k].ipv4 == ipv4);
}

/// The addresses of the devices stay taken in the pool through signs of life,
/// approving, revoking an approved device, deleting and purging.
pub proof fn law_addresses_stay_taken(t: Tables, id: Seq<char>, now: i64, cutoff: int)
    requires
        t.wf(),
        tables::pooled(t),
    ensures
        tables::pooled(Tables { devices: tables::touched(t.devices, id, now), ..t }),
        tables::pooled(Tables { devices: tables::approved(t.devices, id), ..t }),
        tables::has_status(t.devices, id, 1) ==> tables::pooled(
            Tables {
                devices: tables::revoked(t.devices, id),
                pool: t.pool.filter(tables::not_held_by(t.devices, id)),
                ..t
            },
        ),
        tables::pooled(
            Tables {
                devices: t.devices.filter(tables::other_than(id)),
                pool: t.pool.filter(tables::not_held_by(t.devices, id)),
                ..t
            },
        ),
        tables::pooled(
            Tables {
                devices: t.devices.filter(tables::survives(cutoff)),
                pool: t.pool.filter(tables::not_stale_address(t.devices, cutoff)),
                ..t
            },
        ),
{
    let devices = t.devices;
    let touched = tables::touched(devices, id, now);
    assert forall|i: int|
        0 <= i < touched.len() && (#[trigger] touched[i]).ipv4.len() > 0 implies pool::is_taken(
        t.pool,
        touched[i].ipv4,
    ) by {
        assert(touched[i].ipv4 == devices[i].ipv4);
    }
    let approved = tables::approved(devices, id);
    assert forall|i: int|
        0 <= i < approved.len() && (#[trigger] approved[i]).ipv4.len() > 0 implies pool::is_taken(
        t.pool,
        approved[i].ipv4,
    ) by {
        assert(approved[i].ipv4 == devices[i].ipv4);
    }
    let freed = t.pool.filter(tables::not_held_by(devices, id));
    assert forall|i: int|
        0 <= i < devices.len() && (#[trigger] devices[i]).device_id != id
            && devices[i].ipv4.len() > 0 implies pool::is_taken(freed, devices[i].ipv4) by {
        assert(!tables::has_address(devices, id, devices[i].ipv4)) by {
            lemma_address_is_of_one(devices, i);
        }
        lemma_still_taken(t.pool, tables::not_held_by(devices, id), devices[i].ipv4);
    }
    if tables::has_status(devices, id, 1) {
        let revoked = tables::revoked(devices, id);
        let r = choose|i: int|
            0 <= i < devices.len() && (#[trigger] devices[i]).device_id == id && devices[i].status
                == 1;
        assert forall|i: int|
            0 <= i < revoked.len() && (#[trigger] revoked[i]).ipv4.len()
                > 0 implies pool::is_taken(freed, revoked[i].ipv4) by {
            if devices[i].device_id == id {
                if i < r {
                    assert(!tables::clash(devices[i], devices[r]));
                } else if r < i {
                    assert(!tables::clash(devices[r], devices[i]));
                }
            }
            assert(revoked[i].ipv4 == devices[i].ipv4);
        }
    }
    let others = devices.filter(tables::other_than(id));
    rows::lemma_filter_origin(devices, tables::other_than(id));
    let from = choose|from: Seq<int>| #[trigger]
        rows::kept_from(devices, tables::other_than(id), from);
    assert forall|i: int|
        0 <= i < others.len() && (#[trigger] others[i]).ipv4.len() > 0 implies pool::is_taken(
        freed,
        others[i].ipv4,
    ) by {
        assert(others[i] == devices[from[i]]);
    }
    let live = devices.filter(tables::survives(cutoff));
    rows::lemma_filter_origin(devices, tables::survives(cutoff));
    let from = choose|from: Seq<int>| #[trigger]
        rows::kept_from(devices, tables::survives(cutoff), from);
    assert forall|i: int|
        0 <= i < live.len() && (#[trigger] live[i]).ipv4.len() > 0 implies pool::is_taken(
        t.pool.filter(tables::not_stale_address(devices, cutoff)),
        live[i].ipv4,
    ) by {
        let d = devices[from[i]];
        assert(live[i] == d);
        lemma_address_is_of_one(devices, from[i]);
        assert(!tables::is_stale_address(devices, cutoff, d.ipv4));
        lemma_still_taken(t.pool, tables::not_stale_address(devices, cutoff), d.ipv4);
    }
}

proof fn lemma_address_is_of_one(devices: Seq<Device>, i: int)
    requires
        tables::consistent(devices),
        0 <= i < devices.len(),
        devices[i].ipv4.len() > 0,
    ensures
        forall|j: int|
            0 <= j < devices.len() && (#[trigger] devices[j]).ipv4 == devices[i].ipv4 ==> j == i,
{
    assert forall|j: int|
        0 <= j < devices.len() && (#[trigger] devices[j]).ipv4 == devices[i].ipv4 implies j
        == i by {
        if j < i {
            assert(!tables::clash(devices[j], devices[i]));
        } else if i < j {
            assert(!tables::clash(devices[i], devices[j]));
        }
    }
}

/// Each change to the registry keeps the rules of its tables: registering,
/// signs of life, approving, revoking, deleting and purging.
pub proof fn law_tables_stay_well_formed(
    t: Tables,
    id: Seq<char>,
    now: i64,
    cutoff: int,
)
    requires
        t.wf(),
    ensures
        (Tables { devices: tables::touched(t.devices, id, now), ..t }).wf(),
        (Tables { devices: tables::approved(t.devices, id), ..t }).wf(),
        (Tables { pool: t.pool.filter(tables::not_held_by(t.devices, id)), ..t }).wf(),
        tables::has_status(t.devices, id, 1) ==> (Tables {
            devices: tables::revoked(t.devices, id),
            pool: t.pool.filter(tables::not_held_by(t.devices, id)),
            ..t
        }).wf(),
        (Tables {
            devices: t.devices.filter(tables::other_than(id)),
            pool: t.pool.filter(tables::not_held_by(t.devices, id)),
            ..t
        }).wf(),
        (Tables {
            devices: t.devices.filter(tables::survives(cutoff)),
            pool: t.pool.filter(tables::not_stale_address(t.devices, cutoff)),
            ..t
        }).wf(),
{
    law_heartbeat_changes_one_time(t.devices, id, now);
    law_approved_once(t.devices, id);
    lemma_pool_filter(t.pool, tables::not_held_by(t.devices, id));
    lemma_pool_filter(t.pool, tables::not_stale_address(t.devices, cutoff));
    lemma_devices_filter(t.devices, tables::other_than(id));
    lemma_devices_filter(t.devices, tables::survives(cutoff));
    if tables::has_status(t.devices, id, 1) {
        law_revoked_keeps_its_record(t.devices, id);
    }
}

/// Approving a device changes nothing but its status, and that only if it was
/// pending; every other device stays exactly as it was.
pub proof fn law_approving_changes_one_status(devices: Seq<Device>, id: Seq<char>)
    ensures
        tables::approved(devices, id).len() == devices.len(),
        forall|i: int|
            0 <= i < devices.len() && (#[trigger] devices[i]).device_id != id ==> tables::approved(
                devices,
                id,
            )[i] == devices[i],
        forall|i: int|
            0 <= i < devices.len() && (#[trigger] devices[i]).device_id == id ==> {
                let after = tables::approved(devices, id)[i];
                &&& devices[i].status == 0 ==> after.status == 1
                &&& devices[i].status != 0 ==> after.status == devices[i].status
                &&& after.device_id == id
                &&& after.public_key == devices[i].public_key
                &&& after.hostname == devices[i].hostname
                &&& after.ipv4 == devices[i].ipv4
                &&& after.created_at == devices[i].created_at
                &&& after.last_seen == devices[i].last_seen
            },
{
}

/// Revoking an approved device takes its address and its approval, and nothing
/// else; every other device, and one that is not approved, stays exactly as it
/// was.
pub proof fn law_revoking_changes_one_device(devices: Seq<Device>, id: Seq<char>)
    ensures
        tables::revoked(devices, id).len() == devices.len(),
        forall|i: int|
            0 <= i < devices.len() && ((#[trigger] devices[i]).device_id != id || devices[i].status
                != 1) ==> tables::revoked(devices, id)[i] == devices[i],
        forall|i: int|
            0 <= i < devices.len() && (#[trigger] devices[i]).device_id == id && devices[i].status
                == 1 ==> {
                let after = tables::revoked(devices, id)[i];
                &&& after.status == -1
                &&& after.ipv4.len() == 0
                &&& after.device_id == id
                &&& after.public_key == devices[i].public_key
                &&& after.hostname == devices[i].hostname
                &&& after.created_at == devices[i].created_at
                &&& after.last_seen == devices[i].last_seen
            },
{
}

/// Revoking or deleting a device takes its own address out of the pool, and
/// leaves every other entry as it is.
pub proof fn law_only_its_own_address_is_freed(
    devices: Seq<Device>,
    entries: Seq<PoolEntry>,
    id: Seq<char>,
    entry: PoolEntry,
)
    ensures
        entries.filter(tables::not_held_by(devices, id)).contains(entry) <==> entries.contains(
            entry,
        ) && forall|i: int|
            0 <= i < devices.len() && (#[trigger] devices[i]).device_id == id ==> devices[i].ipv4
                != entry.ipv4,
{
    let keep = tables::not_held_by(devices, id);
    lemma_entries_filter_contains(entries, keep, entry);
    assert(keep(entry) == !tables::has_address(devices, id, entry.ipv4));
}

proof fn lemma_entries_filter_contains(
    entries: Seq<PoolEntry>,
    keep: spec_fn(PoolEntry) -> bool,
    e: PoolEntry,
)
    ensures
        entries.filter(keep).contains(e) <==> entries.contains(e) && keep(e),
{
    let rest = entries.filter(keep);
    rows::lemma_filter_origin(entries, keep);
    let from = choose|from: Seq<int>| #[trigger] rows::kept_from(entries, keep, from);
    entries.filter_lemma(keep);
    if rest.contains(e) {
        let i = choose|i: int| 0 <= i < rest.len() && rest[i] == e;
        assert(entries[from[i]] == e && keep(entries[from[i]]));
    }
    if entries.contains(e) && keep(e) {
        let i = choose|i: int| 0 <= i < entries.len() && entries[i] == e;
        assert(rest.contains(entries[i]));
    }
}

/// Purging takes the addresses of the devices that are not approved and were
/// last seen before the cutoff out of the pool, and leaves every other entry as
/// it is.
pub proof fn law_purge_frees_the_addresses_of_the_purged(
    devices: Seq<Device>,
    entries: Seq<PoolEntry>,
    cutoff: int,
    entry: PoolEntry,
)
    ensures
        entries.filter(tables::not_stale_address(devices, cutoff)).contains(entry)
            <==> entries.contains(entry) && forall|i: int|
            0 <= i < devices.len() && (#[trigger] devices[i]).ipv4 == entry.ipv4
                ==> devices[i].status == 1 || devices[i].last_seen >= cutoff,
{
    let keep = tables::not_stale_address(devices, cutoff);
    lemma_entries_filter_contains(entries, keep, entry);
    assert(keep(entry) == !tables::is_stale_address(devices, cutoff, entry.ipv4));
}

/// What stays when devices are deleted or purged keeps its order.
pub proof fn law_devices_keep_their_order(devices: Seq<Device>, id: Seq<char>, cutoff: int)
    ensures
        is_subsequence(devices.filter(tables::other_than(id)), devices),
        is_subsequence(devices.filter(tables::survives(cutoff)), devices),
{
    rows::lemma_filter_origin(devices, tables::other_than(id));
    let from = choose|from: Seq<int>| #[trigger]
        rows::kept_from(devices, tables::other_than(id), from);
    assert(drawn_from(devices.filter(tables::other_than(id)), devices, from));
    rows::lemma_filter_origin(devices, tables::survives(cutoff));
    let from = choose|from: Seq<int>| #[trigger]
        rows::kept_from(devices, tables::survives(cutoff), from);
    assert(drawn_from(devices.filter(tables::survives(cutoff)), devices, from));
}

/// Whether `part` is what stands at the places `from` of `whole`, from left to
/// right.
pub open spec fn drawn_from(part: Seq<Device>, whole: Seq<Device>, from: Seq<int>) -> bool {
    &&& from.len() == part.len()
    &&& forall|i: int| 0 <= i < part.len() ==> 0 <= #[trigger] from[i] < whole.len()
    &&& forall|i: int| 0 <= i < part.len() ==> part[i] == whole[#[trigger] from[i]]
    &&& forall|i: int, j: int| 0 <= i < j < part.len() ==> #[trigger] from[i] < #[trigger] from[j]
}

/// Whether `part` can be had from `whole` by leaving devices out.
pub open spec fn is_subsequence(part: Seq<Device>, whole: Seq<Device>) -> bool {
    exists|from: Seq<int>| #[trigger] drawn_from(part, whole, from)
}

/// A device is turned away for exactly these reasons: another has its
/// identifier, its public key, or its address.
pub proof fn law_what_stands_in_the_way(devices: Seq<Device>, device: Device)
    ensures
        tables::clashes(devices, device) <==> exists|i: int|
            0 <= i < devices.len() && {
                ||| (#[trigger] devices[i]).device_id == device.device_id
                ||| devices[i].public_key == device.public_key
                ||| devices[i].ipv4 == device.ipv4 && device.ipv4.len() > 0
            },
{
    if tables::clashes(devices, device) {
        let i = choose|i: int|
            0 <= i < devices.len() && tables::clash(#[trigger] devices[i], device);
        assert(devices[i].device_id == device.device_id || devices[i].public_key
            == device.public_key || devices[i].ipv4 == device.ipv4);
    }
    if exists|i: int|
        0 <= i < devices.len() && {
            ||| (#[trigger] devices[i]).device_id == device.device_id
            ||| devices[i].public_key == device.public_key
            ||| devices[i].ipv4 == device.ipv4 && device.ipv4.len() > 0
        } {
        let i = choose|i: int|
            0 <= i < devices.len() && {
                ||| (#[trigger] devices[i]).device_id == device.device_id
                ||| devices[i].public_key == device.public_key
                ||| devices[i].ipv4 == device.ipv4 && device.ipv4.len() > 0
            };
        assert(tables::clash(devices[i], device));
    }
}

/// In tables that keep their rules no two devices have the same identifier,
/// public key or address, and each has a whole key.
pub proof fn law_devices_share_nothing(t: Tables, i: int, j: int)
    requires
        t.wf(),
        0 <= i < t.devices.len(),
        0 <= j < t.devices.len(),
    ensures
        t.devices[i].public_key.len() >= 32,
        i != j ==> {
            &&& t.devices[i].device_id != t.devices[j].device_id
            &&& t.devices[i].public_key != t.devices[j].public_key
            &&& t.devices[i].ipv4 != t.devices[j].ipv4 || t.devices[i].ipv4.len() == 0
        },
{
    if i < j {
        assert(!tables::clash(t.devices[i], t.devices[j]));
    } else if j < i {
        assert(!tables::clash(t.devices[j], t.devices[i]));
    }
}

/// A list of devices holds the devices with the given status, or all devices if
/// none is given, and no others, the oldest registration first.
pub proof fn law_list_holds_the_devices_of_a_status(
    devices: Seq<Device>,
    status: Option<i32>,
    out: Seq<Record>,
    k: int,
)
    requires
        order::listing(tables::records(devices), tables::by_age(devices, status), out),
    ensures
        0 <= k < out.len() ==> exists|i: int|
            0 <= i < devices.len() && (status is None || (#[trigger] devices[i]).status
                == status->0) && out[k] == devices[i].record(),
        forall|i: int|
            0 <= i < devices.len() && (status is None || (#[trigger] devices[i]).status
                == status->0) ==> out.contains(devices[i].record()),
        forall|k: int, l: int|
            0 <= k < l < out.len() ==> (#[trigger] out[k]).created_at <= (
            #[trigger] out[l]).created_at,
        status is None ==> out.len() == devices.len(),
{
    let rows = tables::records(devices);
    let keys = tables::by_age(devices, status);
    let places = order::law_listing_goes_by_the_keys(rows, keys, out);
    if 0 <= k < out.len() {
        let i = places[k];
        assert(keys[i] is Some);
        assert(out[k] == devices[i].record());
    }
    assert forall|i: int|
        0 <= i < devices.len() && (status is None || (#[trigger] devices[i]).status
            == status->0) implies out.contains(devices[i].record()) by {
        assert(keys[i] is Some);
        let a = choose|a: int| 0 <= a < out.len() && #[trigger] places[a] == i;
        assert(out[a] == devices[i].record());
    }
    assert forall|k: int, l: int| 0 <= k < l < out.len() implies (#[trigger] out[k]).created_at <= (
    #[trigger] out[l]).created_at by {
        let i = places[k];
        let j = places[l];
        assert(keys[i]->0 <= keys[j]->0);
        assert(keys[i] == Some(devices[i].created_at as i128));
        assert(keys[j] == Some(devices[j].created_at as i128));
    }
    if status is None {
        assert forall|i: int| 0 <= i < devices.len() implies #[trigger] places.contains(i) by {
            assert(keys[i] is Some);
            let a = choose|a: int| 0 <= a < out.len() && #[trigger] places[a] == i;
        }
        lemma_all_places(places, devices.len());
    }
}

proof fn lemma_all_places(places: Seq<int>, n: nat)
    requires
        forall|a: int| 0 <= a < places.len() ==> 0 <= #[trigger] places[a] < n,
        forall|i: int| 0 <= i < n ==> #[trigger] places.contains(i),
        forall|a: int, b: int|
            0 <= a < b < places.len() ==> #[trigger] places[a] != #[trigger] places[b],
    ensures
        places.len() == n,
{
    let all = vstd::set_lib::set_int_range(0, n as int);
    vstd::set_lib::lemma_int_range(0, n as int);
    assert(places.no_duplicates());
    places.unique_seq_to_set();
    assert(places.to_set() =~= all) by {
        assert forall|i: int| all.contains(i) implies places.to_set().contains(i) by {
            assert(places.contains(i));
        }
    }
}

/// The names that are resolved are those of the approved devices that have a
/// name and an address, each with that device's address, in the order in which
/// they stand in the table.
pub proof fn law_names_are_those_of_approved_devices(
    devices: Seq<Device>,
    out: Seq<(Seq<char>, Seq<char>)>,
    k: int,
    i: int,
)
    requires
        order::listing(tables::names(devices), tables::resolved(devices), out),
    ensures
        0 <= k < out.len() ==> exists|i: int|
            0 <= i < devices.len() && (#[trigger] devices[i]).status == 1
                && devices[i].hostname.len() > 0 && devices[i].ipv4.len() > 0 && out[k] == (
                devices[i].hostname,
                devices[i].ipv4,
            ),
        0 <= i < devices.len() && devices[i].status == 1 && devices[i].hostname.len() > 0
            && devices[i].ipv4.len() > 0 ==> out.contains((devices[i].hostname, devices[i].ipv4)),
{
    let rows = tables::names(devices);
    let keys = tables::resolved(devices);
    let places = order::law_listing_goes_by_the_keys(rows, keys, out);
    if 0 <= k < out.len() {
        assert(keys[places[k]] is Some);
        assert(devices[places[k]].status == 1);
    }
    if 0 <= i < devices.len() && devices[i].status == 1 && devices[i].hostname.len() > 0
        && devices[i].ipv4.len() > 0 {
        assert(keys[i] is Some);
        let a = choose|a: int| 0 <= a < out.len() && #[trigger] places[a] == i;
        assert(out[a] == (devices[i].hostname, devices[i].ipv4));
    }
}

/// A device is found by its identifier whatever its status, and by its identifier
/// and its status only if it has both.
pub proof fn law_devices_are_found_by_identifier(
    devices: Seq<Device>,
    id: Seq<char>,
    status: i32,
)
    ensures
        tables::has_id(devices, id) <==> !forall|i: int|
            0 <= i < devices.len() ==> (#[trigger] devices[i]).device_id != id,
        tables::has_status(devices, id, status) <==> !forall|i: int|
            0 <= i < devices.len() && (#[trigger] devices[i]).device_id == id ==> devices[i].status
                != status,
        tables::has_status(devices, id, status) ==> tables::has_id(devices, id),
{
}

/// Tables in which nothing is entered twice keep their rules, whatever else they
/// hold.
pub proof fn law_tables_without_duplicates_are_well_formed(t: Tables)
    requires
        forall|i: int, j: int|
            0 <= i < j < t.devices.len() ==> {
                &&& (#[trigger] t.devices[i]).device_id != (#[trigger] t.devices[j]).device_id
                &&& t.devices[i].public_key != t.devices[j].public_key
                &&& t.devices[i].ipv4 != t.devices[j].ipv4 || t.devices[i].ipv4.len() == 0
            },
        forall|i: int| 0 <= i < t.devices.len() ==> (#[trigger] t.devices[i]).public_key.len() >= 32,
        forall|i: int, j: int|
            0 <= i < j < t.pool.len() ==> (#[trigger] t.pool[i]).ipv4 != (#[trigger] t.pool[j]).ipv4,
        forall|i: int, j: int|
            0 <= i < j < t.candidates.len() ==> (#[trigger] t.candidates[i]).device_id != (
            #[trigger] t.candidates[j]).device_id || t.candidates[i].address
                != t.candidates[j].address,
        forall|i: int, j: int|
            0 <= i < j < t.rules.len() ==> (#[trigger] t.rules[i]).id != (#[trigger] t.rules[j]).id,
    ensures
        t.wf(),
{
}

/// In tables that keep their rules no address stands in the pool twice, no device
/// has published an address twice, and no two rules have the same number.
pub proof fn law_nothing_is_entered_twice(t: Tables, i: int, j: int)
    requires
        t.wf(),
        0 <= i < j,
    ensures
        j < t.pool.len() ==> t.pool[i].ipv4 != t.pool[j].ipv4,
        j < t.candidates.len() ==> t.candidates[i].device_id != t.candidates[j].device_id
            || t.candidates[i].address != t.candidates[j].address,
        j < t.rules.len() ==> t.rules[i].id != t.rules[j].id,
{
    if j < t.candidates.len() {
        assert(!t.candidates[i].is_of(t.candidates[j].device_id, t.candidates[j].address));
    }
}

/// Approving a device makes it approved if it was pending, which is what the
/// result tells, and changes nothing else: no other device, and nothing but the
/// status of this one.
pub proof fn law_approve_device(registry: &mut Registry, device_id: PeerId, ok: bool)
    requires
        call_ensures(Registry::approve_device, (registry, device_id), ok),
    ensures
        ok <==> exists|i: int|
            0 <= i < old(registry)@.devices.len() && (#[trigger] old(registry)@.devices[i]).device_id == device_id.text() && old(registry)@.devices[i].status == 0,
        final(registry)@.devices.len() == old(registry)@.devices.len(),
        forall|i: int|
            0 <= i < old(registry)@.devices.len() ==> (#[trigger] final(registry)@.devices[i])
                == (Device {
                status: if old(registry)@.devices[i].device_id == device_id.text() && old(registry)@.devices[i].status == 0 {
                    1
                } else {
                    old(registry)@.devices[i].status
                },
                ..old(registry)@.devices[i]
            }),
        final(registry)@.pool == old(registry)@.pool,
        final(registry)@.candidates == old(registry)@.candidates,
        final(registry)@.rules == old(registry)@.rules,
{
}

/// Revoking a device takes the approval and the address of that device alone. Of
/// the pool only the entry of its address goes.
pub proof fn law_revoke_device(
    registry: &mut Registry,
    device_id: PeerId,
    r: Result<bool, RegistryError>,
    entry: PoolEntry,
)
    requires
        call_ensures(Registry::revoke_device, (registry, device_id), r),
    ensures
        r matches Ok(ok) && (ok <==> exists|i: int|
            0 <= i < old(registry)@.devices.len() && (#[trigger] old(registry)@.devices[i]).device_id == device_id.text() && old(registry)@.devices[i].status == 1),
        final(registry)@.devices.len() == old(registry)@.devices.len(),
        forall|i: int|
            0 <= i < old(registry)@.devices.len() ==> {
                let was = old(registry)@.devices[i];
                let is_meant = was.device_id == device_id.text() && was.status == 1;
                &&& !is_meant ==> (#[trigger] final(registry)@.devices[i]) == was
                &&& is_meant ==> final(registry)@.devices[i] == (Device {
                    status: -1i32,
                    ipv4: Seq::empty(),
                    ..was
                })
            },
        final(registry)@.pool.contains(entry) <==> old(registry)@.pool.contains(entry) && forall|
            i: int,
        |
            0 <= i < old(registry)@.devices.len() && (#[trigger] old(registry)@.devices[i]).device_id == device_id.text() ==> old(registry)@.devices[i].ipv4
                != entry.ipv4,
        final(registry)@.candidates == old(registry)@.candidates,
        final(registry)@.rules == old(registry)@.rules,
{
    law_only_its_own_address_is_freed(
        old(registry)@.devices,
        old(registry)@.pool,
        device_id.text(),
        entry,
    );
}

/// Deleting a device removes that device alone, and its address from the pool.
pub proof fn law_delete_device(
    registry: &mut Registry,
    device_id: PeerId,
    deleted: bool,
    d: Device,
    entry: PoolEntry,
)
    requires
        call_ensures(Registry::delete_device, (registry, device_id), deleted),
    ensures
        deleted <==> exists|i: int|
            0 <= i < old(registry)@.devices.len() && (#[trigger] old(registry)@.devices[i]).device_id == device_id.text(),
        final(registry)@.devices.contains(d) <==> old(registry)@.devices.contains(d) && d.device_id
            != device_id.text(),
        is_subsequence(final(registry)@.devices, old(registry)@.devices),
        final(registry)@.pool.contains(entry) <==> old(registry)@.pool.contains(entry) && forall|
            i: int,
        |
            0 <= i < old(registry)@.devices.len() && (#[trigger] old(registry)@.devices[i]).device_id == device_id.text() ==> old(registry)@.devices[i].ipv4
                != entry.ipv4,
        final(registry)@.candidates == old(registry)@.candidates,
        final(registry)@.rules == old(registry)@.rules,
{
    let id = device_id.text();
    lemma_filter_contains(old(registry)@.devices, tables::other_than(id), d);
    law_devices_keep_their_order(old(registry)@.devices, id, 0);
    law_only_its_own_address_is_freed(old(registry)@.devices, old(registry)@.pool, id, entry);
}

/// Purging removes the devices that are not approved and were not seen for longer
/// than the timeout, and their addresses from the pool, and counts them.
pub proof fn law_purge_stale(
    registry: &mut Registry,
    now: i64,
    timeout_secs: i64,
    count: usize,
    d: Device,
    entry: PoolEntry,
)
    requires
        call_ensures(Registry::purge_stale, (registry, now, timeout_secs), count),
    ensures
        count + final(registry)@.devices.len() == old(registry)@.devices.len(),
        final(registry)@.devices.contains(d) <==> old(registry)@.devices.contains(d) && (d.status
            == 1 || now - d.last_seen <= timeout_secs),
        is_subsequence(final(registry)@.devices, old(registry)@.devices),
        final(registry)@.pool.contains(entry) <==> old(registry)@.pool.contains(entry) && forall|
            i: int,
        |
            0 <= i < old(registry)@.devices.len() && (#[trigger] old(registry)@.devices[i]).ipv4
                == entry.ipv4 ==> old(registry)@.devices[i].status == 1 || now - old(registry)@.devices[i].last_seen <= timeout_secs,
        final(registry)@.candidates == old(registry)@.candidates,
        final(registry)@.rules == old(registry)@.rules,
{
    let cutoff = now - timeout_secs;
    lemma_filter_contains(old(registry)@.devices, tables::survives(cutoff), d);
    law_devices_keep_their_order(old(registry)@.devices, Seq::empty(), cutoff);
    law_purge_frees_the_addresses_of_the_purged(
        old(registry)@.devices,
        old(registry)@.pool,
        cutoff,
        entry,
    );
}

/// A sign of life sets the time at which that device was last seen, and changes
/// nothing else.
pub proof fn law_heartbeat(registry: &mut Registry, device_id: PeerId, now: i64, ok: bool)
    requires
        call_ensures(Registry::heartbeat, (registry, device_id, now), ok),
    ensures
        ok <==> exists|i: int|
            0 <= i < old(registry)@.devices.len() && (#[trigger] old(registry)@.devices[i]).device_id == device_id.text(),
        final(registry)@.devices.len() == old(registry)@.devices.len(),
        forall|i: int|
            0 <= i < old(registry)@.devices.len() ==> (#[trigger] final(registry)@.devices[i])
                == (Device {
                last_seen: if old(registry)@.devices[i].device_id == device_id.text() {
                    now
                } else {
                    old(registry)@.devices[i].last_seen
                },
                ..old(registry)@.devices[i]
            }),
        final(registry)@.pool == old(registry)@.pool,
        final(registry)@.candidates == old(registry)@.candidates,
        final(registry)@.rules == old(registry)@.rules,
{
}

/// A device is added behind all others, as it was given, unless another has its
/// identifier, its public key or its address; then nothing changes.
pub proof fn law_insert_device(
    registry: &mut Registry,
    dev: DeviceRecord,
    r: Result<(), RegistryError>,
)
    requires
        call_ensures(Registry::insert_device, (registry, &dev), r),
    ensures
        r is Err <==> exists|i: int|
            0 <= i < old(registry)@.devices.len() && {
                ||| (#[trigger] old(registry)@.devices[i]).device_id == dev.device_id.text()
                ||| old(registry)@.devices[i].public_key == dev.public_key@
                ||| old(registry)@.devices[i].ipv4 == dev.ipv4.text()
            },
        r is Err ==> final(registry)@ == old(registry)@,
        r is Ok ==> {
            let after = final(registry)@.devices;
            &&& after.drop_last() == old(registry)@.devices
            &&& after.last().device_id == dev.device_id.text()
            &&& after.last().public_key == dev.public_key@
            &&& after.last().hostname == dev.hostname@
            &&& after.last().ipv4 == dev.ipv4.text()
            &&& after.last().created_at == dev.created_at
            &&& after.last().last_seen == dev.last_seen
            &&& final(registry)@.pool == old(registry)@.pool
            &&& final(registry)@.candidates == old(registry)@.candidates
            &&& final(registry)@.rules == old(registry)@.rules
        },
{
    let devices = old(registry)@.devices;
    let row = dev@.row();
    addr::lemma_text_is_not_empty(dev.ipv4);
    law_what_stands_in_the_way(devices, row);
    assert(devices.push(row).drop_last() =~= devices);
}

/// The list of approved devices holds approved devices alone, and all of them; the
/// list of pending ones those that wait for approval, and all of them; the list of
/// all devices has as many entries as there are devices. Each goes by the time of
/// registration.
pub proof fn law_lists_of_devices(
    registry: Registry,
    approved: Vec<DeviceRecord>,
    pending: Vec<DeviceRecord>,
    all: Vec<DeviceRecord>,
    k: int,
    i: int,
)
    requires
        registry@.wf(),
        call_ensures(Registry::list_approved, (&registry,), approved),
        call_ensures(Registry::list_pending, (&registry,), pending),
        call_ensures(Registry::list_all, (&registry,), all),
    ensures
        0 <= k < approved@.len() ==> approved@[k].status == DeviceStatus::Approved,
        0 <= k < pending@.len() ==> pending@[k].status == DeviceStatus::Pending,
        all@.len() == registry@.devices.len(),
        0 <= i < registry@.devices.len() && registry@.devices[i].status == 1 ==> exists|n: int|
            0 <= n < approved@.len() && (#[trigger] approved@[n])@ == registry@.devices[i].record(),
        0 <= i < registry@.devices.len() && registry@.devices[i].status == 0 ==> exists|n: int|
            0 <= n < pending@.len() && (#[trigger] pending@[n])@ == registry@.devices[i].record(),
        forall|a: int, b: int|
            0 <= a < b < approved@.len() ==> (#[trigger] approved@[a]).created_at <= (
            #[trigger] approved@[b]).created_at,
        forall|a: int, b: int|
            0 <= a < b < pending@.len() ==> (#[trigger] pending@[a]).created_at <= (
            #[trigger] pending@[b]).created_at,
        forall|a: int, b: int|
            0 <= a < b < all@.len() ==> (#[trigger] all@[a]).created_at <= (
            #[trigger] all@[b]).created_at,
{
    let devices = registry@.devices;
    let a = rows::contents(approved@);
    let p = rows::contents(pending@);
    let l = rows::contents(all@);
    law_list_holds_the_devices_of_a_status(devices, Some(1), a, k);
    law_list_holds_the_devices_of_a_status(devices, Some(0), p, k);
    law_list_holds_the_devices_of_a_status(devices, None, l, k);
    if 0 <= k < approved@.len() {
        assert(a[k] == approved@[k]@);
    }
    if 0 <= k < pending@.len() {
        assert(p[k] == pending@[k]@);
    }
    if 0 <= i < devices.len() && devices[i].status == 1 {
        let n = choose|n: int| 0 <= n < a.len() && a[n] == devices[i].record();
        assert(approved@[n]@ == devices[i].record());
    }
    if 0 <= i < devices.len() && devices[i].status == 0 {
        let n = choose|n: int| 0 <= n < p.len() && p[n] == devices[i].record();
        assert(pending@[n]@ == devices[i].record());
    }
    assert forall|x: int, y: int| 0 <= x < y < approved@.len() implies (
    #[trigger] approved@[x]).created_at <= (#[trigger] approved@[y]).created_at by {
        assert(a[x].created_at <= a[y].created_at);
    }
    assert forall|x: int, y: int| 0 <= x < y < pending@.len() implies (
    #[trigger] pending@[x]).created_at <= (#[trigger] pending@[y]).created_at by {
        assert(p[x].created_at <= p[y].created_at);
    }
    assert forall|x: int, y: int| 0 <= x < y < all@.len() implies (#[trigger] all@[x]).created_at
        <= (#[trigger] all@[y]).created_at by {
        assert(l[x].created_at <= l[y].created_at);
    }
}

} // verus!
