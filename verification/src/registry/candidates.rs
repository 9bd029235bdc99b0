//! The candidate addresses that devices publish for each other.

use vstd::prelude::*;

use crate::registry::order;
use crate::registry::rows;
use crate::relay_proto::PeerId;
use crate::text;

verus! {

/// A row of the candidate table.
#[derive(Debug, Clone)]
pub struct CandidateRow {
    pub device_id: String,
    pub address: String,
    pub updated_at: i64,
}

/// The contents of a row of the candidate table.
#[verifier::ext_equal]
pub struct CandidateEntry {
    pub device_id: Seq<char>,
    pub address: Seq<char>,
    pub updated_at: i64,
}

impl View for CandidateRow {
    type V = CandidateEntry;

    open spec fn view(&self) -> CandidateEntry {
        CandidateEntry {
            device_id: self.device_id@,
            address: self.address@,
            updated_at: self.updated_at,
        }
    }
}

/// The candidate table.
#[derive(Debug, Clone)]
pub struct CandidateTable {
    pub rows: Vec<CandidateRow>,
}

impl View for CandidateTable {
    type V = Seq<CandidateEntry>;

    open spec fn view(&self) -> Seq<CandidateEntry> {
        rows::contents(self.rows@)
    }
}

impl CandidateEntry {
    /// Whether the entry is of that address of that device.
    pub open spec fn is_of(self, device_id: Seq<char>, address: Seq<char>) -> bool {
        self.device_id == device_id && self.address == address
    }
}

/// No address of a device stands in the table twice.
pub open spec fn distinct(table: Seq<CandidateEntry>) -> bool {
    forall|i: int, j: int|
        0 <= i < j < table.len() ==> !(#[trigger] table[i]).is_of(
            (#[trigger] table[j]).device_id,
            table[j].address,
        )
}

/// Whether the table holds that address of that device.
pub open spec fn holds(
    table: Seq<CandidateEntry>,
    device_id: Seq<char>,
    address: Seq<char>,
) -> bool {
    exists|i: int| 0 <= i < table.len() && (#[trigger] table[i]).is_of(device_id, address)
}

/// The table after an address was published: the entry is as new as `now`, and
/// is added where there was none.
pub open spec fn published(
    table: Seq<CandidateEntry>,
    device_id: Seq<char>,
    address: Seq<char>,
    now: i64,
) -> Seq<CandidateEntry> {
    if holds(table, device_id, address) {
        Seq::new(
            table.len(),
            |i: int|
                if table[i].is_of(device_id, address) {
                    CandidateEntry { updated_at: now, ..table[i] }
                } else {
                    table[i]
                },
        )
    } else {
        table.push(CandidateEntry { device_id, address, updated_at: now })
    }
}

/// The table after several addresses were published, one after the other.
pub open spec fn all_published(
    table: Seq<CandidateEntry>,
    device_id: Seq<char>,
    addresses: Seq<Seq<char>>,
    now: i64,
) -> Seq<CandidateEntry>
    decreases addresses.len(),
{
    if addresses.len() == 0 {
        table
    } else {
        published(
            all_published(table, device_id, addresses.drop_last(), now),
            device_id,
            addresses.last(),
            now,
        )
    }
}

/// The addresses that the table holds.
pub open spec fn addresses(table: Seq<CandidateEntry>) -> Seq<Seq<char>> {
    Seq::new(table.len(), |i: int| table[i].address)
}

/// The entries of a device, newest first.
pub open spec fn newest_first(
    table: Seq<CandidateEntry>,
    device_id: Seq<char>,
) -> Seq<Option<i128>> {
    Seq::new(
        table.len(),
        |i: int|
            if table[i].device_id == device_id {
                Some((-(table[i].updated_at as int)) as i128)
            } else {
                None
            },
    )
}

/// Entries that were published at `cutoff` or later.
pub open spec fn not_before(cutoff: int) -> spec_fn(CandidateEntry) -> bool {
    |e: CandidateEntry| e.updated_at >= cutoff
}

impl CandidateTable {
    /// An empty table.
    pub fn new() -> (table: Self)
        ensures
            table@ == Seq::<CandidateEntry>::empty(),
    {
        let table = CandidateTable { rows: Vec::new() };
        assert(table@ =~= Seq::<CandidateEntry>::empty());
        table
    }

    /// Whether no address of a device stands in the table twice.
    pub fn is_distinct(&self) -> (ok: bool)
        ensures
            ok == distinct(self@),
    {
        let mut j: usize = 0;
        while j < self.rows.len()
            invariant
                j <= self.rows@.len(),
                forall|a: int, b: int|
                    0 <= a < b < j ==> !(#[trigger] self@[a]).is_of(
                        (#[trigger] self@[b]).device_id,
                        self@[b].address,
                    ),
            decreases self.rows@.len() - j,
        {
            let mut i: usize = 0;
            while i < j
                invariant
                    i <= j < self.rows@.len(),
                    forall|a: int|
                        0 <= a < i ==> !(#[trigger] self@[a]).is_of(
                            self@[j as int].device_id,
                            self@[j as int].address,
                        ),
                decreases j - i,
            {
                if text::same(self.rows[i].device_id.as_str(), self.rows[j].device_id.as_str())
                    && text::same(self.rows[i].address.as_str(), self.rows[j].address.as_str()) {
                    assert(self@[i as int].is_of(
                        self@[j as int].device_id,
                        self@[j as int].address,
                    ));
                    return false;
                }
                i = i + 1;
            }
            j = j + 1;
        }
        true
    }

    /// Upsert a candidate address record.
    pub fn upsert_candidate(&mut self, device_id: PeerId, address: &str, now: i64)
        ensures
            final(self)@ == published(old(self)@, device_id.text(), address@, now),
    {
        let id: String = device_id.to_string();
        let ghost all = self@;
        let mut found: bool = false;
        let mut i: usize = 0;
        while i < self.rows.len()
            invariant
                i <= self.rows@.len() == all.len(),
                id@ == device_id.text(),
                found <==> exists|j: int|
                    0 <= j < i && (#[trigger] all[j]).is_of(id@, address@),
                forall|j: int|
                    0 <= j < i ==> #[trigger] self@[j] == if all[j].is_of(id@, address@) {
                        CandidateEntry { updated_at: now, ..all[j] }
                    } else {
                        all[j]
                    },
                forall|j: int| i <= j < all.len() ==> #[trigger] self@[j] == all[j],
            decreases self.rows@.len() - i,
        {
            let ghost before = self@;
            assert(self@[i as int] == all[i as int]);
            if text::same(self.rows[i].device_id.as_str(), id.as_str()) && text::same(
                self.rows[i].address.as_str(),
                address,
            ) {
                found = true;
                assert(all[i as int].is_of(id@, address@));
                let row = CandidateRow {
                    device_id: self.rows[i].device_id.clone(),
                    address: self.rows[i].address.clone(),
                    updated_at: now,
                };
                self.rows.set(i, row);
                assert(self@ =~= before.update(
                    i as int,
                    CandidateEntry { updated_at: now, ..all[i as int] },
                ));
            }
            i = i + 1;
        }
        if found {
            assert(self@ =~= published(all, id@, address@, now));
        } else {
            assert(self@ =~= all);
            self.rows.push(
                CandidateRow { device_id: id, address: address.to_owned(), updated_at: now },
            );
            assert(self@ =~= published(all, id@, address@, now));
        }
    }

    /// Publish all candidate addresses of a device.
    pub fn publish(&mut self, device_id: PeerId, candidates: &Vec<String>, now: i64)
        ensures
            final(self)@ == all_published(
                old(self)@,
                device_id.text(),
                text::texts(candidates@),
                now,
            ),
    {
        let ghost list = text::texts(candidates@);
        let mut i: usize = 0;
        assert(list.subrange(0, 0) =~= Seq::empty());
        while i < candidates.len()
            invariant
                i <= candidates@.len(),
                list == text::texts(candidates@),
                self@ == all_published(
                    old(self)@,
                    device_id.text(),
                    list.subrange(0, i as int),
                    now,
                ),
            decreases candidates@.len() - i,
        {
            self.upsert_candidate(device_id, candidates[i].as_str(), now);
            assert(list.subrange(0, i + 1).drop_last() =~= list.subrange(0, i as int));
            i = i + 1;
        }
        assert(list.subrange(0, i as int) =~= list);
    }

    /// Get all candidate addresses for a device.
    pub fn get_candidates(&self, device_id: PeerId) -> (out: Vec<String>)
        ensures
            order::listing(
                addresses(self@),
                newest_first(self@, device_id.text()),
                text::texts(out@),
            ),
    {
        let id: String = device_id.to_string();
        let mut keys: Vec<Option<i128>> = Vec::new();
        let mut i: usize = 0;
        while i < self.rows.len()
            invariant
                i <= self.rows@.len(),
                keys@.len() == i,
                id@ == device_id.text(),
                forall|j: int|
                    0 <= j < i ==> #[trigger] keys@[j] == newest_first(
                        self@,
                        device_id.text(),
                    )[j],
            decreases self.rows@.len() - i,
        {
            if text::same(self.rows[i].device_id.as_str(), id.as_str()) {
                keys.push(Some(-(self.rows[i].updated_at as i128)));
            } else {
                keys.push(None);
            }
            i = i + 1;
        }
        assert(keys@ =~= newest_first(self@, device_id.text()));
        let places: Vec<usize> = order::ordered(&keys);
        let mut out: Vec<String> = Vec::new();
        let mut k: usize = 0;
        while k < places.len()
            invariant
                k <= places@.len(),
                out@.len() == k,
                keys@.len() == self.rows@.len(),
                order::in_order(places@, keys@),
                forall|j: int|
                    0 <= j < k ==> (#[trigger] out@[j])@ == addresses(self@)[places@[j] as int],
            decreases places@.len() - k,
        {
            assert(places@[k as int] < keys@.len());
            out.push(self.rows[places[k]].address.clone());
            k = k + 1;
        }
        assert(text::texts(out@) =~= Seq::new(
            places@.len(),
            |i: int| addresses(self@)[places@[i] as int],
        ));
        assert(order::lists(addresses(self@), keys@, places@, text::texts(out@)));
        out
    }

    /// Purge stale candidate entries: those that are older than
    /// `timeout_secs`. Returns the number of deleted records.
    pub fn purge_stale_candidates(&mut self, now: i64, timeout_secs: i64) -> (count: usize)
        requires
            i64::MIN <= now - timeout_secs <= i64::MAX,
        ensures
            final(self)@ == old(self)@.filter(not_before(now - timeout_secs)),
            count == old(self)@.len() - final(self)@.len(),
    {
        let cutoff: i64 = now - timeout_secs;
        let mut marks: Vec<bool> = Vec::new();
        let mut i: usize = 0;
        while i < self.rows.len()
            invariant
                i <= self.rows@.len(),
                *self == *old(self),
                marks@.len() == i,
                forall|j: int|
                    0 <= j < i ==> #[trigger] marks@[j] == (self@[j].updated_at >= cutoff),
            decreases self.rows@.len() - i,
        {
            assert(self@[i as int].updated_at == self.rows@[i as int].updated_at);
            marks.push(self.rows[i].updated_at >= cutoff);
            i = i + 1;
        }
        rows::keep_marked(&mut self.rows, &marks, Ghost(not_before(now - timeout_secs)))
    }
}

/// What was published is held, with the time of publishing; entries of other
/// addresses and other devices stay as they were.
pub proof fn law_published_is_held(
    table: Seq<CandidateEntry>,
    device_id: Seq<char>,
    address: Seq<char>,
    now: i64,
)
    ensures
        holds(published(table, device_id, address, now), device_id, address),
        distinct(table) ==> distinct(published(table, device_id, address, now)),
        forall|i: int|
            0 <= i < table.len() && !(#[trigger] table[i]).is_of(device_id, address) ==> published(
                table,
                device_id,
                address,
                now,
            )[i] == table[i],
        forall|i: int|
            0 <= i < published(table, device_id, address, now).len() && (#[trigger] published(
                table,
                device_id,
                address,
                now,
            )[i]).is_of(device_id, address) ==> published(
                table,
                device_id,
                address,
                now,
            )[i].updated_at == now,
{
    let after = published(table, device_id, address, now);
    if holds(table, device_id, address) {
        let i = choose|i: int|
            0 <= i < table.len() && (#[trigger] table[i]).is_of(device_id, address);
        assert(after[i].is_of(device_id, address));
        assert forall|i: int, j: int| distinct(table) && 0 <= i < j < after.len() implies !(
        #[trigger] after[i]).is_of((#[trigger] after[j]).device_id, after[j].address) by {
            assert(!table[i].is_of(table[j].device_id, table[j].address));
        }
    } else {
        assert(after[table.len() as int].is_of(device_id, address));
        assert forall|i: int| 0 <= i < after.len() && (#[trigger] after[i]).is_of(
            device_id,
            address,
        ) implies after[i].updated_at == now by {
            if i < table.len() {
                assert(table[i].is_of(device_id, address));
            }
        }
        assert forall|i: int, j: int| distinct(table) && 0 <= i < j < after.len() implies !(
        #[trigger] after[i]).is_of((#[trigger] after[j]).device_id, after[j].address) by {
            assert(!table[i].is_of(device_id, address));
            if j < table.len() {
                assert(!table[i].is_of(table[j].device_id, table[j].address));
            }
        }
    }
}

/// The candidates that are told of a device are the addresses that it has
/// published and that are still held, and no others, the newest first.
pub proof fn law_candidates_are_the_devices_own(
    table: Seq<CandidateEntry>,
    device_id: Seq<char>,
    out: Seq<Seq<char>>,
) -> (places: Seq<int>)
    requires
        order::listing(addresses(table), newest_first(table, device_id), out),
    ensures
        places.len() == out.len(),
        forall|k: int|
            0 <= k < out.len() ==> 0 <= #[trigger] places[k] < table.len()
                && table[places[k]].device_id == device_id && out[k] == table[places[k]].address,
        forall|i: int|
            0 <= i < table.len() && (#[trigger] table[i]).device_id == device_id
                ==> places.contains(i),
        forall|k: int, l: int|
            0 <= k < l < out.len() ==> table[#[trigger] places[k]].updated_at
                >= table[#[trigger] places[l]].updated_at && places[k] != places[l],
{
    let keys = newest_first(table, device_id);
    let places = order::law_listing_goes_by_the_keys(addresses(table), keys, out);
    assert forall|i: int|
        0 <= i < table.len() && (#[trigger] table[i]).device_id == device_id implies places.contains(
        i,
    ) by {
        assert(keys[i] is Some);
        let a = choose|a: int| 0 <= a < out.len() && #[trigger] places[a] == i;
    }
    assert forall|k: int, l: int| 0 <= k < l < out.len() implies table[
    #[trigger] places[k]].updated_at >= table[#[trigger] places[l]].updated_at && places[k]
        != places[l] by {
        let i = places[k];
        let j = places[l];
        assert(keys[i]->0 <= keys[j]->0);
        assert(keys[i] == Some((-(table[i].updated_at as int)) as i128));
        assert(keys[j] == Some((-(table[j].updated_at as int)) as i128));
    }
    places
}

/// Purging removes the candidates that were last published before the cutoff,
/// and no others.
pub proof fn law_purge_keeps_fresh_candidates(
    table: Seq<CandidateEntry>,
    cutoff: int,
    entry: CandidateEntry,
)
    ensures
        table.filter(not_before(cutoff)).contains(entry) <==> table.contains(entry)
            && entry.updated_at >= cutoff,
{
    let keep = not_before(cutoff);
    let rest = table.filter(keep);
    rows::lemma_filter_origin(table, keep);
    let from = choose|from: Seq<int>| #[trigger] rows::kept_from(table, keep, from);
    table.filter_lemma(keep);
    if rest.contains(entry) {
        let i = choose|i: int| 0 <= i < rest.len() && rest[i] == entry;
        assert(table[from[i]] == entry && keep(table[from[i]]));
    }
    if table.contains(entry) && entry.updated_at >= cutoff {
        let i = choose|i: int| 0 <= i < table.len() && table[i] == entry;
        assert(keep(table[i]));
        assert(rest.contains(table[i]));
    }
}

/// Publishing changes only the entry of that address of that device: it adds one
/// entry where there was none, and only sets the time of the one that there is.
pub proof fn law_publishing_changes_one_entry(
    table: Seq<CandidateEntry>,
    device_id: Seq<char>,
    address: Seq<char>,
    now: i64,
)
    ensures
        ({
            let after = published(table, device_id, address, now);
            let is_new = forall|i: int|
                0 <= i < table.len() ==> (#[trigger] table[i]).device_id != device_id
                    || table[i].address != address;
            &&& after.len() == table.len() + if is_new {
                1int
            } else {
                0int
            }
            &&& is_new ==> after.last() == (CandidateEntry { device_id, address, updated_at: now })
            &&& forall|i: int|
                0 <= i < table.len() ==> {
                    &&& (#[trigger] after[i]).device_id == table[i].device_id
                    &&& after[i].address == table[i].address
                    &&& after[i].updated_at == if table[i].device_id == device_id
                        && table[i].address == address {
                        now
                    } else {
                        table[i].updated_at
                    }
                }
        }),
{
    let after = published(table, device_id, address, now);
    let is_new = forall|i: int|
        0 <= i < table.len() ==> (#[trigger] table[i]).device_id != device_id || table[i].address
            != address;
    if holds(table, device_id, address) {
        let i = choose|i: int| 0 <= i < table.len() && (#[trigger] table[i]).is_of(device_id, address);
        assert(!is_new);
    } else {
        assert forall|i: int| 0 <= i < table.len() implies (#[trigger] table[i]).device_id
            != device_id || table[i].address != address by {
            assert(!table[i].is_of(device_id, address));
        }
    }
}

/// After a device has published several addresses, the table holds each of them
/// with the time of publishing, and whatever else it held before.
pub proof fn law_all_published_are_held(
    table: Seq<CandidateEntry>,
    device_id: Seq<char>,
    list: Seq<Seq<char>>,
    now: i64,
    k: int,
)
    requires
        0 <= k < list.len(),
    ensures
        ({
            let after = all_published(table, device_id, list, now);
            &&& after.contains(CandidateEntry { device_id, address: list[k], updated_at: now })
            &&& after.len() >= table.len()
            &&& forall|i: int|
                0 <= i < table.len() && !((#[trigger] table[i]).device_id == device_id
                    && list.contains(table[i].address)) ==> after[i] == table[i]
        }),
    decreases list.len(),
{
    let front = all_published(table, device_id, list.drop_last(), now);
    let after = all_published(table, device_id, list, now);
    let entry = CandidateEntry { device_id, address: list[k], updated_at: now };
    law_publishing_changes_one_entry(front, device_id, list.last(), now);
    lemma_rest_is_kept(table, device_id, list, now);
    if k == list.len() - 1 {
        law_published_is_held(front, device_id, list.last(), now);
        let i = choose|i: int| 0 <= i < after.len() && (#[trigger] after[i]).is_of(device_id, list.last());
        assert(after[i] =~= entry);
    } else {
        law_all_published_are_held(table, device_id, list.drop_last(), now, k);
        let i = choose|i: int| 0 <= i < front.len() && front[i] == entry;
        assert(after[i] =~= entry);
    }
}

proof fn lemma_rest_is_kept(
    table: Seq<CandidateEntry>,
    device_id: Seq<char>,
    list: Seq<Seq<char>>,
    now: i64,
)
    ensures
        ({
            let after = all_published(table, device_id, list, now);
            &&& after.len() >= table.len()
            &&& forall|i: int|
                0 <= i < table.len() && !((#[trigger] table[i]).device_id == device_id
                    && list.contains(table[i].address)) ==> after[i] == table[i]
        }),
    decreases list.len(),
{
    if list.len() > 0 {
        let front = all_published(table, device_id, list.drop_last(), now);
        let after = all_published(table, device_id, list, now);
        lemma_rest_is_kept(table, device_id, list.drop_last(), now);
        law_publishing_changes_one_entry(front, device_id, list.last(), now);
        assert forall|i: int|
            0 <= i < table.len() && !((#[trigger] table[i]).device_id == device_id
                && list.contains(table[i].address)) implies after[i] == table[i] by {
            if table[i].device_id == device_id {
                assert(list[list.len() - 1] == list.last());
                assert(forall|j: int|
                    0 <= j < list.len() - 1 ==> list.drop_last()[j] == #[trigger] list[j]);
            }
            assert(front[i] == table[i]);
            assert(after[i] =~= table[i]);
        }
    }
}

/// Publishing an address sets the time of that entry of that device, or adds it;
/// no other entry changes.
pub proof fn law_upsert_candidate(
    table: &mut CandidateTable,
    device_id: PeerId,
    address: &str,
    now: i64,
)
    requires
        call_ensures(CandidateTable::upsert_candidate, (table, device_id, address, now), ()),
    ensures
        final(table)@.len() >= old(table)@.len(),
        final(table)@.contains(
            CandidateEntry { device_id: device_id.text(), address: address@, updated_at: now },
        ),
        forall|i: int|
            0 <= i < old(table)@.len() && ((#[trigger] old(table)@[i]).device_id != device_id.text()
                || old(table)@[i].address != address@) ==> final(table)@[i] == old(table)@[i],
{
    law_publishing_changes_one_entry(old(table)@, device_id.text(), address@, now);
    law_all_published_are_held(old(table)@, device_id.text(), seq![address@], now, 0);
    assert(seq![address@].drop_last() =~= Seq::<Seq<char>>::empty());
    assert(all_published(old(table)@, device_id.text(), seq![address@].drop_last(), now) == old(table)@);
    let after = final(table)@;
    assert forall|i: int|
        0 <= i < old(table)@.len() && ((#[trigger] old(table)@[i]).device_id != device_id.text()
            || old(table)@[i].address != address@) implies after[i] == old(table)@[i] by {
        assert(after[i] =~= old(table)@[i]);
    }
}

} // verus!
