//! The pool of virtual addresses.

use std::collections::HashSet;

use vstd::prelude::*;

use crate::addr;
use crate::addr::Ipv4Addr;
use crate::registry::rows;
use crate::text;

verus! {

/// A row of the address pool.
#[derive(Debug, Clone)]
pub struct IpPoolRow {
    pub ipv4: String,
    pub allocated: i64,
}

/// The contents of a row of the address pool.
#[verifier::ext_equal]
pub struct PoolEntry {
    pub ipv4: Seq<char>,
    pub allocated: i64,
}

impl View for IpPoolRow {
    type V = PoolEntry;

    open spec fn view(&self) -> PoolEntry {
        PoolEntry { ipv4: self.ipv4@, allocated: self.allocated }
    }
}

/// The addresses that were handed out so far.
#[derive(Debug, Clone)]
pub struct IpPool {
    pub rows: Vec<IpPoolRow>,
}

impl View for IpPool {
    type V = Seq<PoolEntry>;

    open spec fn view(&self) -> Seq<PoolEntry> {
        rows::contents(self.rows@)
    }
}

/// No address stands in the pool twice.
pub open spec fn distinct(pool: Seq<PoolEntry>) -> bool {
    forall|i: int, j: int|
        0 <= i < j < pool.len() ==> (#[trigger] pool[i]).ipv4 != (#[trigger] pool[j]).ipv4
}

/// Whether an address stands in the pool.
pub open spec fn holds(pool: Seq<PoolEntry>, ipv4: Seq<char>) -> bool {
    exists|i: int| 0 <= i < pool.len() && (#[trigger] pool[i]).ipv4 == ipv4
}

/// Whether an address stands in the pool and is not free.
pub open spec fn is_taken(pool: Seq<PoolEntry>, ipv4: Seq<char>) -> bool {
    exists|i: int|
        0 <= i < pool.len() && (#[trigger] pool[i]).ipv4 == ipv4 && pool[i].allocated != 0
}

/// Whether entry `i` is the free one to use first: the alphabetically first.
pub open spec fn first_free(pool: Seq<PoolEntry>, i: int) -> bool {
    &&& 0 <= i < pool.len()
    &&& pool[i].allocated == 0
    &&& forall|j: int|
        0 <= j < pool.len() && j != i && (#[trigger] pool[j]).allocated == 0 ==> text::before(
            pool[i].ipv4,
            pool[j].ipv4,
        )
}

/// Whether some entry is free.
pub open spec fn some_free(pool: Seq<PoolEntry>) -> bool {
    exists|i: int| 0 <= i < pool.len() && (#[trigger] pool[i]).allocated == 0
}

/// An address that is in use.
pub open spec fn taken(ipv4: Seq<char>) -> PoolEntry {
    PoolEntry { ipv4, allocated: 1 }
}

/// The address of the network with that offset.
pub open spec fn address(base: u32, k: int) -> Ipv4Addr {
    Ipv4Addr { bits: (base + k) as u32 }
}

/// Whether there is an address with that offset, and the pool does not hold
/// it.
pub open spec fn is_unused(pool: Seq<PoolEntry>, base: u32, k: int) -> bool {
    base + k <= u32::MAX && !holds(pool, address(base, k).text())
}

/// Whether some address of the network is not in the pool.
pub open spec fn some_unused(pool: Seq<PoolEntry>, base: u32, max_offset: u32) -> bool {
    exists|k: int| 0 <= k <= max_offset && #[trigger] is_unused(pool, base, k)
}

/// Whether `k` is the offset of the lowest address of the network that is not
/// in the pool.
pub open spec fn is_next(pool: Seq<PoolEntry>, base: u32, max_offset: u32, k: int) -> bool {
    &&& 0 <= k <= max_offset
    &&& is_unused(pool, base, k)
    &&& forall|j: int| 0 <= j < k ==> !#[trigger] is_unused(pool, base, j)
}

/// How many addresses the pool holds, counted in 32 bits.
pub open spec fn used(pool: Seq<PoolEntry>) -> u32 {
    (pool.len() % 0x1_0000_0000) as u32
}

/// Whether an allocation stays within the addresses that there are.
pub open spec fn in_range(pool: Seq<PoolEntry>, base: u32, max_offset: u32) -> bool {
    some_free(pool) || used(pool) > max_offset || base + used(pool) <= u32::MAX
}

/// The offset of the next address after those that the pool holds, as long as
/// the network has more addresses than that. Where the pool has lost an entry in
/// the middle and holds that address, it is the lowest one that it does not
/// hold.
pub open spec fn next_offset(pool: Seq<PoolEntry>, base: u32, max_offset: u32) -> Option<int> {
    if used(pool) > max_offset {
        None
    } else if is_unused(pool, base, used(pool) as int) {
        Some(used(pool) as int)
    } else if some_unused(pool, base, max_offset) {
        Some(choose|k: int| is_next(pool, base, max_offset, k))
    } else {
        None
    }
}

/// The address that is allocated next: the first free one, or else the next
/// one of the network.
pub open spec fn allocation(
    pool: Seq<PoolEntry>,
    base: u32,
    max_offset: u32,
) -> Option<Ipv4Addr> {
    if some_free(pool) {
        Ipv4Addr::parsed(pool[choose|i: int| first_free(pool, i)].ipv4)
    } else {
        match next_offset(pool, base, max_offset) {
            Some(k) => Some(address(base, k)),
            None => None,
        }
    }
}

/// The pool after an allocation.
pub open spec fn after_allocation(
    pool: Seq<PoolEntry>,
    base: u32,
    max_offset: u32,
) -> Seq<PoolEntry> {
    let i = choose|i: int| first_free(pool, i);
    if some_free(pool) {
        pool.update(i, taken(pool[i].ipv4))
    } else {
        match next_offset(pool, base, max_offset) {
            Some(k) => pool.push(taken(address(base, k).text())),
            None => pool,
        }
    }
}

/// Entries that are in use.
pub open spec fn in_use() -> spec_fn(PoolEntry) -> bool {
    |e: PoolEntry| e.allocated == 1
}

proof fn lemma_first_free_is_unique(pool: Seq<PoolEntry>, i: int, j: int)
    requires
        first_free(pool, i),
        first_free(pool, j),
    ensures
        i == j,
{
    text::lemma_before_is_total(pool[i].ipv4, pool[j].ipv4);
}

proof fn lemma_next_is_unique(
    pool: Seq<PoolEntry>,
    base: u32,
    max_offset: u32,
    k: int,
    l: int,
)
    requires
        is_next(pool, base, max_offset, k),
        is_next(pool, base, max_offset, l),
    ensures
        k == l,
{
    if k < l {
        assert(!is_unused(pool, base, k));
    } else if l < k {
        assert(!is_unused(pool, base, l));
    }
}

proof fn lemma_some_next(pool: Seq<PoolEntry>, base: u32, max_offset: u32, k: int)
    requires
        0 <= k <= max_offset,
        is_unused(pool, base, k),
    ensures
        exists|l: int| is_next(pool, base, max_offset, l),
    decreases k,
{
    if exists|j: int| 0 <= j < k && #[trigger] is_unused(pool, base, j) {
        let j = choose|j: int| 0 <= j < k && #[trigger] is_unused(pool, base, j);
        lemma_some_next(pool, base, max_offset, j);
    } else {
        assert(is_next(pool, base, max_offset, k));
    }
}

proof fn lemma_next_offset(pool: Seq<PoolEntry>, base: u32, max_offset: u32)
    ensures
        next_offset(pool, base, max_offset) matches Some(k) ==> 0 <= k <= max_offset && is_unused(
            pool,
            base,
            k,
        ),
{
    if some_unused(pool, base, max_offset) {
        let k = choose|k: int| 0 <= k <= max_offset && #[trigger] is_unused(pool, base, k);
        lemma_some_next(pool, base, max_offset, k);
    }
}

/// A pool does not hold more addresses than it has entries.
proof fn lemma_some_address_is_left(pool: Seq<PoolEntry>, base: u32)
    requires
        base + pool.len() <= u32::MAX,
    ensures
        exists|k: int| 0 <= k <= pool.len() && #[trigger] is_unused(pool, base, k),
    decreases pool.len(),
{
    let n = pool.len() as int;
    let top = address(base, n);
    if is_unused(pool, base, n) {
    } else {
        let i = choose|i: int| 0 <= i < pool.len() && (#[trigger] pool[i]).ipv4 == top.text();
        let rest = pool.remove(i);
        lemma_some_address_is_left(rest, base);
        let k = choose|k: int| 0 <= k <= rest.len() && #[trigger] is_unused(rest, base, k);
        let ip = address(base, k);
        if holds(pool, ip.text()) {
            let j = choose|j: int| 0 <= j < pool.len() && (#[trigger] pool[j]).ipv4 == ip.text();
            if j == i {
                addr::law_text_injective(ip, top);
            } else if j < i {
                assert(rest[j].ipv4 == ip.text());
            } else {
                assert(rest[j - 1].ipv4 == ip.text());
            }
        }
        assert(is_unused(pool, base, k));
    }
}

impl IpPool {
    /// An empty pool.
    pub fn new() -> (pool: Self)
        ensures
            pool@ == Seq::<PoolEntry>::empty(),
    {
        let pool = IpPool { rows: Vec::new() };
        assert(pool@ =~= Seq::<PoolEntry>::empty());
        pool
    }

    /// Whether no address stands in the pool twice.
    pub fn is_distinct(&self) -> (ok: bool)
        ensures
            ok == distinct(self@),
    {
        let mut j: usize = 0;
        while j < self.rows.len()
            invariant
                j <= self.rows@.len(),
                forall|a: int, b: int|
                    0 <= a < b < j ==> (#[trigger] self@[a]).ipv4 != (#[trigger] self@[b]).ipv4,
            decreases self.rows@.len() - j,
        {
            let mut i: usize = 0;
            while i < j
                invariant
                    i <= j < self.rows@.len(),
                    forall|a: int|
                        0 <= a < i ==> (#[trigger] self@[a]).ipv4 != self@[j as int].ipv4,
                decreases j - i,
            {
                if text::same(self.rows[i].ipv4.as_str(), self.rows[j].ipv4.as_str()) {
                    assert(self@[i as int].ipv4 == self@[j as int].ipv4);
                    return false;
                }
                i = i + 1;
            }
            j = j + 1;
        }
        true
    }

    /// Whether the next allocation stays within the addresses that there are.
    pub fn can_allocate(&self, base: u32, max_offset: u32) -> (ok: bool)
        requires
            distinct(self@),
        ensures
            ok == in_range(self@, base, max_offset),
    {
        if let Some(i) = self.find_free() {
            assert(self@[i as int].allocated == 0);
            return true;
        }
        let used: u32 = self.used();
        used > max_offset || base <= u32::MAX - used
    }

    /// How many addresses the pool holds, counted in 32 bits.
    fn used(&self) -> (n: u32)
        ensures
            n == used(self@),
    {
        let n: u64 = self.rows.len() as u64;
        (n % 0x1_0000_0000) as u32
    }

    /// The addresses that the pool holds.
    fn held(&self) -> (held: HashSet<u32>)
        ensures
            forall|bits: u32| #[trigger]
                held@.contains(bits) <==> holds(self@, (Ipv4Addr { bits }).text()),
    {
        let mut held: HashSet<u32> = HashSet::new();
        let mut i: usize = 0;
        while i < self.rows.len()
            invariant
                i <= self.rows@.len(),
                forall|bits: u32| #[trigger]
                    held@.contains(bits) <==> exists|j: int|
                        0 <= j < i && (#[trigger] self@[j]).ipv4 == (Ipv4Addr { bits }).text(),
            decreases self.rows@.len() - i,
        {
            let ghost before = held@;
            assert(self@[i as int].ipv4 == self.rows@[i as int].ipv4@);
            if let Some(ip) = Ipv4Addr::parse(self.rows[i].ipv4.as_str()) {
                held.insert(ip.bits);
            }
            assert forall|bits: u32| #[trigger]
                held@.contains(bits) <==> exists|j: int|
                    0 <= j < i + 1 && (#[trigger] self@[j]).ipv4 == (Ipv4Addr {
                        bits,
                    }).text() by {
                let ip = Ipv4Addr { bits };
                addr::law_text_roundtrip(ip);
                if self@[i as int].ipv4 == ip.text() {
                    assert(held@.contains(bits));
                } else {
                    assert(held@.contains(bits) == before.contains(bits));
                }
            }
            i = i + 1;
        }
        held
    }

    /// The offset of the next address.
    fn find_next(&self, base: u32, max_offset: u32) -> (next: Option<u32>)
        requires
            used(self@) > max_offset || base + used(self@) <= u32::MAX,
        ensures
            next matches Some(k) ==> next_offset(self@, base, max_offset) == Some(k as int),
            next is None ==> next_offset(self@, base, max_offset) is None,
    {
        let count: u32 = self.used();
        if count > max_offset {
            return None;
        }
        let held: HashSet<u32> = self.held();
        let bits: u32 = base + count;
        assert(address(base, count as int) == Ipv4Addr { bits });
        if !held.contains(&bits) {
            return Some(count);
        }
        let mut k: u32 = 0;
        loop
            invariant
                k <= max_offset,
                used(self@) <= max_offset,
                !is_unused(self@, base, used(self@) as int),
                forall|bits: u32| #[trigger]
                    held@.contains(bits) <==> holds(self@, (Ipv4Addr { bits }).text()),
                forall|j: int| 0 <= j < k ==> !#[trigger] is_unused(self@, base, j),
            decreases max_offset - k,
        {
            if k > u32::MAX - base {
                return None;
            }
            let bits: u32 = base + k;
            assert(address(base, k as int) == Ipv4Addr { bits });
            if !held.contains(&bits) {
                proof {
                    assert(is_unused(self@, base, k as int));
                    lemma_next_is_unique(
                        self@,
                        base,
                        max_offset,
                        k as int,
                        choose|k: int| is_next(self@, base, max_offset, k),
                    );
                }
                return Some(k);
            }
            if k == max_offset {
                return None;
            }
            k = k + 1;
        }
    }

    /// The free entry to use first.
    fn find_free(&self) -> (free: Option<usize>)
        requires
            distinct(self@),
        ensures
            free is Some <==> some_free(self@),
            free matches Some(i) ==> first_free(self@, i as int),
    {
        let mut free: Option<usize> = None;
        let mut i: usize = 0;
        while i < self.rows.len()
            invariant
                i <= self.rows@.len(),
                distinct(self@),
                free is None ==> forall|j: int|
                    0 <= j < i ==> (#[trigger] self@[j]).allocated != 0,
                free matches Some(f) ==> f < i && self@[f as int].allocated == 0 && forall|j: int|
                    0 <= j < i && j != f && (#[trigger] self@[j]).allocated == 0 ==> text::before(
                        self@[f as int].ipv4,
                        self@[j].ipv4,
                    ),
            decreases self.rows@.len() - i,
        {
            if self.rows[i].allocated == 0 {
                match free {
                    Some(f) => {
                        proof {
                            assert(self@[f as int].ipv4 != self@[i as int].ipv4);
                            text::lemma_before_is_total(
                                self@[f as int].ipv4,
                                self@[i as int].ipv4,
                            );
                        }
                        if text::is_before(self.rows[i].ipv4.as_str(), self.rows[f].ipv4.as_str()) {
                            proof {
                                assert forall|j: int|
                                    0 <= j < i && (#[trigger] self@[j]).allocated
                                        == 0 implies text::before(
                                    self@[i as int].ipv4,
                                    self@[j].ipv4,
                                ) by {
                                    if j != f {
                                        text::lemma_before_is_transitive(
                                            self@[i as int].ipv4,
                                            self@[f as int].ipv4,
                                            self@[j].ipv4,
                                        );
                                    }
                                }
                            }
                            free = Some(i);
                        }
                    },
                    None => {
                        free = Some(i);
                    },
                }
            }
            i = i + 1;
        }
        free
    }

    /// Allocate an IP from the pool.
    ///
    /// Returns `None` if the pool is full.
    pub fn allocate_ip(&mut self, base: u32, max_offset: u32) -> (ip: Option<Ipv4Addr>)
        requires
            distinct(old(self)@),
            in_range(old(self)@, base, max_offset),
        ensures
            ip == allocation(old(self)@, base, max_offset),
            final(self)@ == after_allocation(old(self)@, base, max_offset),
    {
        if let Some(i) = self.find_free() {
            let text: String = self.rows[i].ipv4.clone();
            proof {
                lemma_first_free_is_unique(
                    self@,
                    i as int,
                    choose|i: int| first_free(self@, i),
                );
            }
            let ip: Option<Ipv4Addr> = Ipv4Addr::parse(text.as_str());
            self.rows.set(i, IpPoolRow { ipv4: text, allocated: 1 });
            assert(self@ =~= old(self)@.update(i as int, taken(old(self)@[i as int].ipv4)));
            return ip;
        }
        let k: u32 = match self.find_next(base, max_offset) {
            Some(k) => k,
            None => {
                return None;
            },
        };
        proof {
            lemma_next_offset(self@, base, max_offset);
        }
        let ip = Ipv4Addr { bits: base + k };
        self.rows.push(IpPoolRow { ipv4: ip.to_string(), allocated: 1 });
        assert(self@ =~= old(self)@.push(taken(ip.text())));
        Some(ip)
    }

    /// Get the number of allocated (used) IPs.
    pub fn allocated_count(&self) -> (n: u64)
        ensures
            n == self@.filter(in_use()).len(),
    {
        let ghost keep = in_use();
        let ghost all = self@;
        let mut n: u64 = 0;
        let mut i: usize = 0;
        proof {
            reveal(Seq::filter);
            assert(all.subrange(0, 0).filter(keep) =~= Seq::empty());
        }
        while i < self.rows.len()
            invariant
                i <= self.rows@.len(),
                all == self@,
                keep == in_use(),
                n == all.subrange(0, i as int).filter(keep).len(),
                n <= i,
            decreases self.rows@.len() - i,
        {
            proof {
                rows::lemma_delete_step(all, i as int, keep);
            }
            if self.rows[i].allocated == 1 {
                n = n + 1;
            }
            i = i + 1;
        }
        assert(all.subrange(0, i as int) =~= all);
        n
    }

    /// Get total IP pool size.
    pub fn pool_size(&self) -> (n: u64)
        ensures
            n == self@.len(),
    {
        self.rows.len() as u64
    }
}

/// An allocation hands out an address that stands in the pool afterwards and
/// is not free any more; no address stands there twice.
pub proof fn law_allocated_is_taken(pool: Seq<PoolEntry>, base: u32, max_offset: u32)
    requires
        distinct(pool),
    ensures
        distinct(after_allocation(pool, base, max_offset)),
        allocation(pool, base, max_offset) matches Some(ip) ==> is_taken(
            after_allocation(pool, base, max_offset),
            ip.text(),
        ),
{
    let after = after_allocation(pool, base, max_offset);
    if some_free(pool) {
        lemma_some_first_free(pool);
        let i = choose|i: int| first_free(pool, i);
        if let Some(ip) = Ipv4Addr::parsed(pool[i].ipv4) {
            assert(ip.text() == pool[i].ipv4);
            assert(after[i].ipv4 == ip.text());
        }
    } else {
        lemma_next_offset(pool, base, max_offset);
        if let Some(k) = next_offset(pool, base, max_offset) {
            assert(is_unused(pool, base, k));
            assert(after[pool.len() as int].ipv4 == address(base, k).text());
        }
    }
}

pub proof fn lemma_taken_stays_taken(
    pool: Seq<PoolEntry>,
    base: u32,
    max_offset: u32,
    ipv4: Seq<char>,
)
    requires
        distinct(pool),
        is_taken(pool, ipv4),
    ensures
        is_taken(after_allocation(pool, base, max_offset), ipv4),
{
    let after = after_allocation(pool, base, max_offset);
    let i = choose|i: int|
        0 <= i < pool.len() && (#[trigger] pool[i]).ipv4 == ipv4 && pool[i].allocated != 0;
    if some_free(pool) {
        lemma_some_first_free(pool);
    }
    assert(after[i].ipv4 == ipv4 && after[i].allocated != 0);
}

proof fn lemma_some_first_free(pool: Seq<PoolEntry>)
    requires
        distinct(pool),
        some_free(pool),
    ensures
        exists|i: int| first_free(pool, i),
    decreases pool.len(),
{
    let last = pool.len() - 1;
    let front = pool.drop_last();
    if some_free(front) {
        lemma_some_first_free(front);
        let f = choose|i: int| first_free(front, i);
        assert(front[f] == pool[f]);
        text::lemma_before_is_total(pool[f].ipv4, pool[last].ipv4);
        assert forall|j: int| 0 <= j < pool.len() - 1 && j != f && (#[trigger] pool[j]).allocated
            == 0 implies text::before(pool[f].ipv4, pool[j].ipv4) by {
            assert(front[j] == pool[j]);
        }
        if pool[last].allocated == 0 && text::before(pool[last].ipv4, pool[f].ipv4) {
            assert forall|j: int|
                0 <= j < pool.len() && j != last && (#[trigger] pool[j]).allocated
                    == 0 implies text::before(pool[last].ipv4, pool[j].ipv4) by {
                if j != f {
                    text::lemma_before_is_transitive(
                        pool[last].ipv4,
                        pool[f].ipv4,
                        pool[j].ipv4,
                    );
                }
            }
            assert(first_free(pool, last));
        } else {
            assert(pool[f].ipv4 != pool[last].ipv4);
            assert(first_free(pool, f));
        }
    } else {
        let i = choose|i: int| 0 <= i < pool.len() && (#[trigger] pool[i]).allocated == 0;
        if i < last {
            assert(front[i].allocated == 0);
        }
        assert forall|j: int| 0 <= j < pool.len() && j != last implies (
        #[trigger] pool[j]).allocated != 0 by {
            assert(front[j] == pool[j]);
        }
        assert(first_free(pool, last));
    }
}

/// The address that is handed out was not in use.
pub proof fn law_allocated_was_not_in_use(
    pool: Seq<PoolEntry>,
    base: u32,
    max_offset: u32,
    i: int,
)
    requires
        distinct(pool),
        0 <= i < pool.len(),
        allocation(pool, base, max_offset) matches Some(ip) && pool[i].ipv4 == ip.text(),
    ensures
        pool[i].allocated == 0,
{
    if some_free(pool) {
        lemma_some_first_free(pool);
        let f = choose|i: int| first_free(pool, i);
        assert(Ipv4Addr::parsed(pool[f].ipv4)->0.text() == pool[f].ipv4);
        assert(pool[f].ipv4 == pool[i].ipv4);
        assert(i == f);
    } else {
        lemma_next_offset(pool, base, max_offset);
    }
}

/// While no entry is free, an address is refused only if the pool holds as many
/// addresses as the network has.
pub proof fn law_refused_only_when_full(pool: Seq<PoolEntry>, base: u32, max_offset: u32)
    requires
        pool.len() <= u32::MAX,
        in_range(pool, base, max_offset),
        !some_free(pool),
    ensures
        allocation(pool, base, max_offset) is None <==> pool.len() > max_offset,
{
    if pool.len() <= max_offset {
        lemma_some_address_is_left(pool, base);
        let k = choose|k: int| 0 <= k <= pool.len() && #[trigger] is_unused(pool, base, k);
        assert(some_unused(pool, base, max_offset));
    }
}

/// An address that is the next after those that the pool holds is handed out,
/// if it is not in use.
pub proof fn law_next_address_follows_the_pool(
    pool: Seq<PoolEntry>,
    base: u32,
    max_offset: u32,
)
    requires
        pool.len() <= max_offset,
        base + pool.len() <= u32::MAX,
        !some_free(pool),
        !holds(pool, address(base, pool.len() as int).text()),
    ensures
        allocation(pool, base, max_offset) == Some(address(base, pool.len() as int)),
{
}

/// The pool after the first `n` addresses from `base` on were handed out.
pub open spec fn filled(base: u32, n: nat) -> Seq<PoolEntry> {
    Seq::new(n, |i: int| taken((Ipv4Addr { bits: (base + i) as u32 }).text()))
}

/// As long as nothing is given back, the addresses of the network are handed
/// out one after the other, each once, until all are.
pub proof fn law_addresses_count_up(base: u32, max_offset: u32, n: nat)
    requires
        base + max_offset <= u32::MAX,
        n <= max_offset + 1,
        n <= u32::MAX,
    ensures
        distinct(filled(base, n)),
        n <= max_offset ==> allocation(filled(base, n), base, max_offset) == Some(
            Ipv4Addr { bits: (base + n) as u32 },
        ),
        n <= max_offset ==> after_allocation(filled(base, n), base, max_offset) == filled(
            base,
            n + 1,
        ),
        n == max_offset + 1 ==> allocation(filled(base, n), base, max_offset) is None,
        n == max_offset + 1 ==> after_allocation(filled(base, n), base, max_offset) == filled(
            base,
            n,
        ),
{
    let pool = filled(base, n);
    assert forall|i: int, j: int| 0 <= i < j < pool.len() implies (#[trigger] pool[i]).ipv4 != (
    #[trigger] pool[j]).ipv4 by {
        if pool[i].ipv4 == pool[j].ipv4 {
            addr::law_text_injective(
                Ipv4Addr { bits: (base + i) as u32 },
                Ipv4Addr { bits: (base + j) as u32 },
            );
        }
    }
    assert(!some_free(pool));
    assert forall|k: int| 0 <= k <= max_offset implies #[trigger] is_unused(pool, base, k) == (k
        >= n) by {
        let ip = address(base, k);
        if k < n {
            assert(pool[k].ipv4 == ip.text());
        } else if holds(pool, ip.text()) {
            let i = choose|i: int| 0 <= i < pool.len() && (#[trigger] pool[i]).ipv4 == ip.text();
            addr::law_text_injective(Ipv4Addr { bits: (base + i) as u32 }, ip);
        }
    }
    assert(used(pool) == n);
    if n <= max_offset {
        assert(is_unused(pool, base, n as int));
        assert(pool.push(taken(address(base, n as int).text())) =~= filled(base, n + 1));
    }
}

/// An allocation changes one entry at most. Where an entry is free, the
/// alphabetically first of them is marked as taken and its address is handed
/// out. Where none is, the address that is handed out lies within the network,
/// was not in the pool, and is added to it. All other entries stay as they are.
pub proof fn law_allocation_changes_one_entry(pool: Seq<PoolEntry>, base: u32, max_offset: u32)
    requires
        distinct(pool),
    ensures
        ({
            let given = allocation(pool, base, max_offset);
            let after = after_allocation(pool, base, max_offset);
            if exists|i: int| 0 <= i < pool.len() && (#[trigger] pool[i]).allocated == 0 {
                &&& after.len() == pool.len()
                &&& exists|i: int|
                    {
                        &&& 0 <= i < pool.len()
                        &&& (#[trigger] pool[i]).allocated == 0
                        &&& after[i] == (PoolEntry { ipv4: pool[i].ipv4, allocated: 1 })
                        &&& given == Ipv4Addr::parsed(pool[i].ipv4)
                        &&& forall|j: int|
                            0 <= j < pool.len() && j != i ==> #[trigger] after[j] == pool[j]
                        &&& forall|j: int|
                            0 <= j < pool.len() && j != i && (#[trigger] pool[j]).allocated == 0
                                ==> text::before(pool[i].ipv4, pool[j].ipv4)
                    }
            } else {
                match given {
                    Some(ip) => {
                        &&& base <= ip.bits <= base + max_offset
                        &&& forall|j: int|
                            0 <= j < pool.len() ==> (#[trigger] pool[j]).ipv4 != ip.text()
                        &&& after == pool.push(PoolEntry { ipv4: ip.text(), allocated: 1 })
                    },
                    None => after == pool,
                }
            }
        }),
{
    if some_free(pool) {
        lemma_some_first_free(pool);
        let i = choose|i: int| first_free(pool, i);
        assert(pool[i].allocated == 0);
    } else {
        lemma_next_offset(pool, base, max_offset);
    }
}

/// The entries that count as in use are those with the mark 1: with one entry
/// more there is one more of them, or as many as before.
pub proof fn law_marked_entries_are_counted(pool: Seq<PoolEntry>, e: PoolEntry)
    ensures
        pool.push(e).filter(in_use()).len() == pool.filter(in_use()).len() + if e.allocated == 1 {
            1int
        } else {
            0int
        },
        Seq::<PoolEntry>::empty().filter(in_use()).len() == 0,
{
    reveal(Seq::filter);
    assert(pool.push(e).drop_last() =~= pool);
}

/// Where the address that would be next is in the pool already, the lowest address
/// of the network that is not is handed out.
pub proof fn law_gap_is_filled_from_below(
    pool: Seq<PoolEntry>,
    base: u32,
    max_offset: u32,
    ip: Ipv4Addr,
    lower: Ipv4Addr,
)
    requires
        pool.len() <= u32::MAX,
        base + max_offset <= u32::MAX,
        !some_free(pool),
        holds(pool, (Ipv4Addr { bits: (base + pool.len()) as u32 }).text()),
        allocation(pool, base, max_offset) == Some(ip),
        base <= lower.bits < ip.bits,
    ensures
        exists|i: int| 0 <= i < pool.len() && (#[trigger] pool[i]).ipv4 == lower.text(),
{
    assert(used(pool) == pool.len());
    assert(!is_unused(pool, base, used(pool) as int));
    let k = choose|k: int| 0 <= k <= max_offset && #[trigger] is_unused(pool, base, k);
    lemma_some_next(pool, base, max_offset, k);
    let next = choose|k: int| is_next(pool, base, max_offset, k);
    assert(!is_unused(pool, base, lower.bits - base));
    assert(address(base, lower.bits - base) == lower);
}

/// An allocation stays within the addresses that there are if an entry is free, if
/// the network has no address left, or if the next address is one.
pub proof fn law_can_allocate(pool: IpPool, base: u32, max_offset: u32, ok: bool)
    requires
        call_ensures(IpPool::can_allocate, (&pool, base, max_offset), ok),
        pool@.len() <= u32::MAX,
    ensures
        ok <==> (exists|i: int| 0 <= i < pool@.len() && (#[trigger] pool@[i]).allocated == 0)
            || pool@.len() > max_offset || base + pool@.len() <= u32::MAX,
{
}

/// What is handed out was free or not in the pool, and is taken from then on;
/// every other entry stays as it was.
pub proof fn law_allocate_ip(
    pool: &mut IpPool,
    base: u32,
    max_offset: u32,
    ip: Ipv4Addr,
    i: int,
)
    requires
        call_ensures(IpPool::allocate_ip, (pool, base, max_offset), Some(ip)),
        distinct(old(pool)@),
    ensures
        is_taken(final(pool)@, ip.text()),
        0 <= i < old(pool)@.len() && old(pool)@[i].ipv4 == ip.text() ==> old(pool)@[i].allocated
            == 0,
        0 <= i < old(pool)@.len() && old(pool)@[i].ipv4 != ip.text() ==> final(pool)@[i] == old(pool)@[i],
{
    let was = old(pool)@;
    law_allocated_is_taken(was, base, max_offset);
    law_allocation_changes_one_entry(was, base, max_offset);
    if 0 <= i < was.len() && was[i].ipv4 == ip.text() {
        law_allocated_was_not_in_use(was, base, max_offset, i);
    }
    if 0 <= i < was.len() && was[i].ipv4 != ip.text() {
        if some_free(was) {
            lemma_some_first_free(was);
            let f = choose|i: int| first_free(was, i);
            assert(Ipv4Addr::parsed(was[f].ipv4) == Some(ip));
            assert(ip.text() == was[f].ipv4);
        }
        assert(final(pool)@[i] =~= was[i]);
    }
}

} // verus!
