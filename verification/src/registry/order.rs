//! Listing the rows of a table in the order of a key.

use vstd::prelude::*;

verus! {

/// Whether row `i` is listed before row `j`: by its key, and by its place in
/// the table where the keys are equal.
pub open spec fn comes_before(keys: Seq<Option<i128>>, i: int, j: int) -> bool {
    keys[i]->0 < keys[j]->0 || keys[i]->0 == keys[j]->0 && i < j
}

/// Whether `order` lists the rows that have a key, each once, in the order of
/// their keys.
pub open spec fn in_order(order: Seq<usize>, keys: Seq<Option<i128>>) -> bool {
    &&& forall|a: int|
        0 <= a < order.len() ==> (#[trigger] order[a]) < keys.len() && keys[order[a] as int] is Some
    &&& forall|i: int|
        0 <= i < keys.len() && (#[trigger] keys[i]) is Some ==> exists|a: int|
            0 <= a < order.len() && #[trigger] order[a] == i
    &&& forall|a: int, b: int|
        0 <= a < b < order.len() ==> comes_before(
            keys,
            #[trigger] order[a] as int,
            #[trigger] order[b] as int,
        )
}

/// Whether `out` is what the rows that have a key hold, in the order of their
/// keys.
pub open spec fn listing<A>(rows: Seq<A>, keys: Seq<Option<i128>>, out: Seq<A>) -> bool {
    exists|order: Seq<usize>| #[trigger] lists(rows, keys, order, out)
}

/// Whether `out` is what the rows hold in the given order.
pub open spec fn lists<A>(
    rows: Seq<A>,
    keys: Seq<Option<i128>>,
    order: Seq<usize>,
    out: Seq<A>,
) -> bool {
    &&& in_order(order, keys)
    &&& out == Seq::new(order.len(), |i: int| rows[order[i] as int])
}

/// The rows that have a key, in the order of their keys.
pub fn ordered(keys: &Vec<Option<i128>>) -> (order: Vec<usize>)
    ensures
        in_order(order@, keys@),
{
    let mut order: Vec<usize> = Vec::new();
    let mut i: usize = 0;
    while i < keys.len()
        invariant
            i <= keys@.len(),
            forall|a: int|
                0 <= a < order@.len() ==> (#[trigger] order@[a]) < i
                    && keys@[order@[a] as int] is Some,
            forall|r: int|
                0 <= r < i && (#[trigger] keys@[r]) is Some ==> exists|a: int|
                    0 <= a < order@.len() && #[trigger] order@[a] == r,
            forall|a: int, b: int|
                0 <= a < b < order@.len() ==> comes_before(
                    keys@,
                    #[trigger] order@[a] as int,
                    #[trigger] order@[b] as int,
                ),
        decreases keys@.len() - i,
    {
        if let Some(key) = keys[i] {
            place(&mut order, keys, i, key);
        }
        i = i + 1;
    }
    order
}

/// Puts row `i` where its key belongs; all rows in `order` stand before it in
/// the table.
fn place(order: &mut Vec<usize>, keys: &Vec<Option<i128>>, i: usize, key: i128)
    requires
        i < keys@.len(),
        keys@[i as int] == Some(key),
        forall|a: int|
            0 <= a < old(order)@.len() ==> (#[trigger] old(order)@[a]) < i
                && keys@[old(order)@[a] as int] is Some,
        forall|r: int|
            0 <= r < i && (#[trigger] keys@[r]) is Some ==> exists|a: int|
                0 <= a < old(order)@.len() && #[trigger] old(order)@[a] == r,
        forall|a: int, b: int|
            0 <= a < b < old(order)@.len() ==> comes_before(
                keys@,
                #[trigger] old(order)@[a] as int,
                #[trigger] old(order)@[b] as int,
            ),
    ensures
        forall|a: int|
            0 <= a < final(order)@.len() ==> (#[trigger] final(order)@[a]) <= i
                && keys@[final(order)@[a] as int] is Some,
        forall|r: int|
            0 <= r <= i && (#[trigger] keys@[r]) is Some ==> exists|a: int|
                0 <= a < final(order)@.len() && #[trigger] final(order)@[a] == r,
        forall|a: int, b: int|
            0 <= a < b < final(order)@.len() ==> comes_before(
                keys@,
                #[trigger] final(order)@[a] as int,
                #[trigger] final(order)@[b] as int,
            ),
{
    let mut at: usize = order.len();
    while at > 0
        invariant
            at <= order@.len(),
            order@ == old(order)@,
            i < keys@.len(),
            forall|a: int|
                0 <= a < order@.len() ==> (#[trigger] order@[a]) < i
                    && keys@[order@[a] as int] is Some,
            forall|a: int| at <= a < order@.len() ==> key < keys@[(#[trigger] order@[a]) as int]->0,
        ensures
            at <= order@.len(),
            order@ == old(order)@,
            forall|a: int| at <= a < order@.len() ==> key < keys@[(#[trigger] order@[a]) as int]->0,
            at > 0 ==> keys@[order@[at - 1] as int]->0 <= key,
        decreases at,
    {
        let before: usize = order[at - 1];
        assert(order@[at - 1] == before);
        let goes_on: bool = match keys[before] {
            Some(other) => key < other,
            None => false,
        };
        if !goes_on {
            break;
        }
        at = at - 1;
    }
    order.insert(at, i);
    proof {
        let was = old(order)@;
        let now = order@;
        assert(now == was.insert(at as int, i));
        assert forall|a: int| 0 <= a < now.len() implies (#[trigger] now[a]) <= i
            && keys@[now[a] as int] is Some by {
            if a < at {
                assert(now[a] == was[a]);
            } else if a > at {
                assert(now[a] == was[a - 1]);
            }
        }
        assert forall|r: int| 0 <= r <= i && (#[trigger] keys@[r]) is Some implies exists|a: int|
            0 <= a < now.len() && #[trigger] now[a] == r by {
            if r == i {
                assert(now[at as int] == i);
            } else {
                let a = choose|a: int| 0 <= a < was.len() && #[trigger] was[a] == r;
                if a < at {
                    assert(now[a] == r);
                } else {
                    assert(now[a + 1] == r);
                }
            }
        }
        assert forall|a: int, b: int| 0 <= a < b < now.len() implies comes_before(
            keys@,
            #[trigger] now[a] as int,
            #[trigger] now[b] as int,
        ) by {
            let x = if a < at {
                a
            } else {
                a - 1
            };
            let y = if b < at {
                b
            } else {
                b - 1
            };
            if a != at {
                assert(now[a] == was[x]);
            }
            if b != at {
                assert(now[b] == was[y]);
            }
            if a != at && b != at {
                assert(comes_before(keys@, was[x] as int, was[y] as int));
            } else if b == at && a < at - 1 {
                assert(comes_before(keys@, was[a] as int, was[at - 1] as int));
            }
        }
    }
}

/// There is only one such order.
pub proof fn law_order_is_unique(a: Seq<usize>, b: Seq<usize>, keys: Seq<Option<i128>>)
    requires
        in_order(a, keys),
        in_order(b, keys),
    ensures
        a == b,
{
    lemma_orders_agree(a, b, keys, a.len() as int);
    lemma_orders_agree(b, a, keys, b.len() as int);
    assert(a =~= b);
}

/// A listing leaves nothing open: there is only one.
pub proof fn law_listing_is_unique<A>(
    rows: Seq<A>,
    keys: Seq<Option<i128>>,
    a: Seq<A>,
    b: Seq<A>,
)
    requires
        listing(rows, keys, a),
        listing(rows, keys, b),
    ensures
        a == b,
{
    let x = choose|order: Seq<usize>| #[trigger] lists(rows, keys, order, a);
    let y = choose|order: Seq<usize>| #[trigger] lists(rows, keys, order, b);
    law_order_is_unique(x, y, keys);
}

/// A listing holds the rows that have a key and no others.
pub proof fn law_listing_is_complete<A>(
    rows: Seq<A>,
    keys: Seq<Option<i128>>,
    out: Seq<A>,
    row: A,
)
    requires
        listing(rows, keys, out),
        rows.len() == keys.len(),
    ensures
        out.contains(row) <==> exists|i: int|
            0 <= i < rows.len() && #[trigger] rows[i] == row && keys[i] is Some,
{
    let order = choose|order: Seq<usize>| #[trigger] lists(rows, keys, order, out);
    if out.contains(row) {
        let a = choose|a: int| 0 <= a < out.len() && out[a] == row;
        assert(rows[order[a] as int] == row);
    }
    if exists|i: int| 0 <= i < rows.len() && #[trigger] rows[i] == row && keys[i] is Some {
        let i = choose|i: int|
            0 <= i < rows.len() && #[trigger] rows[i] == row && keys[i] is Some;
        let a = choose|a: int| 0 <= a < order.len() && #[trigger] order[a] == i;
        assert(out[a] == row);
    }
}

proof fn lemma_orders_agree(a: Seq<usize>, b: Seq<usize>, keys: Seq<Option<i128>>, n: int)
    requires
        in_order(a, keys),
        in_order(b, keys),
        0 <= n <= a.len(),
    ensures
        n <= b.len(),
        forall|k: int| 0 <= k < n ==> a[k] == b[k],
    decreases n,
{
    if n > 0 {
        let k = n - 1;
        lemma_orders_agree(a, b, keys, k);
        let m = choose|m: int| 0 <= m < b.len() && #[trigger] b[m] == a[k];
        assert(keys[a[k] as int] is Some);
        if m < k {
            assert(comes_before(keys, a[m] as int, a[k] as int));
        }
        if m > k {
            assert(comes_before(keys, b[k] as int, b[m] as int));
            assert(keys[b[k] as int] is Some);
            let l = choose|l: int| 0 <= l < a.len() && #[trigger] a[l] == b[k];
            if l < k {
                assert(comes_before(keys, b[l] as int, b[k] as int));
            } else if l > k {
                assert(comes_before(keys, a[k] as int, a[l] as int));
            }
        }
    }
}

/// A listing holds each row that has a key once, the lowest key first; rows with
/// the same key stand as they do in the table.
pub proof fn law_listing_goes_by_the_keys<A>(
    rows: Seq<A>,
    keys: Seq<Option<i128>>,
    out: Seq<A>,
) -> (places: Seq<int>)
    requires
        listing(rows, keys, out),
    ensures
        places.len() == out.len(),
        forall|a: int|
            0 <= a < out.len() ==> 0 <= #[trigger] places[a] < keys.len()
                && keys[places[a]] is Some && out[a] == rows[places[a]],
        forall|i: int|
            0 <= i < keys.len() && (#[trigger] keys[i]) is Some ==> exists|a: int|
                0 <= a < out.len() && #[trigger] places[a] == i,
        forall|a: int, b: int|
            0 <= a < b < out.len() ==> {
                let i = #[trigger] places[a];
                let j = #[trigger] places[b];
                keys[i]->0 < keys[j]->0 || keys[i]->0 == keys[j]->0 && i < j
            },
{
    let order = choose|order: Seq<usize>| #[trigger] lists(rows, keys, order, out);
    let places = Seq::new(order.len(), |a: int| order[a] as int);
    assert forall|i: int| 0 <= i < keys.len() && (#[trigger] keys[i]) is Some implies exists|a: int|
        0 <= a < out.len() && #[trigger] places[a] == i by {
        let a = choose|a: int| 0 <= a < order.len() && #[trigger] order[a] == i;
        assert(places[a] == i);
    }
    assert forall|a: int, b: int| 0 <= a < b < out.len() implies {
        let i = #[trigger] places[a];
        let j = #[trigger] places[b];
        keys[i]->0 < keys[j]->0 || keys[i]->0 == keys[j]->0 && i < j
    } by {
        assert(comes_before(keys, order[a] as int, order[b] as int));
    }
    places
}

} // verus!
