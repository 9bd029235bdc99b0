//! Tables as sequences of rows.

use vstd::prelude::*;

verus! {

/// The contents of a table.
pub open spec fn contents<T: View>(rows: Seq<T>) -> Seq<T::V> {
    Seq::new(rows.len(), |i: int| rows[i]@)
}

/// How deleting goes on by one row: `done` rows were looked at, and those of
/// them that stay come before the rest.
pub proof fn lemma_delete_step<A>(all: Seq<A>, done: int, keep: spec_fn(A) -> bool)
    requires
        0 <= done < all.len(),
    ensures
        all.subrange(0, done + 1).filter(keep) == if keep(all[done]) {
            all.subrange(0, done).filter(keep).push(all[done])
        } else {
            all.subrange(0, done).filter(keep)
        },
        all.subrange(done, all.len() as int) == seq![all[done]] + all.subrange(
            done + 1,
            all.len() as int,
        ),
{
    reveal(Seq::filter);
    assert(all.subrange(0, done + 1).drop_last() =~= all.subrange(0, done));
    assert(all.subrange(done, all.len() as int) =~= seq![all[done]] + all.subrange(
        done + 1,
        all.len() as int,
    ));
}

/// Deletes the rows that are not marked, and tells how many they were. The
/// marks say of each row whether it is to be kept.
pub(crate) fn keep_marked<T: View>(
    rows: &mut Vec<T>,
    marks: &Vec<bool>,
    Ghost(keep): Ghost<spec_fn(T::V) -> bool>,
) -> (deleted: usize)
    requires
        marks@.len() == old(rows)@.len(),
        forall|i: int|
            0 <= i < marks@.len() ==> #[trigger] marks@[i] == keep(contents(old(rows)@)[i]),
    ensures
        contents(final(rows)@) == contents(old(rows)@).filter(keep),
        deleted == old(rows)@.len() - final(rows)@.len(),
{
    let ghost all = contents(rows@);
    let total: usize = rows.len();
    let mut done: usize = 0;
    let mut i: usize = 0;
    proof {
        reveal(Seq::filter);
        assert(all.subrange(0, 0).filter(keep) =~= Seq::empty());
        assert(contents(rows@) =~= all.subrange(0, 0).filter(keep) + all.subrange(
            0,
            all.len() as int,
        ));
    }
    while done < total
        invariant
            i <= done <= total == all.len() == marks@.len(),
            forall|j: int| 0 <= j < marks@.len() ==> #[trigger] marks@[j] == keep(all[j]),
            contents(rows@) == all.subrange(0, done as int).filter(keep) + all.subrange(
                done as int,
                all.len() as int,
            ),
            i == all.subrange(0, done as int).filter(keep).len(),
        decreases total - done,
    {
        let ghost before = contents(rows@);
        assert(contents(rows@).len() == i + (all.len() - done));
        proof {
            lemma_delete_step(all, done as int, keep);
        }
        if marks[done] {
            i = i + 1;
        } else {
            rows.remove(i);
            assert(contents(rows@) =~= before.remove(i as int));
        }
        done = done + 1;
        assert(contents(rows@) =~= all.subrange(0, done as int).filter(keep) + all.subrange(
            done as int,
            all.len() as int,
        ));
    }
    assert(all.subrange(0, done as int) =~= all);
    assert(contents(rows@) =~= all.filter(keep));
    assert(contents(rows@).len() == i);
    total - i
}

/// A deletion keeps rows, and no others, in the order that they had.
pub proof fn lemma_filter_origin<A>(all: Seq<A>, keep: spec_fn(A) -> bool)
    ensures
        exists|from: Seq<int>| #[trigger] kept_from(all, keep, from),
    decreases all.len(),
{
    reveal(Seq::filter);
    if all.len() == 0 {
        assert(kept_from(all, keep, Seq::empty()));
    } else {
        let front = all.drop_last();
        lemma_filter_origin(front, keep);
        let from = choose|from: Seq<int>| #[trigger] kept_from(front, keep, from);
        let more = if keep(all.last()) {
            from.push(all.len() - 1)
        } else {
            from
        };
        assert(kept_from(all, keep, more));
    }
}

/// Whether the rows that stay come from the places `from` of the table.
pub open spec fn kept_from<A>(all: Seq<A>, keep: spec_fn(A) -> bool, from: Seq<int>) -> bool {
    &&& from.len() == all.filter(keep).len()
    &&& forall|a: int|
        0 <= a < from.len() ==> 0 <= #[trigger] from[a] < all.len() && keep(all[from[a]])
            && all.filter(keep)[a] == all[from[a]]
    &&& forall|a: int, b: int| 0 <= a < b < from.len() ==> #[trigger] from[a] < #[trigger] from[b]
}

} // verus!
