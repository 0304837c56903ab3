//! Rows in the order of their names.

use vstd::prelude::*;

use crate::text;

verus! {

/// What a row is ordered by: a name, then a second one that may be missing.
pub type Key = (Seq<char>, Option<Seq<char>>);

/// Whether one key comes before another. A missing name comes first.
pub open spec fn key_less(a: Key, b: Key) -> bool {
    text::less_spec(a.0, b.0) || (a.0 == b.0 && match (a.1, b.1) {
        (None, Some(_)) => true,
        (Some(x), Some(y)) => text::less_spec(x, y),
        _ => false,
    })
}

/// A row with a key.
pub trait Keyed: View {
    /// The key of a row.
    spec fn key_of(row: Self::V) -> Key;

    /// Whether a row comes before another.
    fn before(&self, other: &Self) -> (r: bool)
        ensures
            r == key_less(Self::key_of(self@), Self::key_of(other@)),
    ;
}

/// The views of rows.
pub open spec fn views<T: View>(rows: Seq<T>) -> Seq<T::V> {
    rows.map_values(|row: T| row@)
}

/// Rows with one more, behind all that do not come after it.
pub open spec fn placed<T: Keyed>(rows: Seq<T::V>, row: T::V) -> Seq<T::V>
    decreases rows.len(),
{
    if rows.len() == 0 || !key_less(T::key_of(row), T::key_of(rows.last())) {
        rows.push(row)
    } else {
        placed::<T>(rows.drop_last(), row).push(rows.last())
    }
}

/// Rows in the order of their keys; those with the same key stay as they came.
pub open spec fn sorted<T: Keyed>(rows: Seq<T::V>) -> Seq<T::V>
    decreases rows.len(),
{
    if rows.len() == 0 {
        Seq::empty()
    } else {
        placed::<T>(sorted::<T>(rows.drop_last()), rows.last())
    }
}

/// No row stands behind one that it comes before.
pub open spec fn ordered<T: Keyed>(rows: Seq<T::V>) -> bool {
    forall|i: int, j: int|
        0 <= i < j < rows.len() ==> !key_less(
            T::key_of(#[trigger] rows[j]),
            T::key_of(#[trigger] rows[i]),
        )
}

proof fn lemma_not_less(a: Key, b: Key, c: Key)
    requires
        key_less(a, b),
        !key_less(c, b),
    ensures
        !key_less(c, a),
{
    if key_less(c, a) {
        if text::less_spec(c.0, a.0) {
            if text::less_spec(a.0, b.0) {
                text::less_transitive(c.0, a.0, b.0);
            }
        } else {
            if a.0 == b.0 && c.1 is Some && a.1 is Some && b.1 is Some {
                text::less_transitive(c.1->0, a.1->0, b.1->0);
            }
        }
    }
}

proof fn lemma_less_not_after(a: Key, b: Key)
    requires
        key_less(a, b),
    ensures
        !key_less(b, a),
{
    text::less_irreflexive(b.0);
    if b.1 is Some {
        text::less_irreflexive(b.1->0);
    }
    lemma_not_less(a, b, b);
}

proof fn lemma_placed<T: Keyed>(rows: Seq<T::V>, row: T::V)
    requires
        ordered::<T>(rows),
    ensures
        ordered::<T>(placed::<T>(rows, row)),
        placed::<T>(rows, row).to_multiset() == rows.to_multiset().insert(row),
    decreases rows.len(),
{
    broadcast use vstd::seq_lib::group_to_multiset_ensures;

    let all = placed::<T>(rows, row);
    if rows.len() == 0 {
    } else if !key_less(T::key_of(row), T::key_of(rows.last())) {
        assert forall|i: int, j: int| 0 <= i < j < all.len() implies !key_less(
            T::key_of(#[trigger] all[j]),
            T::key_of(#[trigger] all[i]),
        ) by {
            if j == rows.len() && i < rows.len() - 1 && key_less(
                T::key_of(row),
                T::key_of(rows[i]),
            ) {
                lemma_weak(T::key_of(row), T::key_of(rows[i]), T::key_of(rows.last()));
            }
        }
    } else {
        let rest = rows.drop_last();
        lemma_placed::<T>(rest, row);
        let part = placed::<T>(rest, row);
        assert(rows =~= rest.push(rows.last()));
        assert(all == part.push(rows.last()));
        assert forall|i: int, j: int| 0 <= i < j < all.len() implies !key_less(
            T::key_of(#[trigger] all[j]),
            T::key_of(#[trigger] all[i]),
        ) by {
            if j == part.len() {
                assert(all[i] == part[i]);
                assert(part.contains(part[i]));
                assert(part.to_multiset().contains(part[i]));
                if part[i] == row {
                    lemma_less_not_after(T::key_of(row), T::key_of(rows.last()));
                } else {
                    assert(rest.to_multiset().contains(part[i]));
                    assert(rest.contains(part[i]));
                    let k = choose|k: int| 0 <= k < rest.len() && rest[k] == part[i];
                    assert(rows[k] == part[i]);
                }
            } else {
                assert(all[i] == part[i] && all[j] == part[j]);
            }
        }
        assert(all.to_multiset() =~= rows.to_multiset().insert(row));
    }
}

proof fn lemma_weak(a: Key, b: Key, c: Key)
    requires
        key_less(a, b),
        !key_less(a, c),
    ensures
        key_less(c, b),
{
    if a.0 == c.0 {
        if a.0 == b.0 && a.1 is Some && c.1 is Some && a.1 != c.1 {
            text::less_total(a.1->0, c.1->0);
            text::less_transitive(c.1->0, a.1->0, b.1->0);
        }
    } else {
        text::less_total(a.0, c.0);
        if text::less_spec(a.0, b.0) {
            text::less_transitive(c.0, a.0, b.0);
        }
    }
}

/// Sorting keeps every row, as often as it occurs, and puts them in order.
pub proof fn sorting_keeps_all_rows<T: Keyed>(rows: Seq<T::V>)
    ensures
        ordered::<T>(sorted::<T>(rows)),
        sorted::<T>(rows).to_multiset() == rows.to_multiset(),
    decreases rows.len(),
{
    broadcast use vstd::seq_lib::group_to_multiset_ensures;

    if rows.len() > 0 {
        sorting_keeps_all_rows::<T>(rows.drop_last());
        lemma_placed::<T>(sorted::<T>(rows.drop_last()), rows.last());
        assert(rows =~= rows.drop_last().push(rows.last()));
    } else {
        assert(rows =~= Seq::empty());
    }
}

fn place<T: Keyed>(rows: &mut Vec<T>, row: T)
    ensures
        views(final(rows)@) == placed::<T>(views(old(rows)@), row@),
{
    let ghost all = views(rows@);
    let ghost new = row@;
    let mut at: usize = rows.len();
    proof {
        assert(all.take(all.len() as int) =~= all);
        assert(placed::<T>(all, new) =~= placed::<T>(all.take(all.len() as int), new) + all.skip(
            all.len() as int,
        ));
    }
    while at > 0
        invariant_except_break
            placed::<T>(all, new) == placed::<T>(all.take(at as int), new) + all.skip(at as int),
        invariant
            at <= rows@.len(),
            all == views(rows@),
            all.len() == rows@.len(),
            new == row@,
        ensures
            placed::<T>(all, new) == all.take(at as int).push(new) + all.skip(at as int),
        decreases at,
    {
        let ghost head = all.take(at as int);
        assert(head.last() == all[at - 1]);
        assert(all[at - 1] == rows@[at - 1]@);
        if !row.before(&rows[at - 1]) {
            break;
        }
        proof {
            assert(head.drop_last() =~= all.take(at - 1));
            assert(placed::<T>(all.take(at - 1), new).push(all[at - 1]) + all.skip(at as int)
                =~= placed::<T>(all.take(at - 1), new) + all.skip(at - 1));
        }
        at = at - 1;
    }
    rows.insert(at, row);
    assert(views(rows@) =~= all.take(at as int).push(new) + all.skip(at as int));
}

/// Puts rows in the order of their keys.
pub fn sort<T: Keyed>(rows: Vec<T>) -> (r: Vec<T>)
    ensures
        views(r@) == sorted::<T>(views(rows@)),
{
    let ghost all = views(rows@);
    let mut rest = rows;
    let mut r: Vec<T> = Vec::new();
    assert(views(r@) =~= Seq::empty());
    assert(views(rest@) =~= all.skip(0));
    let ghost mut n: int = 0;
    while rest.len() > 0
        invariant
            0 <= n <= all.len(),
            views(rest@) == all.skip(n),
            rest@.len() == all.len() - n,
            views(r@) == sorted::<T>(all.take(n)),
        decreases rest@.len(),
    {
        let ghost waiting = rest@;
        let row = rest.remove(0);
        proof {
            assert(views(waiting)[0] == all[n]);
            assert(rest@ =~= waiting.skip(1));
            assert forall|i: int| 0 <= i < rest@.len() implies #[trigger] views(rest@)[i] == all.skip(
                n + 1,
            )[i] by {
                assert(views(waiting)[i + 1] == all.skip(n)[i + 1]);
            }
            assert(views(rest@) =~= all.skip(n + 1));
            assert(all.take(n + 1).drop_last() =~= all.take(n));
            assert(all.take(n + 1).last() == all[n]);
        }
        place(&mut r, row);
        proof {
            n = n + 1;
        }
    }
    assert(all.take(n) =~= all);
    r
}

} // verus!
