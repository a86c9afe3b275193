//! Putting rows in order without disturbing rows that tie.

use vstd::prelude::*;

verus! {

/// Rows that are listed in some order.
pub trait Ordered: DeepView + Sized {
    /// Whether `a` does not come after `b`. Rows that come neither before nor after each
    /// other tie.
    spec fn le(a: Self::V, b: Self::V) -> bool;

    /// Of two rows, one does not come after the other.
    proof fn le_total(a: Self::V, b: Self::V)
        ensures
            Self::le(a, b) || Self::le(b, a),
    ;

    /// The order is transitive.
    proof fn le_transitive(a: Self::V, b: Self::V, c: Self::V)
        requires
            Self::le(a, b),
            Self::le(b, c),
        ensures
            Self::le(a, c),
    ;

    /// Whether this row does not come after `other`.
    fn not_after(&self, other: &Self) -> (answer: bool)
        ensures
            answer == Self::le(self.deep_view(), other.deep_view()),
    ;
}

/// Whether two rows tie.
pub open spec fn ties<T: Ordered>(a: T::V, b: T::V) -> bool {
    T::le(a, b) && T::le(b, a)
}

/// Whether no row comes before a row to its left.
pub open spec fn in_order<T: Ordered>(rows: Seq<T::V>) -> bool {
    forall|i: int, j: int| 0 <= i <= j < rows.len() ==> T::le(#[trigger] rows[i], #[trigger] rows[j])
}

/// `rows` with one more row, put behind the last one that it does not come before.
pub open spec fn placed<T: Ordered>(rows: Seq<T::V>, row: T::V) -> Seq<T::V>
    decreases rows.len(),
{
    if rows.len() == 0 || T::le(rows.last(), row) {
        rows.push(row)
    } else {
        placed::<T>(rows.drop_last(), row).push(rows.last())
    }
}

/// `rows` in order; rows that tie stay as they were.
pub open spec fn ordered<T: Ordered>(rows: Seq<T::V>) -> Seq<T::V>
    decreases rows.len(),
{
    if rows.len() == 0 {
        Seq::empty()
    } else {
        placed::<T>(ordered::<T>(rows.drop_last()), rows.last())
    }
}

/// Putting a row in its place brings no other row in.
pub proof fn placed_adds_one_row<T: Ordered>(rows: Seq<T::V>, row: T::V)
    ensures
        forall|i: int|
            0 <= i < placed::<T>(rows, row).len() ==> (#[trigger] placed::<T>(rows, row)[i] == row
                || rows.contains(placed::<T>(rows, row)[i])),
    decreases rows.len(),
{
    let result = placed::<T>(rows, row);
    if rows.len() == 0 || T::le(rows.last(), row) {
        assert forall|i: int| 0 <= i < result.len() implies (#[trigger] result[i] == row
            || rows.contains(result[i])) by {
            if i < rows.len() {
                assert(result[i] == rows[i]);
            }
        }
    } else {
        let front = rows.drop_last();
        placed_adds_one_row::<T>(front, row);
        let inner = placed::<T>(front, row);
        assert forall|i: int| 0 <= i < result.len() implies (#[trigger] result[i] == row
            || rows.contains(result[i])) by {
            if i < inner.len() {
                assert(result[i] == inner[i]);
                if inner[i] != row {
                    let k = choose|k: int| 0 <= k < front.len() && front[k] == inner[i];
                    assert(rows[k] == front[k]);
                }
            } else {
                assert(rows[rows.len() - 1] == rows.last());
            }
        }
    }
}

proof fn placed_keeps_order<T: Ordered>(rows: Seq<T::V>, row: T::V)
    requires
        in_order::<T>(rows),
    ensures
        in_order::<T>(placed::<T>(rows, row)),
        placed::<T>(rows, row).len() == rows.len() + 1,
        placed::<T>(rows, row).to_multiset() == rows.to_multiset().insert(row),
    decreases rows.len(),
{
    broadcast use vstd::seq_lib::group_to_multiset_ensures;

    let result = placed::<T>(rows, row);
    if rows.len() == 0 || T::le(rows.last(), row) {
        assert forall|i: int, j: int| 0 <= i <= j < result.len() implies T::le(
            #[trigger] result[i],
            #[trigger] result[j],
        ) by {
            if j == rows.len() {
                if i == j {
                    T::le_total(row, row);
                } else {
                    T::le_transitive(rows[i], rows.last(), row);
                }
            }
        }
    } else {
        let last = rows.last();
        let front = rows.drop_last();
        placed_keeps_order::<T>(front, row);
        placed_adds_one_row::<T>(front, row);
        let inner = placed::<T>(front, row);
        T::le_total(row, last);
        assert forall|i: int| 0 <= i < inner.len() implies T::le(#[trigger] inner[i], last) by {
            if inner[i] != row {
                let k = choose|k: int| 0 <= k < front.len() && front[k] == inner[i];
                assert(rows[k] == front[k]);
            }
        }
        assert forall|i: int, j: int| 0 <= i <= j < result.len() implies T::le(
            #[trigger] result[i],
            #[trigger] result[j],
        ) by {
            if j == inner.len() {
                if i == j {
                    T::le_total(last, last);
                } else {
                    assert(result[i] == inner[i]);
                }
            } else {
                assert(result[i] == inner[i] && result[j] == inner[j]);
            }
        }
        assert(rows =~= front.push(last));
        assert(result.to_multiset() =~= rows.to_multiset().insert(row));
    }
}

/// Putting rows in order does put them in order, and neither loses nor adds a row.
pub proof fn ordered_is_in_order<T: Ordered>(rows: Seq<T::V>)
    ensures
        in_order::<T>(ordered::<T>(rows)),
        ordered::<T>(rows).len() == rows.len(),
        ordered::<T>(rows).to_multiset() == rows.to_multiset(),
    decreases rows.len(),
{
    broadcast use vstd::seq_lib::group_to_multiset_ensures;

    if rows.len() > 0 {
        ordered_is_in_order::<T>(rows.drop_last());
        placed_keeps_order::<T>(ordered::<T>(rows.drop_last()), rows.last());
        assert(rows =~= rows.drop_last().push(rows.last()));
    } else {
        assert(rows =~= Seq::empty());
    }
}

/// Filtering a sequence with one more element.
pub proof fn filter_push<A>(rows: Seq<A>, row: A, keep: spec_fn(A) -> bool)
    ensures
        rows.push(row).filter(keep) == (if keep(row) {
            rows.filter(keep).push(row)
        } else {
            rows.filter(keep)
        }),
{
    reveal(Seq::filter);
    assert(rows.push(row).drop_last() =~= rows);
}

/// Where nothing satisfies `wanted`, a filter keeps nothing.
pub proof fn none_kept<A>(rows: Seq<A>, wanted: spec_fn(A) -> bool)
    requires
        forall|i: int| 0 <= i < rows.len() ==> !wanted(#[trigger] rows[i]),
    ensures
        rows.filter(wanted) == Seq::<A>::empty(),
    decreases rows.len(),
{
    reveal(Seq::filter);
    if rows.len() > 0 {
        none_kept(rows.drop_last(), wanted);
        assert(!wanted(rows[rows.len() - 1]));
    }
}

/// Filtering keeps everything where everything satisfies the condition.
pub proof fn all_kept<A>(rows: Seq<A>, wanted: spec_fn(A) -> bool)
    requires
        forall|i: int| 0 <= i < rows.len() ==> wanted(#[trigger] rows[i]),
    ensures
        rows.filter(wanted) == rows,
    decreases rows.len(),
{
    reveal(Seq::filter);
    if rows.len() > 0 {
        all_kept(rows.drop_last(), wanted);
        assert(wanted(rows[rows.len() - 1]));
        assert(rows.drop_last().push(rows.last()) =~= rows);
    }
}

/// The first element that satisfies `wanted` is the first that a filter keeps.
pub proof fn first_kept<A>(rows: Seq<A>, wanted: spec_fn(A) -> bool, at: int)
    requires
        0 <= at < rows.len(),
        wanted(rows[at]),
        forall|i: int| 0 <= i < at ==> !wanted(#[trigger] rows[i]),
    ensures
        rows.filter(wanted).len() > 0,
        rows.filter(wanted)[0] == rows[at],
{
    let before = rows.take(at);
    let hit = seq![rows[at]];
    let after = rows.skip(at + 1);
    none_kept(before, wanted);
    assert(rows =~= before + (hit + after));
    Seq::filter_distributes_over_add(before, hit + after, wanted);
    Seq::filter_distributes_over_add(hit, after, wanted);
    assert(hit =~= Seq::empty().push(rows[at]));
    filter_push(Seq::empty(), rows[at], wanted);
    none_kept(Seq::empty(), wanted);
}

/// Filtering twice is filtering by both conditions.
pub proof fn filter_twice<A>(
    rows: Seq<A>,
    first: spec_fn(A) -> bool,
    second: spec_fn(A) -> bool,
    both: spec_fn(A) -> bool,
)
    requires
        forall|row: A| #[trigger] both(row) <==> first(row) && second(row),
    ensures
        rows.filter(first).filter(second) == rows.filter(both),
    decreases rows.len(),
{
    if rows.len() > 0 {
        let front = rows.drop_last();
        filter_twice(front, first, second, both);
        assert(rows =~= front.push(rows.last()));
        filter_push(front, rows.last(), first);
        filter_push(front, rows.last(), both);
        filter_push(front.filter(first), rows.last(), second);
        assert(both(rows.last()) <==> first(rows.last()) && second(rows.last()));
    } else {
        reveal(Seq::filter);
    }
}

proof fn placed_then_filtered<T: Ordered>(rows: Seq<T::V>, row: T::V, keep: spec_fn(T::V) -> bool)
    requires
        in_order::<T>(rows),
    ensures
        placed::<T>(rows, row).filter(keep) == (if keep(row) {
            placed::<T>(rows.filter(keep), row)
        } else {
            rows.filter(keep)
        }),
    decreases rows.len(),
{
    if rows.len() == 0 {
        filter_push(rows, row, keep);
        reveal(Seq::filter);
        assert(rows.filter(keep) =~= rows);
    } else {
        let last = rows.last();
        let front = rows.drop_last();
        assert(rows =~= front.push(last));
        filter_push(front, last, keep);
        if T::le(last, row) {
            filter_push(rows, row, keep);
            if keep(row) && rows.filter(keep).len() > 0 {
                let kept = rows.filter(keep);
                assert(rows.contains(kept.last())) by {
                    kept_is_there(rows, keep, kept.len() - 1);
                }
                let k = choose|k: int| 0 <= k < rows.len() && rows[k] == kept.last();
                assert(T::le(rows[k], rows[rows.len() - 1]));
                T::le_transitive(kept.last(), last, row);
            }
        } else {
            assert(in_order::<T>(front)) by {
                assert forall|i: int, j: int| 0 <= i <= j < front.len() implies T::le(
                    #[trigger] front[i],
                    #[trigger] front[j],
                ) by {
                    assert(T::le(rows[i], rows[j]));
                }
            }
            placed_then_filtered::<T>(front, row, keep);
            filter_push(placed::<T>(front, row), last, keep);
            if keep(last) && keep(row) {
                let kept = front.filter(keep).push(last);
                assert(kept.drop_last() =~= front.filter(keep));
            }
        }
    }
}

/// What a filter keeps was there before.
pub proof fn kept_is_there<A>(rows: Seq<A>, keep: spec_fn(A) -> bool, i: int)
    requires
        0 <= i < rows.filter(keep).len(),
    ensures
        rows.contains(rows.filter(keep)[i]),
        keep(rows.filter(keep)[i]),
    decreases rows.len(),
{
    rows.lemma_filter_pred(keep, i);
    if rows.len() > 0 {
        let front = rows.drop_last();
        assert(rows =~= front.push(rows.last()));
        filter_push(front, rows.last(), keep);
        if i < front.filter(keep).len() {
            kept_is_there(front, keep, i);
            let k = choose|k: int| 0 <= k < front.len() && front[k] == front.filter(keep)[i];
            assert(rows[k] == front[k]);
        } else {
            assert(rows[rows.len() - 1] == rows.last());
        }
    } else {
        reveal(Seq::filter);
    }
}

/// Leaving rows out and putting the rest in order can be done in either sequence.
pub proof fn ordered_then_filtered<T: Ordered>(rows: Seq<T::V>, keep: spec_fn(T::V) -> bool)
    ensures
        ordered::<T>(rows).filter(keep) == ordered::<T>(rows.filter(keep)),
    decreases rows.len(),
{
    if rows.len() > 0 {
        let front = rows.drop_last();
        ordered_then_filtered::<T>(front, keep);
        ordered_is_in_order::<T>(front);
        placed_then_filtered::<T>(ordered::<T>(front), rows.last(), keep);
        assert(rows =~= front.push(rows.last()));
        filter_push(front, rows.last(), keep);
        if keep(rows.last()) {
            assert(front.filter(keep).push(rows.last()).drop_last() =~= front.filter(keep));
        }
    } else {
        reveal(Seq::filter);
        assert(rows.filter(keep) =~= Seq::empty());
    }
}

proof fn placed_is_stable<T: Ordered>(rows: Seq<T::V>, row: T::V, key: T::V)
    ensures
        placed::<T>(rows, row).filter(|r: T::V| ties::<T>(r, key)) == rows.push(row).filter(
            |r: T::V| ties::<T>(r, key),
        ),
    decreases rows.len(),
{
    let keep = |r: T::V| ties::<T>(r, key);
    if rows.len() == 0 || T::le(rows.last(), row) {
    } else {
        let last = rows.last();
        let front = rows.drop_last();
        placed_is_stable::<T>(front, row, key);
        filter_push(placed::<T>(front, row), last, keep);
        filter_push(front, row, keep);
        filter_push(front, last, keep);
        assert(rows =~= front.push(last));
        filter_push(rows, row, keep);
        if keep(row) && keep(last) {
            T::le_transitive(last, key, row);
        }
    }
}

/// Putting rows in order leaves rows that tie as they were: for every `key`, the rows that
/// tie with it come out in the sequence in which they went in.
pub proof fn ordered_is_stable<T: Ordered>(rows: Seq<T::V>, key: T::V)
    ensures
        ordered::<T>(rows).filter(|r: T::V| ties::<T>(r, key)) == rows.filter(
            |r: T::V| ties::<T>(r, key),
        ),
    decreases rows.len(),
{
    let keep = |r: T::V| ties::<T>(r, key);
    if rows.len() > 0 {
        let front = rows.drop_last();
        ordered_is_stable::<T>(front, key);
        placed_is_stable::<T>(ordered::<T>(front), rows.last(), key);
        filter_push(ordered::<T>(front), rows.last(), keep);
        filter_push(front, rows.last(), keep);
        assert(rows =~= front.push(rows.last()));
    } else {
        assert(rows =~= Seq::empty());
    }
}

/// Rows that are in order already are left as they are.
pub proof fn ordered_keeps_order<T: Ordered>(rows: Seq<T::V>)
    requires
        in_order::<T>(rows),
    ensures
        ordered::<T>(rows) == rows,
    decreases rows.len(),
{
    if rows.len() > 0 {
        let front = rows.drop_last();
        assert(in_order::<T>(front)) by {
            assert forall|i: int, j: int| 0 <= i <= j < front.len() implies T::le(
                #[trigger] front[i],
                #[trigger] front[j],
            ) by {
                assert(T::le(rows[i], rows[j]));
            }
        }
        ordered_keeps_order::<T>(front);
        if front.len() > 0 {
            assert(T::le(rows[rows.len() - 2], rows[rows.len() - 1]));
        }
        assert(front.push(rows.last()) =~= rows);
    } else {
        assert(rows =~= Seq::empty());
    }
}

/// A row is there before the rows are put in order if and only if it is there after.
pub proof fn ordered_has_same_rows<T: Ordered>(rows: Seq<T::V>)
    ensures
        forall|row: T::V|
            #![trigger rows.contains(row)]
            #![trigger ordered::<T>(rows).contains(row)]
            rows.contains(row) <==> ordered::<T>(rows).contains(row),
{
    broadcast use vstd::seq_lib::group_to_multiset_ensures;

    ordered_is_in_order::<T>(rows);
    assert forall|row: T::V|
        #![trigger rows.contains(row)]
        #![trigger ordered::<T>(rows).contains(row)]
        rows.contains(row) <==> ordered::<T>(rows).contains(row) by {
        assert(rows.contains(row) <==> rows.to_multiset().count(row) > 0);
        assert(ordered::<T>(rows).contains(row) <==> ordered::<T>(rows).to_multiset().count(row)
            > 0);
    }
}

/// Puts one more row in its place among rows that are in order.
pub fn place<T: Ordered>(rows: &mut Vec<T>, row: T)
    ensures
        final(rows).deep_view() == placed::<T>(old(rows).deep_view(), row.deep_view()),
{
    let ghost all = rows.deep_view();
    let ghost key = row.deep_view();
    let mut i: usize = rows.len();
    assert(all.take(all.len() as int) =~= all);
    assert(placed::<T>(all, key) =~= placed::<T>(all.take(i as int), key) + all.skip(i as int));
    while i > 0 && !rows[i - 1].not_after(&row)
        invariant
            i <= rows.len(),
            all == rows.deep_view(),
            key == row.deep_view(),
            placed::<T>(all, key) == placed::<T>(all.take(i as int), key) + all.skip(i as int),
        decreases i,
    {
        assert(all.take(i as int).drop_last() =~= all.take(i - 1));
        assert(all.take(i as int).last() == all[i - 1]);
        assert(placed::<T>(all, key) =~= placed::<T>(all.take(i - 1), key) + all.skip(i - 1));
        i = i - 1;
    }
    rows.insert(i, row);
    assert(placed::<T>(all.take(i as int), key) == all.take(i as int).push(key)) by {
        if i > 0 {
            assert(all.take(i as int).last() == all[i - 1]);
        }
    }
    assert(rows.deep_view() =~= all.take(i as int).push(key) + all.skip(i as int));
}

} // verus!
