//! Rows of a table: their contents as plain values, looking rows up and taking
//! rows out.

use vstd::prelude::*;

verus! {

/// The rows of a list as plain values.
pub open spec fn views<T: View>(rows: Seq<T>) -> Seq<T::V> {
    rows.map_values(|row: T| row@)
}

/// What an optional row holds.
pub open spec fn opt_view<T: View>(row: Option<T>) -> Option<T::V> {
    match row {
        Some(row) => Some(row@),
        None => None,
    }
}

/// The first row with a property.
pub open spec fn first<V>(rows: Seq<V>, p: spec_fn(V) -> bool) -> Option<V>
    decreases rows.len(),
{
    if rows.len() == 0 {
        None
    } else if p(rows[0]) {
        Some(rows[0])
    } else {
        first(rows.drop_first(), p)
    }
}

/// Whether some row has a property.
pub open spec fn some_row<V>(rows: Seq<V>, p: spec_fn(V) -> bool) -> bool {
    exists|i: int| 0 <= i < rows.len() && p(#[trigger] rows[i])
}

/// A row that is preceded only by rows without the property is the first with it.
pub proof fn lemma_first_at<V>(rows: Seq<V>, p: spec_fn(V) -> bool, k: int)
    requires
        0 <= k < rows.len(),
        p(rows[k]),
        forall|j: int| 0 <= j < k ==> !p(#[trigger] rows[j]),
    ensures
        first(rows, p) == Some(rows[k]),
    decreases rows.len(),
{
    if k > 0 {
        assert(!p(rows[0]));
        let rest = rows.drop_first();
        assert forall|j: int| 0 <= j < k - 1 implies !p(#[trigger] rest[j]) by {
            assert(rest[j] == rows[j + 1]);
        }
        lemma_first_at(rest, p, k - 1);
    }
}

/// Where no row has the property there is no first one.
pub proof fn lemma_first_none<V>(rows: Seq<V>, p: spec_fn(V) -> bool)
    ensures
        first(rows, p) is None <==> (forall|j: int|
            0 <= j < rows.len() ==> !p(#[trigger] rows[j])),
        first(rows, p) matches Some(row) ==> p(row) && rows.contains(row),
    decreases rows.len(),
{
    if rows.len() > 0 && !p(rows[0]) {
        let rest = rows.drop_first();
        lemma_first_none(rest, p);
        if first(rest, p) is None {
            assert forall|j: int| 0 <= j < rows.len() implies !p(#[trigger] rows[j]) by {
                if j > 0 {
                    assert(rest[j - 1] == rows[j]);
                }
            }
        } else {
            let row = first(rest, p)->0;
            let k = choose|k: int| 0 <= k < rest.len() && rest[k] == row;
            assert(rows[k + 1] == row);
            assert(p(rows[k + 1]));
        }
    } else if rows.len() > 0 {
        assert(p(rows[0]));
    }
}

/// A filter keeps rows different from each other.
pub proof fn lemma_filter_pairs<V>(
    rows: Seq<V>,
    p: spec_fn(V) -> bool,
    differ: spec_fn(V, V) -> bool,
)
    requires
        forall|i: int, j: int|
            0 <= i < j < rows.len() ==> differ(#[trigger] rows[i], #[trigger] rows[j]),
    ensures
        forall|i: int, j: int|
            0 <= i < j < rows.filter(p).len() ==> differ(
                #[trigger] rows.filter(p)[i],
                #[trigger] rows.filter(p)[j],
            ),
        forall|i: int|
            0 <= i < rows.filter(p).len() ==> p(#[trigger] rows.filter(p)[i]) && rows.contains(
                rows.filter(p)[i],
            ),
    decreases rows.len(),
{
    reveal(Seq::filter);
    if rows.len() > 0 {
        let rest = rows.drop_last();
        assert forall|i: int, j: int| 0 <= i < j < rest.len() implies differ(
            #[trigger] rest[i],
            #[trigger] rest[j],
        ) by {
            assert(differ(rows[i], rows[j]));
        }
        lemma_filter_pairs(rest, p, differ);
        let kept = rows.filter(p);
        let before = rest.filter(p);
        assert forall|i: int| 0 <= i < kept.len() implies p(#[trigger] kept[i]) && rows.contains(
            kept[i],
        ) by {
            if i < before.len() {
                assert(kept[i] == before[i]);
                let k = choose|k: int| 0 <= k < rest.len() && rest[k] == before[i];
                assert(rows[k] == kept[i]);
            } else {
                assert(kept[i] == rows.last());
            }
        }
        assert forall|i: int, j: int| 0 <= i < j < kept.len() implies differ(
            #[trigger] kept[i],
            #[trigger] kept[j],
        ) by {
            if j < before.len() {
                assert(differ(before[i], before[j]));
            } else {
                assert(kept[i] == before[i]);
                let k = choose|k: int| 0 <= k < rest.len() && rest[k] == before[i];
                assert(rows[k] == kept[i]);
                assert(differ(rows[k], rows[rows.len() - 1]));
            }
        }
    }
}

/// Takes out the rows that are not marked to be kept.
pub(crate) fn retain<T: View>(rows: &mut Vec<T>, keep: &Vec<bool>, Ghost(p): Ghost<spec_fn(T::V) -> bool>)
    requires
        keep@.len() == old(rows)@.len(),
        forall|i: int| 0 <= i < keep@.len() ==> #[trigger] keep@[i] == p(old(rows)@[i]@),
    ensures
        views(final(rows)@) == views(old(rows)@).filter(p),
{
    let ghost before = rows@;
    let ghost all = views(rows@);
    let mut i: usize = 0;
    assert(all.take(0).filter(p) =~= Seq::empty());
    for k in 0..keep.len()
        invariant
            keep@.len() == before.len(),
            all == views(before),
            forall|j: int| 0 <= j < keep@.len() ==> #[trigger] keep@[j] == p(before[j]@),
            i <= k,
            rows@.len() == i + (before.len() - k),
            i == all.take(k as int).filter(p).len(),
            forall|j: int| 0 <= j < i ==> (#[trigger] rows@[j])@ == all.take(k as int).filter(p)[j],
            forall|j: int| i <= j < rows@.len() ==> #[trigger] rows@[j] == before[j - i + k],
    {
        assert(all.take(k + 1).drop_last() =~= all.take(k as int));
        assert(all.take(k + 1).last() == before[k as int]@);
        assert(rows@[i as int] == before[k as int]);
        assert(keep@[k as int] == p(before[k as int]@));
        reveal(Seq::filter);
        if keep[k] {
            i = i + 1;
        } else {
            let _ = rows.remove(i);
        }
    }
    assert(all.take(keep@.len() as int) =~= all);
    assert(views(rows@) =~= all.filter(p));
}

} // verus!
