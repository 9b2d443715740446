//! Ordering rows by a text column.

use crate::text::{same, texts};
use vstd::prelude::*;

verus! {

/// Whether text `a` stands before text `b`: at the first difference the smaller
/// code point comes first, and a text stands before its continuations.
pub open spec fn text_lt(a: Seq<char>, b: Seq<char>) -> bool
    decreases a.len(),
{
    if b.len() == 0 {
        false
    } else if a.len() == 0 {
        true
    } else if a[0] != b[0] {
        a[0] < b[0]
    } else {
        text_lt(a.drop_first(), b.drop_first())
    }
}

/// Whether text `a` stands before text `b`.
pub fn less(a: &str, b: &str) -> (r: bool)
    ensures
        r == text_lt(a@, b@),
{
    broadcast use vstd::string::axiom_spec_iter, vstd::string::next_postcondition;

    let mut x = a.chars();
    let mut y = b.chars();
    loop
        invariant
            text_lt(a@, b@) == text_lt(
                vstd::std_specs::iter::IteratorSpec::remaining(&x),
                vstd::std_specs::iter::IteratorSpec::remaining(&y),
            ),
            vstd::std_specs::iter::IteratorSpec::decrease(&x) is Some,
        decreases vstd::std_specs::iter::IteratorSpec::decrease(&x)->0,
    {
        match (x.next(), y.next()) {
            (_, None) => {
                return false;
            },
            (None, Some(_)) => {
                return true;
            },
            (Some(c), Some(d)) => {
                if c != d {
                    return c < d;
                }
            },
        }
    }
}

/// No text stands before itself.
pub proof fn lemma_lt_irreflexive(a: Seq<char>)
    ensures
        !text_lt(a, a),
    decreases a.len(),
{
    if a.len() > 0 {
        lemma_lt_irreflexive(a.drop_first());
    }
}

/// The order of texts is transitive.
pub proof fn lemma_lt_transitive(a: Seq<char>, b: Seq<char>, c: Seq<char>)
    requires
        text_lt(a, b),
        text_lt(b, c),
    ensures
        text_lt(a, c),
    decreases a.len(),
{
    if a.len() > 0 && a[0] == b[0] && b[0] == c[0] {
        lemma_lt_transitive(a.drop_first(), b.drop_first(), c.drop_first());
    }
}

/// Of two different texts one stands before the other.
pub proof fn lemma_lt_total(a: Seq<char>, b: Seq<char>)
    ensures
        text_lt(a, b) || a == b || text_lt(b, a),
    decreases a.len(),
{
    if a.len() == 0 || b.len() == 0 {
        if a.len() == 0 && b.len() == 0 {
            assert(a =~= b);
        }
    } else if a[0] == b[0] {
        lemma_lt_total(a.drop_first(), b.drop_first());
        if a.drop_first() == b.drop_first() {
            assert(a =~= seq![a[0]] + a.drop_first());
            assert(b =~= seq![b[0]] + b.drop_first());
        }
    }
}

/// Whether row `i` belongs strictly before row `j`.
pub open spec fn precedes(keys: Seq<Seq<char>>, descending: bool, i: int, j: int) -> bool {
    if descending {
        text_lt(keys[j], keys[i])
    } else {
        text_lt(keys[i], keys[j])
    }
}

/// Where row `i` goes among the rows of `order`: behind all that it does not
/// precede.
pub open spec fn slot(keys: Seq<Seq<char>>, descending: bool, order: Seq<int>, i: int) -> int
    decreases order.len(),
{
    if order.len() > 0 && precedes(keys, descending, i, order.last()) {
        slot(keys, descending, order.drop_last(), i)
    } else {
        order.len() as int
    }
}

/// The first `n` rows in the order of their keys; rows with equal keys keep
/// their order.
pub open spec fn ordering(keys: Seq<Seq<char>>, descending: bool, n: nat) -> Seq<int>
    decreases n,
{
    if n == 0 {
        Seq::empty()
    } else {
        let before = ordering(keys, descending, (n - 1) as nat);
        before.insert(slot(keys, descending, before, n - 1), n - 1)
    }
}

/// All rows in the order of their keys.
pub open spec fn ordered(keys: Seq<Seq<char>>, descending: bool) -> Seq<int> {
    ordering(keys, descending, keys.len())
}

/// The rows of a table in the order of their keys.
pub open spec fn sorted_rows<T>(
    rows: Seq<T>,
    keys: Seq<Seq<char>>,
    descending: bool,
) -> Seq<T> {
    ordered(keys, descending).map_values(|i: int| rows[i])
}

/// What makes `order` the stable order of the first `n` rows.
pub open spec fn is_stable_order(
    keys: Seq<Seq<char>>,
    descending: bool,
    n: nat,
    order: Seq<int>,
) -> bool {
    &&& order.len() == n
    &&& forall|p: int| 0 <= p < n ==> 0 <= #[trigger] order[p] < n
    &&& forall|i: int| 0 <= i < n ==> #[trigger] order.contains(i)
    &&& forall|p: int, q: int|
        0 <= p < q < n ==> {
            let a = #[trigger] order[p];
            let b = #[trigger] order[q];
            precedes(keys, descending, a, b) || (keys[a] == keys[b] && a < b)
        }
}

proof fn lemma_slot_bounds(keys: Seq<Seq<char>>, descending: bool, order: Seq<int>, i: int)
    ensures
        0 <= slot(keys, descending, order, i) <= order.len(),
        forall|q: int|
            slot(keys, descending, order, i) <= q < order.len() ==> precedes(
                keys,
                descending,
                i,
                #[trigger] order[q],
            ),
        slot(keys, descending, order, i) > 0 ==> !precedes(
            keys,
            descending,
            i,
            order[slot(keys, descending, order, i) - 1],
        ),
    decreases order.len(),
{
    if order.len() > 0 && precedes(keys, descending, i, order.last()) {
        lemma_slot_bounds(keys, descending, order.drop_last(), i);
        let rest = order.drop_last();
        assert forall|q: int| slot(keys, descending, order, i) <= q < order.len() implies precedes(
            keys,
            descending,
            i,
            #[trigger] order[q],
        ) by {
            if q < rest.len() {
                assert(rest[q] == order[q]);
            }
        }
    }
}

/// The order of the rows holds every row once, sorts them by their keys, and
/// keeps rows with equal keys in their order.
pub proof fn law_ordering_is_stable(keys: Seq<Seq<char>>, descending: bool, n: nat)
    requires
        n <= keys.len(),
    ensures
        is_stable_order(keys, descending, n, ordering(keys, descending, n)),
    decreases n,
{
    if n > 0 {
        let m = (n - 1) as nat;
        let before = ordering(keys, descending, m);
        law_ordering_is_stable(keys, descending, m);
        lemma_slot_bounds(keys, descending, before, m as int);
        let at = slot(keys, descending, before, m as int);
        let order = before.insert(at, m as int);
        assert(order == ordering(keys, descending, n));
        assert forall|i: int| 0 <= i < n implies #[trigger] order.contains(i) by {
            if i == m {
                assert(order[at] == i);
            } else {
                assert(before.contains(i));
                let p = choose|p: int| 0 <= p < before.len() && before[p] == i;
                if p < at {
                    assert(order[p] == i);
                } else {
                    assert(order[p + 1] == i);
                }
            }
        }
        assert forall|p: int, q: int| 0 <= p < q < n implies {
            let a = #[trigger] order[p];
            let b = #[trigger] order[q];
            precedes(keys, descending, a, b) || (keys[a] == keys[b] && a < b)
        } by {
            let a = order[p];
            let b = order[q];
            if q == at {
                let w = before[at - 1];
                lemma_lt_total(keys[w], keys[m as int]);
                if p < at - 1 {
                    assert(before[p] == a);
                    lemma_chain(keys, descending, a, w, m as int);
                }
            } else if p == at {
                assert(before[q - 1] == b);
            } else {
                let p0 = if p < at {
                    p
                } else {
                    p - 1
                };
                let q0 = if q < at {
                    q
                } else {
                    q - 1
                };
                assert(before[p0] == a);
                assert(before[q0] == b);
            }
        }
    }
}

proof fn lemma_chain(keys: Seq<Seq<char>>, descending: bool, a: int, b: int, c: int)
    requires
        precedes(keys, descending, a, b) || (keys[a] == keys[b] && a < b),
        precedes(keys, descending, b, c) || keys[b] == keys[c],
    ensures
        precedes(keys, descending, a, c) || keys[a] == keys[c],
{
    if precedes(keys, descending, a, b) && precedes(keys, descending, b, c) {
        if descending {
            lemma_lt_transitive(keys[c], keys[b], keys[a]);
        } else {
            lemma_lt_transitive(keys[a], keys[b], keys[c]);
        }
    }
}

proof fn lemma_precedes_chain(keys: Seq<Seq<char>>, descending: bool, a: int, b: int, c: int)
    requires
        precedes(keys, descending, a, b),
        precedes(keys, descending, b, c) || keys[b] == keys[c],
    ensures
        precedes(keys, descending, a, c),
{
    if precedes(keys, descending, b, c) {
        if descending {
            lemma_lt_transitive(keys[c], keys[b], keys[a]);
        } else {
            lemma_lt_transitive(keys[a], keys[b], keys[c]);
        }
    }
}

/// The place that parts the rows which row `i` does not precede from those it does.
proof fn lemma_slot_is(keys: Seq<Seq<char>>, descending: bool, order: Seq<int>, i: int, at: int)
    requires
        0 <= at <= order.len(),
        forall|p: int| 0 <= p < at ==> !precedes(keys, descending, i, #[trigger] order[p]),
        forall|p: int|
            at <= p < order.len() ==> precedes(keys, descending, i, #[trigger] order[p]),
    ensures
        slot(keys, descending, order, i) == at,
    decreases order.len(),
{
    if at < order.len() {
        let rest = order.drop_last();
        assert(precedes(keys, descending, i, order[order.len() - 1]));
        assert forall|p: int| 0 <= p < at implies !precedes(
            keys,
            descending,
            i,
            #[trigger] rest[p],
        ) by {
            assert(rest[p] == order[p]);
        }
        assert forall|p: int| at <= p < rest.len() implies precedes(
            keys,
            descending,
            i,
            #[trigger] rest[p],
        ) by {
            assert(rest[p] == order[p]);
        }
        lemma_slot_is(keys, descending, rest, i, at);
    } else if order.len() > 0 {
        assert(!precedes(keys, descending, i, order[order.len() - 1]));
    }
}

/// Whether no two of the texts are equal.
pub open spec fn distinct(keys: Seq<Seq<char>>) -> bool {
    forall|i: int, j: int|
        0 <= i < j < keys.len() ==> #[trigger] keys[i] != #[trigger] keys[j]
}

/// Whether no two of the strings are equal.
pub fn all_differ(keys: &Vec<String>) -> (r: bool)
    ensures
        r == distinct(texts(keys@)),
{
    let ghost all = texts(keys@);
    let order: Vec<usize> = order_by(keys, false);
    let ghost sorted = ordered(all, false);
    proof {
        law_ordering_is_stable(all, false, all.len());
    }
    let mut p: usize = 1;
    while p < order.len()
        invariant
            1 <= p,
            all == texts(keys@),
            order@.len() == keys@.len(),
            sorted == order@.map_values(|i: usize| i as int),
            is_stable_order(all, false, all.len(), sorted),
            forall|q: int| 0 <= q < order@.len() ==> #[trigger] order@[q] < keys@.len(),
            forall|q: int|
                0 < q < p && q < sorted.len() ==> #[trigger] text_lt(
                    all[sorted[q - 1]],
                    all[sorted[q]],
                ),
        decreases order@.len() - p,
    {
        let a: usize = order[p - 1];
        let b: usize = order[p];
        assert(sorted[p - 1] == a && sorted[p as int] == b);
        assert(precedes(all, false, a as int, b as int) || all[a as int] == all[b as int] && a < b);
        if same(keys[a].as_str(), keys[b].as_str()) {
            assert(all[a as int] == all[b as int]);
            assert(a != b) by {
                if precedes(all, false, a as int, b as int) {
                    lemma_lt_irreflexive(all[a as int]);
                }
            }
            return false;
        }
        p = p + 1;
    }
    proof {
        assert forall|i: int, j: int| 0 <= i < j < all.len() implies #[trigger] all[i]
            != #[trigger] all[j] by {
            assert(sorted.contains(i) && sorted.contains(j));
            let p = choose|p: int| 0 <= p < sorted.len() && sorted[p] == i;
            let q = choose|q: int| 0 <= q < sorted.len() && sorted[q] == j;
            if p < q {
                lemma_strictly_sorted(all, sorted, p, q);
            } else {
                lemma_strictly_sorted(all, sorted, q, p);
            }
            lemma_lt_irreflexive(all[i]);
        }
    }
    true
}

proof fn lemma_strictly_sorted(keys: Seq<Seq<char>>, sorted: Seq<int>, p: int, q: int)
    requires
        0 <= p < q < sorted.len(),
        forall|k: int|
            0 < k < sorted.len() ==> #[trigger] text_lt(keys[sorted[k - 1]], keys[sorted[k]]),
    ensures
        text_lt(keys[sorted[p]], keys[sorted[q]]),
    decreases q,
{
    assert(text_lt(keys[sorted[q - 1]], keys[sorted[q]]));
    if p < q - 1 {
        lemma_strictly_sorted(keys, sorted, p, q - 1);
        lemma_lt_transitive(keys[sorted[p]], keys[sorted[q - 1]], keys[sorted[q]]);
    }
}

/// Rows in the order of their keys are the same rows.
pub proof fn lemma_sorted_rows<T>(rows: Seq<T>, keys: Seq<Seq<char>>, descending: bool)
    requires
        keys.len() == rows.len(),
    ensures
        sorted_rows(rows, keys, descending).len() == rows.len(),
        forall|row: T|
            #[trigger] sorted_rows(rows, keys, descending).contains(row) <==> rows.contains(row),
{
    law_ordering_is_stable(keys, descending, keys.len());
    let order = ordered(keys, descending);
    let sorted = sorted_rows(rows, keys, descending);
    assert forall|row: T| #[trigger] sorted.contains(row) <==> rows.contains(row) by {
        if sorted.contains(row) {
            let p = choose|p: int| 0 <= p < sorted.len() && sorted[p] == row;
            assert(rows[order[p]] == row);
        }
        if rows.contains(row) {
            let i = choose|i: int| 0 <= i < rows.len() && rows[i] == row;
            assert(order.contains(i));
            let p = choose|p: int| 0 <= p < order.len() && order[p] == i;
            assert(sorted[p] == row);
        }
    }
}

/// Whether row `i` belongs strictly before row `j`.
fn goes_before(keys: &Vec<String>, descending: bool, i: usize, j: usize) -> (r: bool)
    requires
        i < keys@.len(),
        j < keys@.len(),
    ensures
        r == precedes(texts(keys@), descending, i as int, j as int),
{
    if descending {
        less(keys[j].as_str(), keys[i].as_str())
    } else {
        less(keys[i].as_str(), keys[j].as_str())
    }
}

/// The positions of the rows in the order of their keys; rows with equal keys
/// keep their order.
pub fn order_by(keys: &Vec<String>, descending: bool) -> (order: Vec<usize>)
    ensures
        order@.map_values(|i: usize| i as int) == ordered(texts(keys@), descending),
        order@.len() == keys@.len(),
        forall|p: int| 0 <= p < order@.len() ==> #[trigger] order@[p] < keys@.len(),
{
    let ghost all = texts(keys@);
    let mut order: Vec<usize> = Vec::new();
    assert(order@.map_values(|i: usize| i as int) =~= ordering(all, descending, 0));
    for n in 0..keys.len()
        invariant
            all == texts(keys@),
            order@.len() == n,
            order@.map_values(|i: usize| i as int) == ordering(all, descending, n as nat),
            forall|p: int| 0 <= p < order@.len() ==> #[trigger] order@[p] < keys@.len(),
    {
        let ghost before = order@.map_values(|i: usize| i as int);
        proof {
            law_ordering_is_stable(all, descending, n as nat);
        }
        let mut low: usize = 0;
        let mut at: usize = order.len();
        while low < at
            invariant
                all == texts(keys@),
                n < keys@.len(),
                low <= at <= order@.len(),
                before == order@.map_values(|i: usize| i as int),
                is_stable_order(all, descending, n as nat, before),
                forall|p: int| 0 <= p < order@.len() ==> #[trigger] order@[p] < keys@.len(),
                forall|p: int|
                    0 <= p < low ==> !precedes(all, descending, n as int, #[trigger] before[p]),
                forall|p: int|
                    at <= p < before.len() ==> precedes(
                        all,
                        descending,
                        n as int,
                        #[trigger] before[p],
                    ),
            decreases at - low,
        {
            let mid: usize = low + (at - low) / 2;
            assert(before[mid as int] == order@[mid as int]);
            if goes_before(keys, descending, n, order[mid]) {
                assert forall|p: int| mid <= p < before.len() implies precedes(
                    all,
                    descending,
                    n as int,
                    #[trigger] before[p],
                ) by {
                    if p > mid {
                        let m = before[mid as int];
                        let q = before[p];
                        assert(precedes(all, descending, m, q) || all[m] == all[q]);
                        lemma_precedes_chain(all, descending, n as int, m, q);
                    }
                }
                at = mid;
            } else {
                assert forall|p: int| 0 <= p < mid + 1 implies !precedes(
                    all,
                    descending,
                    n as int,
                    #[trigger] before[p],
                ) by {
                    if p < mid {
                        let m = before[mid as int];
                        let q = before[p];
                        assert(precedes(all, descending, q, m) || all[m] == all[q]);
                        if precedes(all, descending, n as int, q) {
                            lemma_precedes_chain(all, descending, n as int, q, m);
                        }
                    }
                }
                low = mid + 1;
            }
        }
        proof {
            lemma_slot_is(all, descending, before, n as int, at as int);
        }
        order.insert(at, n);
        assert(order@.map_values(|i: usize| i as int) =~= before.insert(at as int, n as int));
    }
    order
}

} // verus!
