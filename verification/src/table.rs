//! A table whose rows are found by a number.

use vstd::prelude::*;

verus! {

/// Rows in the ascending order of their numbers, each number once.
#[derive(Debug)]
pub struct Table<R> {
    pub rows: Vec<(i64, R)>,
}

/// Whether a row with the number stands in the list.
pub open spec fn has_number<R>(rows: Seq<(i64, R)>, number: i64) -> bool {
    exists|i: int| 0 <= i < rows.len() && (#[trigger] rows[i]).0 == number
}

/// The position of the row with the number.
pub open spec fn place<R>(rows: Seq<(i64, R)>, number: i64) -> int {
    choose|i: int| 0 <= i < rows.len() && (#[trigger] rows[i]).0 == number
}

impl<R: View> View for Table<R> {
    type V = Map<i64, R::V>;

    open spec fn view(&self) -> Map<i64, R::V> {
        Map::new(
            |number: i64| has_number(self.rows@, number),
            |number: i64| self.rows@[place(self.rows@, number)].1@,
        )
    }
}

impl<R> Table<R> {
    /// The numbers ascend.
    pub open spec fn wf(&self) -> bool {
        forall|i: int, j: int|
            0 <= i < j < self.rows@.len() ==> (#[trigger] self.rows@[i]).0 < (
            #[trigger] self.rows@[j]).0
    }
}

impl<R> Table<R> {
    /// Whether the numbers ascend.
    pub fn check(&self) -> (r: bool)
        ensures
            r == self.wf(),
    {
        if self.rows.len() == 0 {
            return true;
        }
        let mut k: usize = 1;
        while k < self.rows.len()
            invariant
                1 <= k <= self.rows@.len(),
                forall|i: int, j: int|
                    0 <= i < j < k ==> (#[trigger] self.rows@[i]).0 < (#[trigger] self.rows@[j]).0,
            decreases self.rows@.len() - k,
        {
            if self.rows[k - 1].0 >= self.rows[k].0 {
                return false;
            }
            k = k + 1;
        }
        true
    }
}

impl<R: View> Table<R> {
    proof fn lemma_row(&self, i: int)
        requires
            self.wf(),
            0 <= i < self.rows@.len(),
        ensures
            self@.dom().contains(self.rows@[i].0),
            self@[self.rows@[i].0] == self.rows@[i].1@,
    {
        let number = self.rows@[i].0;
        assert(has_number(self.rows@, number));
        let k = place(self.rows@, number);
        assert(self.rows@[k].0 == number);
        assert(k == i);
    }

    /// A table without rows.
    pub fn new() -> (table: Self)
        ensures
            table.wf(),
            table@ == Map::<i64, R::V>::empty(),
    {
        let table = Table { rows: Vec::new() };
        assert(table@ =~= Map::<i64, R::V>::empty());
        table
    }

    /// The position of the first row whose number is not below the given one.
    fn lower_bound(&self, number: i64) -> (at: usize)
        requires
            self.wf(),
        ensures
            at <= self.rows@.len(),
            forall|i: int| 0 <= i < at ==> (#[trigger] self.rows@[i]).0 < number,
            at < self.rows@.len() ==> self.rows@[at as int].0 >= number,
    {
        let mut at: usize = 0;
        while at < self.rows.len() && self.rows[at].0 < number
            invariant
                at <= self.rows@.len(),
                forall|i: int| 0 <= i < at ==> (#[trigger] self.rows@[i]).0 < number,
            decreases self.rows@.len() - at,
        {
            at = at + 1;
        }
        at
    }

    /// The row with a number.
    pub fn get(&self, number: i64) -> (row: Option<&R>)
        requires
            self.wf(),
        ensures
            row is Some <==> self@.dom().contains(number),
            row matches Some(r) ==> r@ == self@[number],
    {
        let at: usize = self.lower_bound(number);
        if at < self.rows.len() && self.rows[at].0 == number {
            proof {
                self.lemma_row(at as int);
            }
            return Some(&self.rows[at].1);
        }
        assert(!has_number(self.rows@, number)) by {
            if has_number(self.rows@, number) {
                let k = place(self.rows@, number);
                assert(self.rows@[k].0 == number);
                if at < k {
                    assert(self.rows@[at as int].0 < self.rows@[k].0);
                }
            }
        }
        None
    }

    /// Puts a row in, in place of the one with the same number if there is one.
    pub fn put(&mut self, number: i64, row: R)
        requires
            old(self).wf(),
        ensures
            final(self).wf(),
            final(self)@ == old(self)@.insert(number, row@),
    {
        let at: usize = self.lower_bound(number);
        let ghost before = *self;
        if at < self.rows.len() && self.rows[at].0 == number {
            self.rows[at] = (number, row);
        } else {
            self.rows.insert(at, (number, row));
        }
        proof {
            let replaced = self.rows@.len() == before.rows@.len();
            assert(self.rows@[at as int].0 == number && self.rows@[at as int].1 == row);
            assert(self.wf());
            self.lemma_row(at as int);
            let expected = before@.insert(number, row@);
            assert forall|n: int, k: i64| #![trigger self.rows@[n], before@.dom().contains(k)]
                0 <= n < self.rows@.len() && self.rows@[n].0 == k && k != number implies before@.dom().contains(
                k,
            ) && before@[k] == self.rows@[n].1@ by {
                let m = if replaced || n < at {
                    n
                } else {
                    n - 1
                };
                assert(before.rows@[m] == self.rows@[n]);
                before.lemma_row(m);
            }
            assert forall|k: i64| self@.dom().contains(k) == expected.dom().contains(k) by {
                if k != number {
                    if has_number(self.rows@, k) {
                        let n = place(self.rows@, k);
                        assert(self.rows@[n].0 == k);
                        assert(before@.dom().contains(k));
                    }
                    if has_number(before.rows@, k) {
                        let m = place(before.rows@, k);
                        assert(before.rows@[m].0 == k);
                        let n = if replaced || m < at {
                            m
                        } else {
                            m + 1
                        };
                        assert(self.rows@[n] == before.rows@[m]);
                    }
                }
            }
            assert forall|k: i64| self@.dom().contains(k) implies self@[k] == expected[k] by {
                if k != number {
                    let n = place(self.rows@, k);
                    assert(self.rows@[n].0 == k);
                    assert(before@.dom().contains(k));
                }
            }
            assert(self@ =~= expected);
        }
    }

    /// The numbers in ascending order.
    pub open spec fn numbers(&self) -> Seq<i64> {
        self.rows@.map_values(|row: (i64, R)| row.0)
    }

    /// The numbers of a table ascend and are the numbers of its rows.
    pub proof fn lemma_numbers(&self)
        requires
            self.wf(),
        ensures
            self.numbers().len() == self.rows@.len(),
            forall|i: int, j: int|
                0 <= i < j < self.numbers().len() ==> #[trigger] self.numbers()[i]
                    < #[trigger] self.numbers()[j],
            forall|k: i64| self.numbers().contains(k) <==> #[trigger] self@.dom().contains(k),
            forall|i: int|
                0 <= i < self.rows@.len() ==> self@[self.numbers()[i]]
                    == (#[trigger] self.rows@[i]).1@,
    {
        assert forall|k: i64| self.numbers().contains(k) <==> #[trigger] self@.dom().contains(k) by {
            if self@.dom().contains(k) {
                let n = place(self.rows@, k);
                assert(self.rows@[n].0 == k);
                assert(self.numbers()[n] == k);
            }
            if self.numbers().contains(k) {
                let n = choose|n: int| 0 <= n < self.numbers().len() && self.numbers()[n] == k;
                assert(self.rows@[n].0 == k);
            }
        }
        assert forall|i: int| 0 <= i < self.rows@.len() implies self@[self.numbers()[i]] == (
        #[trigger] self.rows@[i]).1@ by {
            self.lemma_row(i);
        }
    }
}

} // verus!
