//! The queue of collection changes that wait to be sent.

use super::{Database, DatabaseView, SyncEntry, SyncEntryView, SyncRow, SyncRowView, sync_wf};
use crate::clock::{is_clock_text, now_text};
use crate::order::{lemma_lt_irreflexive, less, order_by, ordered, sorted_rows, text_lt};
use crate::rows::{
    first, lemma_filter_pairs, lemma_first_at, lemma_first_none, retain, some_row, views,
};
use crate::text::{opt_text, texts};
use vstd::prelude::*;

verus! {

/// Whether a change belongs to the subject.
pub open spec fn sync_has_subject(subject_id: i64) -> spec_fn(SyncRowView) -> bool {
    |r: SyncRowView| r.entry.subject_id == subject_id
}

/// Whether a change has the id.
pub open spec fn sync_has_id(id: i64) -> spec_fn(SyncRowView) -> bool {
    |r: SyncRowView| r.entry.id == id
}

/// Whether a change has the id and is still the version.
pub open spec fn sync_is_current(id: i64, version: i64) -> spec_fn(SyncRowView) -> bool {
    |r: SyncRowView| r.entry.id == id && r.entry.version == version
}

/// The queue with a change made to the rows with a property.
pub open spec fn sync_rows_changed(
    rows: Seq<SyncRowView>,
    p: spec_fn(SyncRowView) -> bool,
    change: spec_fn(SyncRowView) -> SyncRowView,
) -> Seq<SyncRowView> {
    rows.map_values(
        |r: SyncRowView|
            if p(r) {
                change(r)
            } else {
                r
            },
    )
}

/// A later change takes the place of a waiting one: it is due at once, no attempt was
/// made yet, and it is the next version.
pub open spec fn superseded(collection: Seq<char>, ep: Option<i64>, now: Seq<char>) -> spec_fn(
    SyncRowView,
) -> SyncRowView {
    |r: SyncRowView|
        SyncRowView {
            entry: SyncEntryView {
                collection,
                ep,
                attempts: 0,
                version: (r.entry.version + 1) as i64,
                ..r.entry
            },
            next_attempt_at: now,
            updated_at: now,
            ..r
        }
}

/// An attempt to send a change failed.
pub open spec fn attempt_failed(
    attempts: i64,
    next: Seq<char>,
    error: Seq<char>,
    now: Seq<char>,
) -> spec_fn(SyncRowView) -> SyncRowView {
    |r: SyncRowView|
        SyncRowView {
            entry: SyncEntryView { attempts, ..r.entry },
            next_attempt_at: next,
            last_error: Some(error),
            updated_at: now,
        }
}

/// A change is due at a time.
pub open spec fn due_at(now: Seq<char>) -> spec_fn(SyncRowView) -> SyncRowView {
    |r: SyncRowView| SyncRowView { next_attempt_at: now, ..r }
}

/// Whether a change is due at a time.
pub open spec fn is_due(now: Seq<char>) -> spec_fn(SyncRowView) -> bool {
    |r: SyncRowView| !text_lt(now, r.next_attempt_at)
}

/// When changes were last touched.
pub open spec fn touch_times(rows: Seq<SyncRowView>) -> Seq<Seq<char>> {
    rows.map_values(|r: SyncRowView| r.updated_at)
}

/// The row whose last attempt failed that was touched last; the first of those touched
/// at the same time.
pub open spec fn last_failure(rows: Seq<SyncRowView>) -> Option<SyncRowView>
    decreases rows.len(),
{
    if rows.len() == 0 {
        None
    } else {
        let row = rows.last();
        match last_failure(rows.drop_last()) {
            Some(best) => if row.last_error is Some && text_lt(best.updated_at, row.updated_at) {
                Some(row)
            } else {
                Some(best)
            },
            None => if row.last_error is Some {
                Some(row)
            } else {
                None
            },
        }
    }
}

impl DatabaseView {
    /// Whether a change of the subject waits to be sent.
    pub open spec fn sync_waits(self, subject_id: i64) -> bool {
        some_row(self.sync, sync_has_subject(subject_id))
    }

    /// The greatest id that a waiting change has or that was given before.
    pub open spec fn greatest_sync_id(self) -> i64 {
        let waiting: i64 = if self.sync.len() > 0 {
            self.sync.last().entry.id
        } else {
            0
        };
        if waiting > self.last_sync_id {
            waiting
        } else {
            self.last_sync_id
        }
    }

    /// Whether no id, no version or no place is left for another change of the subject.
    pub open spec fn sync_exhausted(self, subject_id: i64) -> bool {
        match first(self.sync, sync_has_subject(subject_id)) {
            Some(row) => row.entry.version == i64::MAX,
            None => self.greatest_sync_id() == i64::MAX || self.sync.len() == i64::MAX,
        }
    }

    /// The records after a change of a subject was queued. A waiting change of the
    /// subject is replaced.
    pub open spec fn sync_queued(
        self,
        subject_id: i64,
        collection: Seq<char>,
        ep: Option<i64>,
        now: Seq<char>,
    ) -> DatabaseView {
        if self.sync_waits(subject_id) {
            DatabaseView {
                sync: sync_rows_changed(
                    self.sync,
                    sync_has_subject(subject_id),
                    superseded(collection, ep, now),
                ),
                ..self
            }
        } else {
            let id = (self.greatest_sync_id() + 1) as i64;
            DatabaseView {
                sync: self.sync.push(
                    SyncRowView {
                        entry: SyncEntryView {
                            id,
                            subject_id,
                            collection,
                            ep,
                            attempts: 0,
                            version: 1,
                        },
                        next_attempt_at: now,
                        last_error: None,
                        updated_at: now,
                    },
                ),
                last_sync_id: id,
                ..self
            }
        }
    }

    /// The records after a change of the waiting changes with a property.
    pub open spec fn sync_changed(
        self,
        p: spec_fn(SyncRowView) -> bool,
        change: spec_fn(SyncRowView) -> SyncRowView,
    ) -> DatabaseView {
        DatabaseView { sync: sync_rows_changed(self.sync, p, change), ..self }
    }

    /// The records without the waiting changes with a property.
    pub open spec fn sync_removed(self, p: spec_fn(SyncRowView) -> bool) -> DatabaseView {
        DatabaseView { sync: self.sync.filter(|r: SyncRowView| !p(r)), ..self }
    }

    /// The changes that are due at a time, the one that waits longest first; at most
    /// `limit` of them, or all where the limit is negative.
    pub open spec fn sync_due(self, limit: i64, now: Seq<char>) -> Seq<SyncEntryView> {
        let rows = self.sync.filter(is_due(now));
        let sorted = sorted_rows(rows, touch_times(rows), false);
        let taken = if 0 <= limit < sorted.len() {
            sorted.take(limit as int)
        } else {
            sorted
        };
        taken.map_values(|r: SyncRowView| r.entry)
    }
}

impl Database {
    /// Where the change of a subject stands.
    pub(crate) fn sync_index(&self, subject_id: i64) -> (r: Option<usize>)
        ensures
            match r {
                Some(i) => i < self.sync@.len() && self.sync@[i as int].entry.subject_id
                    == subject_id && self@.sync_waits(subject_id) && first(
                    self@.sync,
                    sync_has_subject(subject_id),
                ) == Some(self.sync@[i as int]@),
                None => !self@.sync_waits(subject_id) && first(
                    self@.sync,
                    sync_has_subject(subject_id),
                ) is None,
            },
    {
        let ghost all = self@.sync;
        let ghost p = sync_has_subject(subject_id);
        for i in 0..self.sync.len()
            invariant
                all == views(self.sync@),
                p == sync_has_subject(subject_id),
                forall|j: int| 0 <= j < i ==> !p(#[trigger] all[j]),
        {
            assert(all[i as int] == self.sync@[i as int]@);
            if self.sync[i].entry.subject_id == subject_id {
                proof {
                    assert(p(all[i as int]));
                    lemma_first_at(all, p, i as int);
                }
                return Some(i);
            }
        }
        proof {
            lemma_first_none(all, p);
        }
        None
    }

    /// Queues a change of a subject at the time `now`. A waiting change of the subject is
    /// replaced.
    pub fn enqueue_collection_sync_at(
        &mut self,
        subject_id: i64,
        collection: &str,
        ep: Option<i64>,
        now: &str,
    ) -> (r: Result<(), String>)
        requires
            old(self).wf(),
        ensures
            final(self).wf(),
            match r {
                Ok(_) => !old(self)@.sync_exhausted(subject_id) && final(self)@
                    == old(self)@.sync_queued(subject_id, collection@, ep, now@),
                Err(e) => old(self)@.sync_exhausted(subject_id) && *final(self) == *old(self) && e@
                    == "database or disk is full"@,
            },
    {
        let ghost all = self@.sync;
        match self.sync_index(subject_id) {
            Some(i) => {
                let version: i64 = self.sync[i].entry.version;
                if version == i64::MAX {
                    return Err("database or disk is full".to_owned());
                }
                assert(all[i as int] == self.sync@[i as int]@);
                self.sync[i].entry.collection = collection.to_owned();
                self.sync[i].entry.ep = ep;
                self.sync[i].entry.attempts = 0;
                self.sync[i].entry.version = version + 1;
                self.sync[i].next_attempt_at = now.to_owned();
                self.sync[i].updated_at = now.to_owned();
                proof {
                    let change = superseded(collection@, ep, now@);
                    let p = sync_has_subject(subject_id);
                    let expected = sync_rows_changed(all, p, change);
                    assert(self.sync@[i as int]@ =~= change(all[i as int]));
                    assert forall|j: int| 0 <= j < expected.len() implies #[trigger] expected[j]
                        == self@.sync[j] by {
                        assert(all[j] == old(self).sync@[j]@);
                        assert(self@.sync[j] == self.sync@[j]@);
                        if j != i {
                            assert(self.sync@[j] == old(self).sync@[j]);
                            assert(all[j].entry.subject_id != all[i as int].entry.subject_id);
                        }
                    }
                    assert(self@.sync =~= expected);
                    assert(self@ =~= old(self)@.sync_queued(subject_id, collection@, ep, now@));
                    lemma_sync_kept(all, p, change);
                }
            },
            None => {
                let n: usize = self.sync.len();
                let waiting: i64 = if n > 0 {
                    self.sync[n - 1].entry.id
                } else {
                    0
                };
                let greatest: i64 = if waiting > self.last_sync_id {
                    waiting
                } else {
                    self.last_sync_id
                };
                assert(greatest == self@.greatest_sync_id()) by {
                    if n > 0 {
                        assert(all[n - 1] == self.sync@[n - 1]@);
                    }
                }
                if greatest == i64::MAX || n as u64 == 9223372036854775807 {
                    return Err("database or disk is full".to_owned());
                }
                let id: i64 = greatest + 1;
                let row = SyncRow {
                    entry: SyncEntry {
                        id,
                        subject_id,
                        collection: collection.to_owned(),
                        ep,
                        attempts: 0,
                        version: 1,
                    },
                    next_attempt_at: now.to_owned(),
                    last_error: None,
                    updated_at: now.to_owned(),
                };
                self.sync.push(row);
                self.last_sync_id = id;
                proof {
                    assert(self@.sync =~= all.push(row@));
                    assert(self@ =~= old(self)@.sync_queued(subject_id, collection@, ep, now@));
                    assert forall|j: int| 0 <= j < all.len() implies (
                    #[trigger] all[j]).entry.subject_id != subject_id by {
                        if all[j].entry.subject_id == subject_id {
                            assert(sync_has_subject(subject_id)(all[j]));
                        }
                    }
                }
            },
        }
        Ok(())
    }

    /// Queues a change of a subject. A waiting change of the subject is replaced.
    pub fn enqueue_collection_sync(
        &mut self,
        subject_id: i64,
        collection: &str,
        ep: Option<i64>,
    ) -> (r: Result<(), String>)
        requires
            old(self).wf(),
        ensures
            final(self).wf(),
            match r {
                Ok(_) => !old(self)@.sync_exhausted(subject_id) && exists|now: Seq<char>|
                    is_clock_text(now) && final(self)@ == #[trigger] old(self)@.sync_queued(
                        subject_id,
                        collection@,
                        ep,
                        now,
                    ),
                Err(e) => old(self)@.sync_exhausted(subject_id) && *final(self) == *old(self) && e@
                    == "database or disk is full"@,
            },
    {
        let now = now_text();
        self.enqueue_collection_sync_at(subject_id, collection, ep, now.as_str())
    }

    /// The changes that are due at a time, the one that waits longest first; at most
    /// `limit` of them, or all where the limit is negative.
    pub fn due_sync_entries_at(&self, limit: i64, now: &str) -> (r: Result<
        Vec<SyncEntry>,
        String,
    >)
        ensures
            r is Ok,
            views(r->Ok_0@) == self@.sync_due(limit, now@),
    {
        let ghost all = self@.sync;
        let ghost p = is_due(now@);
        let mut picked: Vec<usize> = Vec::new();
        let mut times: Vec<String> = Vec::new();
        reveal(Seq::filter);
        assert(all.take(0).filter(p) =~= Seq::<SyncRowView>::empty());
        for i in 0..self.sync.len()
            invariant
                all == views(self.sync@),
                p == is_due(now@),
                picked@.len() == all.take(i as int).filter(p).len(),
                times@.len() == picked@.len(),
                forall|k: int|
                    0 <= k < picked@.len() ==> #[trigger] picked@[k] < i
                        && all[picked@[k] as int] == all.take(i as int).filter(p)[k],
                forall|k: int|
                    0 <= k < times@.len() ==> (#[trigger] times@[k])@ == all.take(i as int).filter(
                        p,
                    )[k].updated_at,
        {
            reveal(Seq::filter);
            assert(all.take(i + 1).drop_last() =~= all.take(i as int));
            assert(all.take(i + 1).last() == self.sync@[i as int]@);
            if !less(now, self.sync[i].next_attempt_at.as_str()) {
                picked.push(i);
                times.push(self.sync[i].updated_at.clone());
            }
        }
        assert(all.take(all.len() as int) =~= all);
        let ghost rows = all.filter(p);
        assert(texts(times@) =~= touch_times(rows));
        let order: Vec<usize> = order_by(&times, false);
        let ghost sorted = ordered(touch_times(rows), false);
        let ghost listed = sorted_rows(rows, touch_times(rows), false);
        let mut list: Vec<SyncEntry> = Vec::new();
        let count: usize = if 0 <= limit && (limit as u64) < (order.len() as u64) {
            limit as usize
        } else {
            order.len()
        };
        for q in 0..count
            invariant
                count <= order@.len(),
                order@.len() == rows.len(),
                picked@.len() == rows.len(),
                all == views(self.sync@),
                listed == sorted_rows(rows, touch_times(rows), false),
                sorted == ordered(touch_times(rows), false),
                order@.map_values(|i: usize| i as int) == sorted,
                forall|k: int| 0 <= k < order@.len() ==> #[trigger] order@[k] < rows.len(),
                forall|k: int|
                    0 <= k < picked@.len() ==> #[trigger] picked@[k] < all.len()
                        && all[picked@[k] as int] == rows[k],
                list@.len() == q,
                forall|k: int| 0 <= k < q ==> (#[trigger] list@[k])@ == listed[k].entry,
        {
            assert(sorted[q as int] == order@[q as int]);
            assert(listed[q as int] == rows[order@[q as int] as int]);
            let row: &SyncRow = &self.sync[picked[order[q]]];
            assert(row@ == listed[q as int]);
            list.push(row.entry.clone());
        }
        assert(listed.len() == sorted.len());
        assert(views(list@) =~= self@.sync_due(limit, now@));
        Ok(list)
    }

    /// The changes that are due now.
    pub fn due_sync_entries(&self, limit: i64) -> (r: Result<Vec<SyncEntry>, String>)
        ensures
            r is Ok,
            exists|now: Seq<char>|
                is_clock_text(now) && views(r->Ok_0@) == #[trigger] self@.sync_due(limit, now),
    {
        let now = now_text();
        self.due_sync_entries_at(limit, now.as_str())
    }

    /// Notes, at the time `now`, that an attempt to send the changes marked in `hit`
    /// failed.
    fn fail_attempts(
        &mut self,
        hit: &Vec<bool>,
        Ghost(p): Ghost<spec_fn(SyncRowView) -> bool>,
        attempts: i64,
        next_attempt_at: &str,
        last_error: &str,
        now: &str,
    )
        requires
            old(self).wf(),
            hit@.len() == old(self).sync@.len(),
            forall|i: int| 0 <= i < hit@.len() ==> #[trigger] hit@[i] == p(old(self).sync@[i]@),
        ensures
            final(self).wf(),
            final(self)@ == old(self)@.sync_changed(
                p,
                attempt_failed(attempts, next_attempt_at@, last_error@, now@),
            ),
    {
        let ghost all = self@.sync;
        let ghost change = attempt_failed(attempts, next_attempt_at@, last_error@, now@);
        let ghost expected = sync_rows_changed(all, p, change);
        for i in 0..hit.len()
            invariant
                hit@.len() == self.sync@.len(),
                hit@.len() == old(self).sync@.len(),
                all == old(self)@.sync,
                *self == (Database { sync: self.sync, ..*old(self) }),
                change == attempt_failed(attempts, next_attempt_at@, last_error@, now@),
                expected == sync_rows_changed(all, p, change),
                forall|j: int|
                    0 <= j < hit@.len() ==> #[trigger] hit@[j] == p(old(self).sync@[j]@),
                forall|j: int| 0 <= j < i ==> (#[trigger] self.sync@[j])@ == expected[j],
                forall|j: int|
                    i <= j < hit@.len() ==> #[trigger] self.sync@[j] == old(self).sync@[j],
        {
            assert(all[i as int] == old(self).sync@[i as int]@);
            assert(hit@[i as int] == p(old(self).sync@[i as int]@));
            if hit[i] {
                self.sync[i].entry.attempts = attempts;
                self.sync[i].next_attempt_at = next_attempt_at.to_owned();
                self.sync[i].last_error = Some(last_error.to_owned());
                self.sync[i].updated_at = now.to_owned();
                assert(self.sync@[i as int]@ =~= change(all[i as int]));
            }
        }
        proof {
            assert(self@.sync =~= expected);
            assert(self@ =~= old(self)@.sync_changed(p, change));
            lemma_sync_kept(all, p, change);
        }
    }

    /// Notes, at the time `now`, that an attempt to send a change failed.
    pub fn mark_sync_attempt_at(
        &mut self,
        id: i64,
        attempts: i64,
        next_attempt_at: &str,
        last_error: &str,
        now: &str,
    ) -> (r: Result<(), String>)
        requires
            old(self).wf(),
        ensures
            r is Ok,
            final(self).wf(),
            final(self)@ == old(self)@.sync_changed(
                sync_has_id(id),
                attempt_failed(attempts, next_attempt_at@, last_error@, now@),
            ),
    {
        let mut hit: Vec<bool> = Vec::new();
        for i in 0..self.sync.len()
            invariant
                hit@.len() == i,
                forall|j: int|
                    0 <= j < i ==> #[trigger] hit@[j] == sync_has_id(id)(self.sync@[j]@),
        {
            hit.push(self.sync[i].entry.id == id);
        }
        self.fail_attempts(
            &hit,
            Ghost(sync_has_id(id)),
            attempts,
            next_attempt_at,
            last_error,
            now,
        );
        Ok(())
    }

    /// Notes that an attempt to send a change failed.
    pub fn mark_sync_attempt(
        &mut self,
        id: i64,
        attempts: i64,
        next_attempt_at: &str,
        last_error: &str,
    ) -> (r: Result<(), String>)
        requires
            old(self).wf(),
        ensures
            r is Ok,
            final(self).wf(),
            exists|now: Seq<char>|
                is_clock_text(now) && final(self)@ == old(self)@.sync_changed(
                    sync_has_id(id),
                    #[trigger] attempt_failed(attempts, next_attempt_at@, last_error@, now),
                ),
    {
        let now = now_text();
        self.mark_sync_attempt_at(id, attempts, next_attempt_at, last_error, now.as_str())
    }

    /// Notes, at the time `now`, that an attempt to send a change failed, unless a later
    /// change took its place. Says whether it noted that.
    pub fn mark_current_sync_attempt_at(
        &mut self,
        id: i64,
        version: i64,
        attempts: i64,
        next_attempt_at: &str,
        last_error: &str,
        now: &str,
    ) -> (r: Result<bool, String>)
        requires
            old(self).wf(),
        ensures
            r is Ok,
            r->Ok_0 == some_row(old(self)@.sync, sync_is_current(id, version)),
            final(self).wf(),
            final(self)@ == old(self)@.sync_changed(
                sync_is_current(id, version),
                attempt_failed(attempts, next_attempt_at@, last_error@, now@),
            ),
    {
        let ghost p = sync_is_current(id, version);
        let mut hit: Vec<bool> = Vec::new();
        let mut found: bool = false;
        for i in 0..self.sync.len()
            invariant
                p == sync_is_current(id, version),
                hit@.len() == i,
                forall|j: int| 0 <= j < i ==> #[trigger] hit@[j] == p(self.sync@[j]@),
                found == exists|j: int| 0 <= j < i && p(#[trigger] self@.sync[j]),
        {
            assert(self@.sync[i as int] == self.sync@[i as int]@);
            let current: bool = self.sync[i].entry.id == id && self.sync[i].entry.version
                == version;
            hit.push(current);
            found = found || current;
        }
        self.fail_attempts(&hit, Ghost(p), attempts, next_attempt_at, last_error, now);
        Ok(found)
    }

    /// Takes a change out of the queue.
    pub fn remove_sync_entry(&mut self, id: i64) -> (r: Result<(), String>)
        requires
            old(self).wf(),
        ensures
            r is Ok,
            final(self).wf(),
            final(self)@ == old(self)@.sync_removed(sync_has_id(id)),
    {
        let ghost p = sync_has_id(id);
        let ghost keep_row = |r: SyncRowView| !p(r);
        let mut keep: Vec<bool> = Vec::new();
        for i in 0..self.sync.len()
            invariant
                p == sync_has_id(id),
                keep_row == |r: SyncRowView| !p(r),
                keep@.len() == i,
                forall|j: int| 0 <= j < i ==> #[trigger] keep@[j] == keep_row(self.sync@[j]@),
        {
            keep.push(self.sync[i].entry.id != id);
        }
        retain(&mut self.sync, &keep, Ghost(keep_row));
        proof {
            lemma_sync_filtered(old(self)@.sync, keep_row);
        }
        assert(self@ =~= old(self)@.sync_removed(p));
        Ok(())
    }

    /// Takes a change out of the queue, unless a later change took its place. Says whether
    /// it did.
    pub fn remove_current_sync_entry(&mut self, id: i64, version: i64) -> (r: Result<bool, String>)
        requires
            old(self).wf(),
        ensures
            r is Ok,
            r->Ok_0 == some_row(old(self)@.sync, sync_is_current(id, version)),
            final(self).wf(),
            final(self)@ == old(self)@.sync_removed(sync_is_current(id, version)),
    {
        let ghost p = sync_is_current(id, version);
        let ghost keep_row = |r: SyncRowView| !p(r);
        let mut keep: Vec<bool> = Vec::new();
        let mut found: bool = false;
        for i in 0..self.sync.len()
            invariant
                p == sync_is_current(id, version),
                keep_row == |r: SyncRowView| !p(r),
                keep@.len() == i,
                forall|j: int| 0 <= j < i ==> #[trigger] keep@[j] == keep_row(self.sync@[j]@),
                found == exists|j: int| 0 <= j < i && p(#[trigger] self@.sync[j]),
        {
            assert(self@.sync[i as int] == self.sync@[i as int]@);
            let current: bool = self.sync[i].entry.id == id && self.sync[i].entry.version
                == version;
            keep.push(!current);
            found = found || current;
        }
        retain(&mut self.sync, &keep, Ghost(keep_row));
        proof {
            lemma_sync_filtered(old(self)@.sync, keep_row);
        }
        assert(self@ =~= old(self)@.sync_removed(p));
        Ok(found)
    }

    /// Makes every waiting change due at the time `now`.
    pub fn expire_all_sync_entries_at(&mut self, now: &str) -> (r: Result<(), String>)
        requires
            old(self).wf(),
        ensures
            r is Ok,
            final(self).wf(),
            final(self)@ == old(self)@.sync_changed(|r: SyncRowView| true, due_at(now@)),
    {
        let ghost all = self@.sync;
        let ghost p = |r: SyncRowView| true;
        let ghost expected = sync_rows_changed(all, p, due_at(now@));
        let n: usize = self.sync.len();
        for i in 0..n
            invariant
                n == self.sync@.len(),
                n == old(self).sync@.len(),
                all == old(self)@.sync,
                *self == (Database { sync: self.sync, ..*old(self) }),
                p == |r: SyncRowView| true,
                expected == sync_rows_changed(all, p, due_at(now@)),
                forall|j: int| 0 <= j < i ==> (#[trigger] self.sync@[j])@ == expected[j],
                forall|j: int| i <= j < n ==> #[trigger] self.sync@[j] == old(self).sync@[j],
        {
            assert(all[i as int] == old(self).sync@[i as int]@);
            self.sync[i].next_attempt_at = now.to_owned();
            assert(self.sync@[i as int]@ =~= due_at(now@)(all[i as int]));
        }
        proof {
            assert(self@.sync =~= expected);
            assert(self@ =~= old(self)@.sync_changed(p, due_at(now@)));
            lemma_sync_kept(all, p, due_at(now@));
        }
        Ok(())
    }

    /// Makes every waiting change due now.
    pub fn expire_all_sync_entries(&mut self) -> (r: Result<(), String>)
        requires
            old(self).wf(),
        ensures
            r is Ok,
            final(self).wf(),
            exists|now: Seq<char>|
                is_clock_text(now) && final(self)@ == old(self)@.sync_changed(
                    |r: SyncRowView| true,
                    #[trigger] due_at(now),
                ),
    {
        let now = now_text();
        self.expire_all_sync_entries_at(now.as_str())
    }

    /// How many changes wait.
    pub fn pending_sync_count(&self) -> (r: Result<i64, String>)
        requires
            self.wf(),
        ensures
            r is Ok,
            r->Ok_0 == self@.sync.len(),
    {
        Ok(self.sync.len() as i64)
    }

    /// How many changes wait, and how and when the last failed attempt failed.
    pub fn sync_queue_summary(&self) -> (r: Result<
        (i64, Option<String>, Option<String>),
        String,
    >)
        requires
            self.wf(),
        ensures
            r is Ok,
            r->Ok_0.0 == self@.sync.len(),
            match last_failure(self@.sync) {
                Some(row) => opt_text(r->Ok_0.1) == row.last_error && opt_text(r->Ok_0.2) == Some(
                    row.updated_at,
                ),
                None => r->Ok_0.1 is None && r->Ok_0.2 is None,
            },
    {
        let pending: i64 = self.pending_sync_count()?;
        let ghost all = self@.sync;
        let mut best: Option<usize> = None;
        for i in 0..self.sync.len()
            invariant
                all == views(self.sync@),
                match best {
                    Some(k) => k < i && last_failure(all.take(i as int)) == Some(all[k as int])
                        && all[k as int].last_error is Some,
                    None => last_failure(all.take(i as int)) is None,
                },
        {
            assert(all.take(i + 1).drop_last() =~= all.take(i as int));
            assert(all[i as int] == self.sync@[i as int]@);
            if self.sync[i].last_error.is_some() {
                match best {
                    Some(k) => {
                        assert(all[k as int] == self.sync@[k as int]@);
                        if less(
                            self.sync[k].updated_at.as_str(),
                            self.sync[i].updated_at.as_str(),
                        ) {
                            best = Some(i);
                        }
                    },
                    None => {
                        best = Some(i);
                    },
                }
            }
        }
        assert(all.take(all.len() as int) =~= all);
        match best {
            Some(k) => Ok(
                (
                    pending,
                    crate::text::copy_opt(&self.sync[k].last_error),
                    Some(self.sync[k].updated_at.clone()),
                ),
            ),
            None => Ok((pending, None, None)),
        }
    }
}

/// A change of rows that keeps their ids and their subjects.
pub proof fn lemma_sync_kept(
    rows: Seq<SyncRowView>,
    p: spec_fn(SyncRowView) -> bool,
    change: spec_fn(SyncRowView) -> SyncRowView,
)
    requires
        sync_wf(rows),
        forall|r: SyncRowView|
            (#[trigger] change(r)).entry.id == r.entry.id && change(r).entry.subject_id
                == r.entry.subject_id,
    ensures
        sync_wf(sync_rows_changed(rows, p, change)),
{
    let after = sync_rows_changed(rows, p, change);
    assert forall|i: int| 0 <= i < after.len() implies (#[trigger] after[i]).entry.id
        == rows[i].entry.id && after[i].entry.subject_id == rows[i].entry.subject_id by {
        if p(rows[i]) {
            assert(after[i] == change(rows[i]));
        }
    }
}

/// Rows that are taken out leave the others in order.
pub proof fn lemma_sync_filtered(rows: Seq<SyncRowView>, p: spec_fn(SyncRowView) -> bool)
    requires
        sync_wf(rows),
    ensures
        sync_wf(rows.filter(p)),
{
    lemma_filter_pairs(
        rows,
        p,
        |a: SyncRowView, b: SyncRowView|
            a.entry.id < b.entry.id && a.entry.subject_id != b.entry.subject_id,
    );
    rows.lemma_filter_len(p);
}

/// The change of a subject that had none waiting gets a number that no waiting change has and
/// that is above every number that was given before.
pub proof fn law_new_changes_get_new_numbers(
    db: DatabaseView,
    subject_id: i64,
    collection: Seq<char>,
    ep: Option<i64>,
    now: Seq<char>,
)
    requires
        db.wf(),
        !db.sync_waits(subject_id),
        !db.sync_exhausted(subject_id),
    ensures
        ({
            let after = db.sync_queued(subject_id, collection, ep, now);
            let id = after.sync.last().entry.id;
            &&& after.sync.drop_last() == db.sync
            &&& after.sync.last().entry.subject_id == subject_id
            &&& id > db.last_sync_id
            &&& after.last_sync_id == id
            &&& forall|i: int|
                0 <= i < db.sync.len() ==> (#[trigger] db.sync[i]).entry.id < id
        }),
{
    let after = db.sync_queued(subject_id, collection, ep, now);
    lemma_first_none(db.sync, sync_has_subject(subject_id));
    assert(after.sync.drop_last() =~= db.sync);
    assert forall|i: int| 0 <= i < db.sync.len() implies (#[trigger] db.sync[i]).entry.id
        <= db.greatest_sync_id() by {
        let n = db.sync.len() - 1;
        if i < n {
            assert(db.sync[i].entry.id < db.sync[n].entry.id);
        }
    }
}

/// A change that was queued waits, is due at once and holds what was queued; the
/// changes of other subjects stay as they are.
pub proof fn law_queueing_replaces_own_change(
    db: DatabaseView,
    subject_id: i64,
    collection: Seq<char>,
    ep: Option<i64>,
    now: Seq<char>,
)
    requires
        db.wf(),
        !db.sync_exhausted(subject_id),
    ensures
        ({
            let after = db.sync_queued(subject_id, collection, ep, now);
            &&& after.wf()
            &&& first(after.sync, sync_has_subject(subject_id)) matches Some(row)
                && row.entry.collection == collection && row.entry.ep == ep && row.entry.attempts
                == 0 && row.next_attempt_at == now && is_due(now)(row)
            &&& forall|other: i64|
                other != subject_id ==> #[trigger] first(after.sync, sync_has_subject(other))
                    == first(db.sync, sync_has_subject(other))
        }),
{
    let after = db.sync_queued(subject_id, collection, ep, now);
    let p = sync_has_subject(subject_id);
    let change = superseded(collection, ep, now);
    lemma_lt_irreflexive(now);
    lemma_first_none(db.sync, p);
    if db.sync_waits(subject_id) {
        lemma_sync_kept(db.sync, p, change);
        let row = first(db.sync, p)->0;
        let k = choose|k: int| 0 <= k < db.sync.len() && db.sync[k] == row;
        assert(after.sync[k] == change(row));
        assert forall|j: int| 0 <= j < k implies !p(#[trigger] after.sync[j]) by {
            assert(db.sync[j].entry.subject_id != db.sync[k].entry.subject_id);
        }
        lemma_first_at(after.sync, p, k);
        assert forall|other: i64| other != subject_id implies #[trigger] first(
            after.sync,
            sync_has_subject(other),
        ) == first(db.sync, sync_has_subject(other)) by {
            lemma_first_unchanged(db.sync, after.sync, other);
        }
    } else {
        let k = db.sync.len() as int;
        assert forall|j: int| 0 <= j < k implies !p(#[trigger] after.sync[j]) by {
            assert(after.sync[j] == db.sync[j]);
        }
        lemma_first_at(after.sync, p, k);
        assert forall|other: i64| other != subject_id implies #[trigger] first(
            after.sync,
            sync_has_subject(other),
        ) == first(db.sync, sync_has_subject(other)) by {
            lemma_first_unchanged(db.sync, after.sync, other);
        }
        assert(sync_wf(after.sync));
    }
}

/// The change of a subject is the same where no row of the subject differs.
proof fn lemma_first_unchanged(before: Seq<SyncRowView>, after: Seq<SyncRowView>, subject_id: i64)
    requires
        before.len() <= after.len(),
        forall|j: int|
            0 <= j < before.len() ==> (#[trigger] after[j] == before[j] || after[j].entry.subject_id
                == before[j].entry.subject_id && before[j].entry.subject_id != subject_id),
        forall|j: int|
            before.len() <= j < after.len() ==> (#[trigger] after[j]).entry.subject_id
                != subject_id,
    ensures
        first(after, sync_has_subject(subject_id)) == first(before, sync_has_subject(subject_id)),
    decreases after.len(),
{
    let p = sync_has_subject(subject_id);
    if before.len() == 0 {
        lemma_first_none(after, p);
    } else {
        let a = after.drop_first();
        let b = before.drop_first();
        assert forall|j: int| 0 <= j < b.len() implies (#[trigger] a[j] == b[j]
            || a[j].entry.subject_id == b[j].entry.subject_id && b[j].entry.subject_id
            != subject_id) by {
            assert(a[j] == after[j + 1] && b[j] == before[j + 1]);
        }
        assert forall|j: int| b.len() <= j < a.len() implies (#[trigger] a[j]).entry.subject_id
            != subject_id by {
            assert(a[j] == after[j + 1]);
        }
        assert(after[0] == before[0] || after[0].entry.subject_id != subject_id);
        lemma_first_unchanged(b, a, subject_id);
    }
}

/// What is reported about a change that was replaced meanwhile changes nothing: neither
/// its success takes the later change out of the queue, nor its failure delays it.
pub proof fn law_reports_of_replaced_changes_are_ignored(
    db: DatabaseView,
    subject_id: i64,
    collection: Seq<char>,
    ep: Option<i64>,
    now: Seq<char>,
    sent: SyncEntryView,
    change: spec_fn(SyncRowView) -> SyncRowView,
)
    requires
        db.wf(),
        !db.sync_exhausted(subject_id),
        sent.subject_id == subject_id,
        first(db.sync, sync_has_subject(subject_id)) matches Some(row) && row.entry == sent,
    ensures
        ({
            let after = db.sync_queued(subject_id, collection, ep, now);
            let stale = sync_is_current(sent.id, sent.version);
            &&& after.sync_removed(stale) == after
            &&& after.sync_changed(stale, change) == after
        }),
{
    let p = sync_has_subject(subject_id);
    let after = db.sync_queued(subject_id, collection, ep, now);
    let stale = sync_is_current(sent.id, sent.version);
    lemma_first_none(db.sync, p);
    let row = first(db.sync, p)->0;
    let k = choose|k: int| 0 <= k < db.sync.len() && db.sync[k] == row;
    assert(p(db.sync[k]));
    assert forall|j: int| 0 <= j < after.sync.len() implies !stale(#[trigger] after.sync[j]) by {
        if j == k {
            assert(after.sync[j] == superseded(collection, ep, now)(row));
        } else {
            assert(db.sync[j].entry.id != db.sync[k].entry.id);
            assert(after.sync[j] == db.sync[j]);
        }
    }
    let keep = |r: SyncRowView| !stale(r);
    lemma_keep_all(after.sync, keep);
    assert(after.sync_removed(stale) =~= after);
    assert(sync_rows_changed(after.sync, stale, change) =~= after.sync);
    assert(after.sync_changed(stale, change) =~= after);
}

/// A property that all rows have keeps all of them.
pub proof fn lemma_keep_all(rows: Seq<SyncRowView>, keep: spec_fn(SyncRowView) -> bool)
    requires
        forall|j: int| 0 <= j < rows.len() ==> keep(#[trigger] rows[j]),
    ensures
        rows.filter(keep) == rows,
    decreases rows.len(),
{
    reveal(Seq::filter);
    if rows.len() > 0 {
        let rest = rows.drop_last();
        assert forall|j: int| 0 <= j < rest.len() implies keep(#[trigger] rest[j]) by {
            assert(rest[j] == rows[j]);
        }
        lemma_keep_all(rest, keep);
        assert(keep(rows[rows.len() - 1]));
        assert(rest.push(rows.last()) =~= rows);
    } else {
        assert(rows.filter(keep) =~= rows);
    }
}

} // verus!
