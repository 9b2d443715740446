//! Changes of collections together with the queue of changes to send.

use super::sync_table::sync_has_subject;
use super::{Database, DatabaseView};
use crate::clock::{is_clock_text, now_text};
use crate::rows::first;
use vstd::prelude::*;

verus! {

/// Entries of a collection as plain values: subject, collection and watched episodes.
pub open spec fn entries(list: Seq<(i64, String, i64)>) -> Seq<(i64, Seq<char>, i64)> {
    list.map_values(|e: (i64, String, i64)| (e.0, e.1@, e.2))
}

impl DatabaseView {
    /// The episodes that a waiting change of a subject would send.
    pub open spec fn waiting_ep(self, subject_id: i64) -> Option<i64> {
        match first(self.sync, sync_has_subject(subject_id)) {
            Some(row) => row.entry.ep,
            None => None,
        }
    }

    /// The collection that a subject stands in; one that stands in none is being watched.
    pub open spec fn collection_or_doing(self, subject_id: i64) -> Seq<char> {
        if self.collections.dom().contains(subject_id) {
            self.collections[subject_id].collection
        } else {
            "doing"@
        }
    }

    /// The records after a subject was put in a collection. Where the change is queued, it
    /// keeps the episodes of the change that it replaces.
    pub open spec fn collected_and_queued(
        self,
        subject_id: i64,
        collection: Seq<char>,
        enqueue: bool,
        now: Seq<char>,
    ) -> DatabaseView {
        let after = self.collected(subject_id, collection, now);
        if enqueue {
            after.sync_queued(subject_id, collection, self.waiting_ep(subject_id), now)
        } else {
            after
        }
    }

    /// The records after the watched episodes of a subject were noted. The collection stays.
    pub open spec fn watched_and_queued(
        self,
        subject_id: i64,
        watched: i64,
        enqueue: bool,
        now: Seq<char>,
    ) -> DatabaseView {
        let collection = self.collection_or_doing(subject_id);
        let after = self.collected_with(subject_id, collection, watched, now);
        if enqueue {
            after.sync_queued(subject_id, collection, Some(watched), now)
        } else {
            after
        }
    }

    /// The records after entries of the collection on the network were taken over. A subject
    /// for which a change waits is left as it is.
    pub open spec fn imported(self, list: Seq<(i64, Seq<char>, i64)>, now: Seq<char>) -> DatabaseView
        decreases list.len(),
    {
        if list.len() == 0 {
            self
        } else {
            let before = self.imported(list.drop_last(), now);
            let (id, collection, watched) = list.last();
            if self.sync_waits(id) {
                before
            } else {
                before.collected_with(id, collection, watched, now)
            }
        }
    }

    /// How many entries were taken over.
    pub open spec fn import_count(self, list: Seq<(i64, Seq<char>, i64)>) -> nat
        decreases list.len(),
    {
        if list.len() == 0 {
            0
        } else {
            self.import_count(list.drop_last()) + if self.sync_waits(list.last().0) {
                0nat
            } else {
                1nat
            }
        }
    }
}

impl Database {
    /// Puts a subject in a collection at the time `now`, and queues the change where
    /// `enqueue` says so. Either both happen or neither.
    pub fn set_collection_and_sync_at(
        &mut self,
        subject_id: i64,
        collection: &str,
        enqueue: bool,
        now: &str,
    ) -> (r: Result<(), String>)
        requires
            old(self).wf(),
        ensures
            final(self).wf(),
            match r {
                Ok(_) => !(enqueue && old(self)@.sync_exhausted(subject_id)) && final(self)@
                    == old(self)@.collected_and_queued(subject_id, collection@, enqueue, now@),
                Err(e) => enqueue && old(self)@.sync_exhausted(subject_id) && *final(self)
                    == *old(self) && e@ == "database or disk is full"@,
            },
    {
        let ep: Option<i64> = match self.sync_index(subject_id) {
            Some(i) => self.sync[i].entry.ep,
            None => None,
        };
        if enqueue {
            self.enqueue_collection_sync_at(subject_id, collection, ep, now)?;
        }
        let _ = self.set_collection_at(subject_id, collection, now);
        assert(self@ =~= old(self)@.collected_and_queued(subject_id, collection@, enqueue, now@));
        Ok(())
    }

    /// Puts a subject in a collection, and queues the change where `enqueue` says so.
    pub fn set_collection_and_sync(
        &mut self,
        subject_id: i64,
        collection: &str,
        enqueue: bool,
    ) -> (r: Result<(), String>)
        requires
            old(self).wf(),
        ensures
            final(self).wf(),
            match r {
                Ok(_) => !(enqueue && old(self)@.sync_exhausted(subject_id)) && exists|
                    now: Seq<char>,
                |
                    is_clock_text(now) && final(self)@ == #[trigger] old(self)@.collected_and_queued(
                        subject_id,
                        collection@,
                        enqueue,
                        now,
                    ),
                Err(e) => enqueue && old(self)@.sync_exhausted(subject_id) && *final(self)
                    == *old(self) && e@ == "database or disk is full"@,
            },
    {
        let now = now_text();
        self.set_collection_and_sync_at(subject_id, collection, enqueue, now.as_str())
    }

    /// Notes the watched episodes of a subject at the time `now`, and queues the change where
    /// `enqueue` says so. Either both happen or neither. Gives the collection, which stays;
    /// a subject without one is being watched.
    pub fn set_progress_and_sync_at(
        &mut self,
        subject_id: i64,
        watched: i64,
        enqueue: bool,
        now: &str,
    ) -> (r: Result<String, String>)
        requires
            old(self).wf(),
        ensures
            final(self).wf(),
            match r {
                Ok(collection) => !(enqueue && old(self)@.sync_exhausted(subject_id))
                    && collection@ == old(self)@.collection_or_doing(subject_id) && final(self)@
                    == old(self)@.watched_and_queued(subject_id, watched, enqueue, now@),
                Err(e) => enqueue && old(self)@.sync_exhausted(subject_id) && *final(self)
                    == *old(self) && e@ == "database or disk is full"@,
            },
    {
        let collection: String = match self.collections.get(subject_id) {
            Some(row) => row.collection.clone(),
            None => "doing".to_owned(),
        };
        if enqueue {
            self.enqueue_collection_sync_at(subject_id, collection.as_str(), Some(watched), now)?;
        }
        let _ = self.set_collection_progress_at(subject_id, collection.as_str(), watched, now);
        assert(self@ =~= old(self)@.watched_and_queued(subject_id, watched, enqueue, now@));
        Ok(collection)
    }

    /// Notes the watched episodes of a subject, and queues the change where `enqueue` says
    /// so. Gives the collection, which stays.
    pub fn set_progress_and_sync(
        &mut self,
        subject_id: i64,
        watched: i64,
        enqueue: bool,
    ) -> (r: Result<String, String>)
        requires
            old(self).wf(),
        ensures
            final(self).wf(),
            match r {
                Ok(collection) => !(enqueue && old(self)@.sync_exhausted(subject_id))
                    && collection@ == old(self)@.collection_or_doing(subject_id) && exists|
                    now: Seq<char>,
                |
                    is_clock_text(now) && final(self)@ == #[trigger] old(self)@.watched_and_queued(
                        subject_id,
                        watched,
                        enqueue,
                        now,
                    ),
                Err(e) => enqueue && old(self)@.sync_exhausted(subject_id) && *final(self)
                    == *old(self) && e@ == "database or disk is full"@,
            },
    {
        let now = now_text();
        self.set_progress_and_sync_at(subject_id, watched, enqueue, now.as_str())
    }

    /// Takes over entries of the collection on the network at the time `now`, and counts
    /// them. A subject for which a change waits is left as it is.
    pub fn import_cloud_collections_at(&mut self, list: &Vec<(i64, String, i64)>, now: &str) -> (r:
        Result<usize, String>)
        requires
            old(self).wf(),
        ensures
            r is Ok,
            final(self).wf(),
            final(self)@ == old(self)@.imported(entries(list@), now@),
            r->Ok_0 == old(self)@.import_count(entries(list@)),
    {
        let ghost all = entries(list@);
        let mut count: usize = 0;
        assert(all.take(0) =~= Seq::<(i64, Seq<char>, i64)>::empty());
        for i in 0..list.len()
            invariant
                all == entries(list@),
                self.wf(),
                self@.sync == old(self)@.sync,
                self@ == old(self)@.imported(all.take(i as int), now@),
                count <= i,
                count == old(self)@.import_count(all.take(i as int)),
        {
            assert(all.take(i + 1).drop_last() =~= all.take(i as int));
            assert(all.take(i + 1).last() == (
                list@[i as int].0,
                list@[i as int].1@,
                list@[i as int].2,
            ));
            let id: i64 = list[i].0;
            let ghost sofar = self@;
            assert(sofar.sync_waits(id) == old(self)@.sync_waits(id));
            if self.sync_index(id).is_none() {
                let _ = self.set_collection_progress_at(id, list[i].1.as_str(), list[i].2, now);
                count = count + 1;
            }
        }
        assert(all.take(all.len() as int) =~= all);
        Ok(count)
    }

    /// Takes over entries of the collection on the network, and counts them.
    pub fn import_cloud_collections(&mut self, list: &Vec<(i64, String, i64)>) -> (r: Result<
        usize,
        String,
    >)
        requires
            old(self).wf(),
        ensures
            r is Ok,
            final(self).wf(),
            exists|now: Seq<char>|
                is_clock_text(now) && final(self)@ == #[trigger] old(self)@.imported(
                    entries(list@),
                    now,
                ),
            r->Ok_0 == old(self)@.import_count(entries(list@)),
    {
        let now = now_text();
        self.import_cloud_collections_at(list, now.as_str())
    }
}

/// An import never changes a subject for which a change waits, nor the waiting changes.
pub proof fn law_import_spares_waiting_changes(
    db: DatabaseView,
    list: Seq<(i64, Seq<char>, i64)>,
    now: Seq<char>,
    subject_id: i64,
)
    requires
        db.sync_waits(subject_id),
    ensures
        db.imported(list, now).sync == db.sync,
        db.imported(list, now).collections.dom().contains(subject_id)
            == db.collections.dom().contains(subject_id),
        db.collections.dom().contains(subject_id) ==> db.imported(
            list,
            now,
        ).collections[subject_id] == db.collections[subject_id],
    decreases list.len(),
{
    if list.len() > 0 {
        law_import_spares_waiting_changes(db, list.drop_last(), now, subject_id);
    }
}

/// A subject for which no change waits has, after an import that names it once, what the
/// network says of it.
pub proof fn law_import_takes_over(
    db: DatabaseView,
    list: Seq<(i64, Seq<char>, i64)>,
    now: Seq<char>,
    k: int,
)
    requires
        0 <= k < list.len(),
        !db.sync_waits(list[k].0),
        forall|j: int| 0 <= j < list.len() && j != k ==> (#[trigger] list[j]).0 != list[k].0,
    ensures
        db.imported(list, now).collections.dom().contains(list[k].0),
        db.imported(list, now).collections[list[k].0].collection == list[k].1,
        db.imported(list, now).collections[list[k].0].watched == list[k].2,
    decreases list.len(),
{
    if k < list.len() - 1 {
        let rest = list.drop_last();
        assert forall|j: int| 0 <= j < rest.len() && j != k implies (#[trigger] rest[j]).0
            != rest[k].0 by {
            assert(list[j].0 != list[k].0);
        }
        law_import_takes_over(db, rest, now, k);
        assert(list[list.len() - 1].0 != list[k].0);
    }
}

/// Noting watched episodes keeps the collection of a subject, and what is queued says both.
pub proof fn law_progress_keeps_the_collection(
    db: DatabaseView,
    subject_id: i64,
    watched: i64,
    now: Seq<char>,
)
    requires
        db.wf(),
        !db.sync_exhausted(subject_id),
    ensures
        ({
            let after = db.watched_and_queued(subject_id, watched, true, now);
            &&& after.collections[subject_id].collection == db.collection_or_doing(subject_id)
            &&& after.collections[subject_id].watched == watched
            &&& first(after.sync, sync_has_subject(subject_id)) matches Some(row)
                && row.entry.collection == db.collection_or_doing(subject_id) && row.entry.ep
                == Some(watched)
        }),
{
    let collection = db.collection_or_doing(subject_id);
    let mid = db.collected_with(subject_id, collection, watched, now);
    super::sync_table::law_queueing_replaces_own_change(
        mid,
        subject_id,
        collection,
        Some(watched),
        now,
    );
}

} // verus!
