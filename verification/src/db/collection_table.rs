//! The collections, the caches and the settings of the database.

use super::{CacheRow, CollectionRow, CollectionRowView, Database, DatabaseView, SettingRow};
use crate::clock::{is_clock_text, now_text};
use crate::json::Json;
use crate::models::Subject;
use crate::rows::{first, lemma_first_at, lemma_first_none, views};
use crate::text::{opt_text, same};
use std::collections::HashMap;
use vstd::prelude::*;

verus! {

/// The watched episodes of a subject; none where nothing is known of it.
pub open spec fn watched_of(collections: Map<i64, CollectionRowView>, subject_id: i64) -> i64 {
    if collections.dom().contains(subject_id) {
        collections[subject_id].watched
    } else {
        0
    }
}

/// Whether a setting has the key.
pub open spec fn setting_has_key(key: Seq<char>) -> spec_fn((Seq<char>, Seq<char>)) -> bool {
    |s: (Seq<char>, Seq<char>)| s.0 == key
}

/// The value of a setting.
pub open spec fn setting_of(settings: Seq<(Seq<char>, Seq<char>)>, key: Seq<char>) -> Option<
    Seq<char>,
> {
    match first(settings, setting_has_key(key)) {
        Some(s) => Some(s.1),
        None => None,
    }
}

impl DatabaseView {
    /// The records after a subject was put in a collection; what was watched stays.
    pub open spec fn collected(
        self,
        subject_id: i64,
        collection: Seq<char>,
        now: Seq<char>,
    ) -> DatabaseView {
        self.collected_with(subject_id, collection, watched_of(self.collections, subject_id), now)
    }

    /// The records after a subject was put in a collection with its watched episodes.
    pub open spec fn collected_with(
        self,
        subject_id: i64,
        collection: Seq<char>,
        watched: i64,
        now: Seq<char>,
    ) -> DatabaseView {
        DatabaseView {
            collections: self.collections.insert(
                subject_id,
                CollectionRowView { collection, watched, updated_at: now },
            ),
            ..self
        }
    }

    /// The records after the document of a subject was stored.
    pub open spec fn subject_cached(
        self,
        subject_id: i64,
        payload: Json,
        now: Seq<char>,
    ) -> DatabaseView {
        DatabaseView { subjects: self.subjects.insert(subject_id, (payload, now)), ..self }
    }

    /// The records after the details of a subject were stored.
    pub open spec fn detail_saved(
        self,
        subject_id: i64,
        payload: Json,
        now: Seq<char>,
    ) -> DatabaseView {
        DatabaseView { details: self.details.insert(subject_id, (payload, now)), ..self }
    }
}

impl Database {
    /// Puts a subject in a collection at the time `now`; what was watched stays.
    pub fn set_collection_at(&mut self, subject_id: i64, collection: &str, now: &str) -> (r: Result<
        (),
        String,
    >)
        requires
            old(self).wf(),
        ensures
            r is Ok,
            final(self).wf(),
            final(self)@ == old(self)@.collected(subject_id, collection@, now@),
    {
        let watched: i64 = match self.collections.get(subject_id) {
            Some(row) => row.watched,
            None => 0,
        };
        self.set_collection_progress_at(subject_id, collection, watched, now)
    }

    /// Puts a subject in a collection; what was watched stays.
    pub fn set_collection(&mut self, subject_id: i64, collection: &str) -> (r: Result<(), String>)
        requires
            old(self).wf(),
        ensures
            r is Ok,
            final(self).wf(),
            exists|now: Seq<char>|
                is_clock_text(now) && final(self)@ == #[trigger] old(self)@.collected(
                    subject_id,
                    collection@,
                    now,
                ),
    {
        let now = now_text();
        self.set_collection_at(subject_id, collection, now.as_str())
    }

    /// Puts a subject in a collection with its watched episodes at the time `now`.
    pub fn set_collection_progress_at(
        &mut self,
        subject_id: i64,
        collection: &str,
        watched: i64,
        now: &str,
    ) -> (r: Result<(), String>)
        requires
            old(self).wf(),
        ensures
            r is Ok,
            final(self).wf(),
            final(self)@ == old(self)@.collected_with(subject_id, collection@, watched, now@),
    {
        self.collections.put(
            subject_id,
            CollectionRow {
                collection: collection.to_owned(),
                watched,
                updated_at: now.to_owned(),
            },
        );
        assert(self@ =~= old(self)@.collected_with(subject_id, collection@, watched, now@));
        Ok(())
    }

    /// Puts a subject in a collection with its watched episodes.
    pub fn set_collection_progress(
        &mut self,
        subject_id: i64,
        collection: &str,
        watched: i64,
    ) -> (r: Result<(), String>)
        requires
            old(self).wf(),
        ensures
            r is Ok,
            final(self).wf(),
            exists|now: Seq<char>|
                is_clock_text(now) && final(self)@ == #[trigger] old(self)@.collected_with(
                    subject_id,
                    collection@,
                    watched,
                    now,
                ),
    {
        let now = now_text();
        self.set_collection_progress_at(subject_id, collection, watched, now.as_str())
    }

    /// The collection of a subject and its watched episodes.
    pub fn collection_state(&self, subject_id: i64) -> (r: Result<Option<(String, i64)>, String>)
        requires
            self.wf(),
        ensures
            r is Ok,
            match r->Ok_0 {
                Some(state) => self@.collections.dom().contains(subject_id) && state.0@
                    == self@.collections[subject_id].collection && state.1
                    == self@.collections[subject_id].watched,
                None => !self@.collections.dom().contains(subject_id),
            },
    {
        match self.collections.get(subject_id) {
            Some(row) => Ok(Some((row.collection.clone(), row.watched))),
            None => Ok(None),
        }
    }

    /// The collection and the watched episodes of every subject.
    pub fn collections(&self) -> (r: Result<HashMap<i64, (String, i64)>, String>)
        requires
            self.wf(),
        ensures
            r is Ok,
            r->Ok_0@.dom() == self@.collections.dom(),
            forall|id: i64| #[trigger]
                r->Ok_0@.dom().contains(id) ==> r->Ok_0@[id].0@ == self@.collections[id].collection
                    && r->Ok_0@[id].1 == self@.collections[id].watched,
    {
        broadcast use vstd::std_specs::hash::group_hash_axioms;

        proof {
            self.collections.lemma_numbers();
        }
        let ghost numbers = self.collections.numbers();
        let mut all: HashMap<i64, (String, i64)> = HashMap::new();
        for i in 0..self.collections.rows.len()
            invariant
                numbers == self.collections.numbers(),
                forall|j: int, k: int|
                    0 <= j < k < numbers.len() ==> #[trigger] numbers[j] < #[trigger] numbers[k],
                forall|j: int|
                    0 <= j < numbers.len() ==> self@.collections[numbers[j]]
                        == (#[trigger] self.collections.rows@[j]).1@,
                forall|id: i64| #[trigger]
                    all@.dom().contains(id) <==> (exists|j: int| 0 <= j < i && numbers[j] == id),
                forall|id: i64| #[trigger]
                    all@.dom().contains(id) ==> all@[id].0@ == self@.collections[id].collection
                        && all@[id].1 == self@.collections[id].watched,
        {
            let id: i64 = self.collections.rows[i].0;
            let row: &CollectionRow = &self.collections.rows[i].1;
            assert(numbers[i as int] == id);
            assert(self@.collections[numbers[i as int]] == self.collections.rows@[i as int].1@);
            all.insert(id, (row.collection.clone(), row.watched));
        }
        assert(all@.dom() =~= self@.collections.dom()) by {
            assert forall|id: i64| #[trigger]
                all@.dom().contains(id) <==> self@.collections.dom().contains(id) by {
                assert(numbers.contains(id) <==> self.collections@.dom().contains(id));
            }
        }
        Ok(all)
    }

    /// Stores the document of a subject at the time `now`.
    pub fn cache_subject_at(&mut self, subject_id: i64, payload: Json, now: &str) -> (r: Result<
        (),
        String,
    >)
        requires
            old(self).wf(),
        ensures
            r is Ok,
            final(self).wf(),
            final(self)@ == old(self)@.subject_cached(subject_id, payload, now@),
    {
        self.subjects.put(subject_id, CacheRow { payload, updated_at: now.to_owned() });
        assert(self@ =~= old(self)@.subject_cached(subject_id, payload, now@));
        Ok(())
    }

    /// Stores the document of a subject.
    pub fn cache_subject(&mut self, subject_id: i64, payload: Json) -> (r: Result<(), String>)
        requires
            old(self).wf(),
        ensures
            r is Ok,
            final(self).wf(),
            exists|now: Seq<char>|
                is_clock_text(now) && final(self)@ == #[trigger] old(self)@.subject_cached(
                    subject_id,
                    payload,
                    now,
                ),
    {
        let now = now_text();
        self.cache_subject_at(subject_id, payload, now.as_str())
    }

    /// The stored documents of the subjects, in the order of their numbers.
    pub fn cached_subjects(&self) -> (r: Result<Vec<&Json>, String>)
        requires
            self.wf(),
        ensures
            r is Ok,
            r->Ok_0@.len() == self.subjects.numbers().len(),
            forall|i: int|
                0 <= i < r->Ok_0@.len() ==> *(#[trigger] r->Ok_0@[i])
                    == self@.subjects[self.subjects.numbers()[i]].0,
            forall|i: int, j: int|
                0 <= i < j < self.subjects.numbers().len() ==> #[trigger] self.subjects.numbers()[i]
                    < #[trigger] self.subjects.numbers()[j],
            forall|k: i64|
                self.subjects.numbers().contains(k) <==> #[trigger] self@.subjects.dom().contains(k),
    {
        proof {
            self.subjects.lemma_numbers();
        }
        let mut list: Vec<&Json> = Vec::new();
        for i in 0..self.subjects.rows.len()
            invariant
                list@.len() == i,
                forall|j: int|
                    0 <= j < i ==> *(#[trigger] list@[j]) == self.subjects.rows@[j].1.payload,
        {
            list.push(&self.subjects.rows[i].1.payload);
        }
        assert forall|i: int| 0 <= i < list@.len() implies *(#[trigger] list@[i])
            == self@.subjects[self.subjects.numbers()[i]].0 by {
            assert(self.subjects@[self.subjects.numbers()[i]] == self.subjects.rows@[i].1@);
        }
        Ok(list)
    }

    /// The stored details of a subject, and when they were stored.
    pub fn cached_detail(&self, subject_id: i64) -> (r: Result<Option<(&Json, &str)>, String>)
        requires
            self.wf(),
        ensures
            r is Ok,
            match r->Ok_0 {
                Some(found) => self@.details.dom().contains(subject_id) && (*found.0, found.1@)
                    == self@.details[subject_id],
                None => !self@.details.dom().contains(subject_id),
            },
    {
        match self.details.get(subject_id) {
            Some(row) => Ok(Some((&row.payload, row.updated_at.as_str()))),
            None => Ok(None),
        }
    }

    /// Stores the details of a subject at the time `now`.
    pub fn save_detail_at(&mut self, subject_id: i64, payload: Json, now: &str) -> (r: Result<
        (),
        String,
    >)
        requires
            old(self).wf(),
        ensures
            r is Ok,
            final(self).wf(),
            final(self)@ == old(self)@.detail_saved(subject_id, payload, now@),
    {
        self.details.put(subject_id, CacheRow { payload, updated_at: now.to_owned() });
        assert(self@ =~= old(self)@.detail_saved(subject_id, payload, now@));
        Ok(())
    }

    /// Stores the details of a subject.
    pub fn save_detail(&mut self, subject_id: i64, payload: Json) -> (r: Result<(), String>)
        requires
            old(self).wf(),
        ensures
            r is Ok,
            final(self).wf(),
            exists|now: Seq<char>|
                is_clock_text(now) && final(self)@ == #[trigger] old(self)@.detail_saved(
                    subject_id,
                    payload,
                    now,
                ),
    {
        let now = now_text();
        self.save_detail_at(subject_id, payload, now.as_str())
    }

    /// Stores the calendar.
    pub fn save_calendar(&mut self, subjects: &Vec<Subject>) -> (r: Result<(), String>)
        requires
            old(self).wf(),
        ensures
            r is Ok,
            final(self).wf(),
            final(self)@ == (super::DatabaseView {
                calendar: Some(views(subjects@)),
                ..old(self)@
            }),
    {
        self.calendar = Some(copy_subjects(subjects));
        assert(self@ =~= (super::DatabaseView {
            calendar: Some(views(subjects@)),
            ..old(self)@
        }));
        Ok(())
    }

    /// The stored calendar.
    pub fn cached_calendar(&self) -> (r: Result<Vec<Subject>, String>)
        ensures
            match r {
                Ok(list) => self@.calendar == Some(views(list@)),
                Err(e) => self@.calendar is None && e@ == "Query returned no rows"@,
            },
    {
        match &self.calendar {
            Some(list) => Ok(copy_subjects(list)),
            None => Err("Query returned no rows".to_owned()),
        }
    }

    /// The value of a setting.
    pub fn get_setting(&self, key: &str) -> (r: Result<Option<String>, String>)
        ensures
            r is Ok,
            opt_text(r->Ok_0) == setting_of(self@.settings, key@),
    {
        let ghost all = self@.settings;
        let ghost p = setting_has_key(key@);
        for i in 0..self.settings.len()
            invariant
                all == views(self.settings@),
                p == setting_has_key(key@),
                forall|j: int| 0 <= j < i ==> !p(#[trigger] all[j]),
        {
            if same(self.settings[i].key.as_str(), key) {
                proof {
                    lemma_first_at(all, p, i as int);
                }
                return Ok(Some(self.settings[i].value.clone()));
            }
        }
        proof {
            lemma_first_none(all, p);
        }
        Ok(None)
    }

    /// Gives a setting a value.
    pub fn set_setting(&mut self, key: &str, value: &str) -> (r: Result<(), String>)
        requires
            old(self).wf(),
        ensures
            r is Ok,
            final(self).wf(),
            final(self)@ == (DatabaseView { settings: final(self)@.settings, ..old(self)@ }),
            forall|k: Seq<char>| #[trigger]
                setting_of(final(self)@.settings, k) == if k == key@ {
                    Some(value@)
                } else {
                    setting_of(old(self)@.settings, k)
                },
    {
        let ghost all = self@.settings;
        let mut at: Option<usize> = None;
        for i in 0..self.settings.len()
            invariant
                all == views(self.settings@),
                match at {
                    Some(k) => k < i && all[k as int].0 == key@,
                    None => forall|j: int| 0 <= j < i ==> (#[trigger] all[j]).0 != key@,
                },
        {
            assert(all[i as int] == self.settings@[i as int]@);
            if same(self.settings[i].key.as_str(), key) {
                at = Some(i);
            }
        }
        match at {
            Some(i) => {
                self.settings[i].value = value.to_owned();
                assert(self@.settings =~= all.update(i as int, (key@, value@)));
            },
            None => {
                self.settings.push(SettingRow { key: key.to_owned(), value: value.to_owned() });
                assert(self@.settings =~= all.push((key@, value@)));
            },
        }
        proof {
            assert(self@ =~= (DatabaseView { settings: self@.settings, ..old(self)@ }));
            assert forall|k: Seq<char>| #[trigger] setting_of(self@.settings, k) == if k == key@ {
                Some(value@)
            } else {
                setting_of(all, k)
            } by {
                lemma_setting_changed(all, self@.settings, at, key@, value@, k);
            }
        }
        Ok(())
    }
}

/// What a setting is after one of them was given a value.
proof fn lemma_setting_changed(
    before: Seq<(Seq<char>, Seq<char>)>,
    after: Seq<(Seq<char>, Seq<char>)>,
    at: Option<usize>,
    key: Seq<char>,
    value: Seq<char>,
    k: Seq<char>,
)
    requires
        super::setting_keys_differ(before),
        match at {
            Some(i) => i < before.len() && before[i as int].0 == key && after == before.update(
                i as int,
                (key, value),
            ),
            None => after == before.push((key, value)) && forall|j: int|
                0 <= j < before.len() ==> (#[trigger] before[j]).0 != key,
        },
    ensures
        setting_of(after, k) == if k == key {
            Some(value)
        } else {
            setting_of(before, k)
        },
{
    let p = setting_has_key(k);
    lemma_first_none(before, p);
    lemma_first_none(after, p);
    if k == key {
        let i: int = match at {
            Some(i) => i as int,
            None => before.len() as int,
        };
        assert(after[i] == (key, value));
        assert forall|j: int| 0 <= j < i implies !p(#[trigger] after[j]) by {
            assert(after[j] == before[j]);
        }
        lemma_first_at(after, p, i);
    } else {
        if let Some(row) = first(before, p) {
            let i = choose|i: int| 0 <= i < before.len() && before[i] == row;
            assert(after[i] == row);
            assert forall|j: int| 0 <= j < i implies !p(#[trigger] after[j]) by {
                assert(before[j].0 != before[i].0);
            }
            lemma_first_at(after, p, i);
        } else {
            assert forall|j: int| 0 <= j < after.len() implies !p(#[trigger] after[j]) by {
                if j < before.len() {
                    assert(!p(before[j]));
                }
            }
        }
    }
}

/// A copy of a list of subjects.
pub fn copy_subjects(list: &Vec<Subject>) -> (copy: Vec<Subject>)
    ensures
        copy@ == list@,
{
    let mut copy: Vec<Subject> = Vec::new();
    for i in 0..list.len()
        invariant
            copy@ == list@.take(i as int),
    {
        copy.push(list[i].clone());
        assert(list@.take(i + 1) =~= list@.take(i as int).push(list@[i as int]));
    }
    assert(list@.take(list@.len() as int) =~= list@);
    copy
}

} // verus!
