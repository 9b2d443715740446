//! Collections: importing them, changing them, and sending the changes.

use crate::bangumi::{collection_kind, collection_slug, kind_of, slug_of};
use crate::clock::{
    LAST_FOUR_DIGIT_SECOND, LAST_SECOND, Moment, format_rfc3339, rfc3339_text, stands_at,
};
use crate::covers::{cover_address, cover_candidate};
use crate::db::collection_sync::entries;
use crate::db::sync_table::{attempt_failed, last_failure, sync_is_current};
use crate::db::{Database, DatabaseView, SyncEntry, SyncEntryView};
use crate::json::{Json, as_i64, field, int_of, take_field};
use crate::models::{Subject, SubjectView};
use crate::rows::opt_view;
use crate::stored::stores_subject;
use crate::text::opt_text;
use vstd::prelude::*;

verus! {

/// The watched episodes of a subject with its collection.
#[derive(Debug)]
pub struct WatchProgress {
    pub collection: String,
    pub watched: i64,
}

/// How many changes wait to be sent, and how and when the last failed attempt failed.
#[derive(Debug)]
pub struct SyncStatus {
    pub pending: i64,
    pub last_error: Option<String>,
    pub last_attempt_at: Option<String>,
}

/// A whole number that may be absent: zero stands for none.
pub open spec fn int_or_zero(value: Option<Json>) -> i64 {
    match int_of(value) {
        Some(n) => n,
        None => 0,
    }
}

/// What an item of the collection on the network says: the subject, its collection and its
/// watched episodes. An item of no known kind says nothing.
pub open spec fn import_entry(item: Json) -> Option<(i64, Seq<char>, i64)> {
    match slug_of(int_or_zero(field(item, "type"@))) {
        Some(slug) => Some(
            (
                int_or_zero(field(item, "subject_id"@)),
                slug,
                int_or_zero(field(item, "ep_status"@)),
            ),
        ),
        None => None,
    }
}

/// What the items of the collection on the network say.
pub open spec fn import_entries(items: Seq<Json>) -> Seq<(i64, Seq<char>, i64)>
    decreases items.len(),
{
    if items.len() == 0 {
        Seq::empty()
    } else {
        let before = import_entries(items.drop_last());
        match import_entry(items.last()) {
            Some(entry) => before.push(entry),
            None => before,
        }
    }
}

/// The cached documents after the items of the collection were taken over: each item of a
/// known kind brings the document of its subject.
pub open spec fn import_documents(
    documents: Map<i64, (Json, Seq<char>)>,
    items: Seq<Json>,
    now: Seq<char>,
) -> Map<i64, (Json, Seq<char>)>
    decreases items.len(),
{
    if items.len() == 0 {
        documents
    } else {
        let before = import_documents(documents, items.drop_last(), now);
        match (import_entry(items.last()), field(items.last(), "subject"@)) {
            (Some(entry), Some(subject)) => before.insert(entry.0, (subject, now)),
            _ => before,
        }
    }
}

/// The subject and the cover that a document names, if the cover can be loaded.
pub open spec fn cover_of(value: Json) -> Option<(i64, Seq<char>)> {
    match (int_of(field(value, "id"@)), cover_address(value)) {
        (Some(id), Some(url)) if "http"@.is_prefix_of(url) => Some((id, url)),
        _ => None,
    }
}

/// The covers to load after the items of the collection were taken over.
pub open spec fn import_covers(items: Seq<Json>) -> Seq<(i64, Seq<char>)>
    decreases items.len(),
{
    if items.len() == 0 {
        Seq::empty()
    } else {
        let before = import_covers(items.drop_last());
        match (import_entry(items.last()), field(items.last(), "subject"@)) {
            (Some(_), Some(subject)) => match cover_of(subject) {
                Some(job) => before.push(job),
                None => before,
            },
            _ => before,
        }
    }
}

/// Cover jobs as plain values.
pub open spec fn jobs_view(jobs: Seq<(i64, String)>) -> Seq<(i64, Seq<char>)> {
    jobs.map_values(|j: (i64, String)| (j.0, j.1@))
}

/// The records after an import.
pub open spec fn after_import(db: DatabaseView, items: Seq<Json>, now: Seq<char>) -> DatabaseView {
    (DatabaseView {
        subjects: import_documents(db.subjects, items, now),
        ..db
    }).imported(import_entries(items), now)
}

/// Takes over the collection on the network at the time `now`. Gives the number of its
/// items, and the covers to load. A subject for which a change waits keeps its collection.
pub fn import_collections(db: &mut Database, items: Vec<Json>, now: &str) -> (r: Result<
    (usize, Vec<(i64, String)>),
    String,
>)
    requires
        old(db).wf(),
    ensures
        r is Ok,
        final(db).wf(),
        r->Ok_0.0 == items@.len(),
        jobs_view(r->Ok_0.1@) == import_covers(items@),
        final(db)@ == after_import(old(db)@, items@, now@),
{
    let count: usize = items.len();
    let ghost all = items@;
    let mut rest: Vec<Json> = items;
    let mut parsed: Vec<(i64, String, i64)> = Vec::new();
    let mut jobs: Vec<(i64, String)> = Vec::new();
    assert(all.take(0) =~= Seq::<Json>::empty());
    assert(entries(parsed@) =~= import_entries(all.take(0)));
    assert(jobs_view(jobs@) =~= import_covers(all.take(0)));
    assert(all.skip(0) =~= all);
    for i in 0..count
        invariant
            count == all.len(),
            rest@ == all.skip(i as int),
            db.wf(),
            entries(parsed@) == import_entries(all.take(i as int)),
            jobs_view(jobs@) == import_covers(all.take(i as int)),
            db@ == (DatabaseView {
                subjects: import_documents(old(db)@.subjects, all.take(i as int), now@),
                ..old(db)@
            }),
    {
        let item: Json = rest.remove(0);
        assert(rest@ =~= all.skip(i + 1));
        assert(item == all[i as int]);
        assert(all.take(i + 1).drop_last() =~= all.take(i as int));
        assert(all.take(i + 1).last() == item);
        let ghost before = *db;
        let id: i64 = match as_i64(item.get("subject_id")) {
            Some(n) => n,
            None => 0,
        };
        let kind: i64 = match as_i64(item.get("type")) {
            Some(n) => n,
            None => 0,
        };
        let watched: i64 = match as_i64(item.get("ep_status")) {
            Some(n) => n,
            None => 0,
        };
        if let Some(slug) = collection_slug(kind) {
            let ghost given = parsed@;
            parsed.push((id, slug.to_owned(), watched));
            assert(entries(parsed@) =~= entries(given).push((id, slug@, watched)));
            if let Some(subject) = take_field(item, "subject") {
                let ghost sofar = jobs@;
                if let Some(job) = cover_candidate(&subject) {
                    jobs.push(job);
                    assert(jobs_view(jobs@) =~= jobs_view(sofar).push((job.0, job.1@)));
                }
                let _ = db.cache_subject_at(id, subject, now);
            }
        }
        assert(db@ =~= (DatabaseView {
            subjects: import_documents(old(db)@.subjects, all.take(i + 1), now@),
            ..old(db)@
        }));
    }
    assert(all.take(count as int) =~= all);
    let _ = db.import_cloud_collections_at(&parsed, now);
    Ok((count, jobs))
}

/// The records after the user put a subject in a collection. Where the subject comes along,
/// its document is cached.
pub open spec fn subject_collected(
    db: DatabaseView,
    subject_id: i64,
    collection: Seq<char>,
    subject: Option<SubjectView>,
    document: Json,
    enqueue: bool,
    now: Seq<char>,
) -> DatabaseView {
    let after = db.collected_and_queued(subject_id, collection, enqueue, now);
    if subject is Some {
        after.subject_cached(subject_id, document, now)
    } else {
        after
    }
}

/// Why a subject is not collected, if there is a reason: the kind is unknown, or the change is to
/// be sent and no number is left for it.
pub open spec fn collection_fault(
    db: DatabaseView,
    subject_id: i64,
    collection: Seq<char>,
    enqueue: bool,
) -> Option<Seq<char>> {
    if kind_of(collection) is None {
        Some("收藏状态无效"@)
    } else if enqueue && db.sync_exhausted(subject_id) {
        Some("database or disk is full"@)
    } else {
        None
    }
}

/// The user puts a subject in a collection. Where the user is known to the network, the
/// change is queued to be sent.
pub fn set_collection(
    db: &mut Database,
    subject_id: i64,
    collection: &str,
    subject: Option<Subject>,
    enqueue: bool,
    now: &str,
) -> (r: Result<(), String>)
    requires
        old(db).wf(),
    ensures
        final(db).wf(),
        match r {
            Ok(_) => {
                &&& collection_fault(old(db)@, subject_id, collection@, enqueue) is None
                &&& exists|document: Json|
                    {
                        &&& subject matches Some(s) ==> stores_subject(document, s@)
                        &&& final(db)@ == #[trigger] subject_collected(
                            old(db)@,
                            subject_id,
                            collection@,
                            opt_view(subject),
                            document,
                            enqueue,
                            now@,
                        )
                    }
            },
            Err(e) => *final(db) == *old(db) && collection_fault(
                old(db)@,
                subject_id,
                collection@,
                enqueue,
            ) == Some(e@),
        },
{
    if collection_kind(collection).is_none() {
        return Err("收藏状态无效".to_owned());
    }
    db.set_collection_and_sync_at(subject_id, collection, enqueue, now)?;
    let ghost mid = db@;
    match subject {
        Some(subject) => {
            let document: Json = subject.to_json();
            let _ = db.cache_subject_at(subject_id, document, now);
            assert(db@ == subject_collected(
                old(db)@,
                subject_id,
                collection@,
                Some(subject@),
                document,
                enqueue,
                now@,
            ));
        },
        None => {
            assert(db@ == subject_collected(
                old(db)@,
                subject_id,
                collection@,
                None,
                Json::Null,
                enqueue,
                now@,
            ));
        },
    }
    Ok(())
}

/// Whether a number of watched episodes is accepted.
pub open spec fn watched_fits(watched: i64) -> bool {
    0 <= watched <= 2000
}

/// Why watched episodes are not noted, if there is a reason: their number does not fit, or the
/// change is to be sent and no number is left for it.
pub open spec fn watch_fault(
    db: DatabaseView,
    subject_id: i64,
    watched: i64,
    enqueue: bool,
) -> Option<Seq<char>> {
    if !watched_fits(watched) {
        Some("观看集数无效"@)
    } else if enqueue && db.sync_exhausted(subject_id) {
        Some("database or disk is full"@)
    } else {
        None
    }
}

/// The user watched episodes of a subject: from none to two thousand.
pub fn set_watch_progress(
    db: &mut Database,
    subject_id: i64,
    watched: i64,
    enqueue: bool,
    now: &str,
) -> (r: Result<WatchProgress, String>)
    requires
        old(db).wf(),
    ensures
        final(db).wf(),
        match r {
            Ok(p) => {
                &&& watch_fault(old(db)@, subject_id, watched, enqueue) is None
                &&& p.watched == watched
                &&& p.collection@ == old(db)@.collection_or_doing(subject_id)
                &&& final(db)@ == old(db)@.watched_and_queued(subject_id, watched, enqueue, now@)
            },
            Err(e) => *final(db) == *old(db) && watch_fault(
                old(db)@,
                subject_id,
                watched,
                enqueue,
            ) == Some(e@),
        },
{
    if watched < 0 || watched > 2000 {
        return Err("观看集数无效".to_owned());
    }
    let collection: String = db.set_progress_and_sync_at(subject_id, watched, enqueue, now)?;
    Ok(WatchProgress { collection, watched })
}

/// The minutes to wait after the given number of failed attempts: two, doubled with every
/// attempt, and at most an hour.
pub open spec fn backoff(attempts: int) -> int {
    if attempts <= 1 {
        2
    } else if attempts == 2 {
        4
    } else if attempts == 3 {
        8
    } else if attempts == 4 {
        16
    } else if attempts == 5 {
        32
    } else {
        60
    }
}

/// The minutes to wait after the given number of failed attempts.
pub fn sync_backoff_minutes(attempts: i64) -> (minutes: i64)
    ensures
        minutes == backoff(attempts as int),
        2 <= minutes <= 60,
{
    let steps: i64 = if attempts < 1 {
        1
    } else if attempts > 6 {
        6
    } else {
        attempts
    };
    let mut minutes: i64 = 1;
    for i in 0..steps
        invariant
            1 <= steps <= 6,
            minutes == if i == 0 {
                1int
            } else if i == 1 {
                2
            } else if i == 2 {
                4
            } else if i == 3 {
                8
            } else if i == 4 {
                16
            } else if i == 5 {
                32
            } else {
                64
            },
    {
        minutes = minutes * 2;
    }
    if minutes < 60 {
        minutes
    } else {
        60
    }
}

/// The waiting time grows with every attempt and never exceeds an hour.
pub proof fn law_backoff_grows(a: int, b: int)
    requires
        a <= b,
    ensures
        2 <= backoff(a) <= backoff(b) <= 60,
{
}

/// When a change is tried again after an attempt that failed at a time.
pub open spec fn next_attempt(now: Moment, attempts: int) -> Seq<char> {
    rfc3339_text((now.secs + 60 * backoff(attempts)) as i64, now.nanos)
}

/// Whether a failed attempt can be noted: the attempts can be counted, and the time of the
/// next one can be written.
pub open spec fn can_be_noted(entry: SyncEntryView, now: Moment) -> bool {
    &&& entry.attempts < i64::MAX
    &&& 0 <= now.secs <= LAST_SECOND - 3600
    &&& now.nanos < 1_000_000_000
}

/// What is noted after a change was sent, or could not be. A change that was sent leaves
/// the queue; one that could not be is tried again later: it is not due before the waiting
/// time is over, and is due from then on. Where a later change took its place meanwhile,
/// nothing is noted.
pub fn note_sync_result(
    db: &mut Database,
    entry: &SyncEntry,
    sent: Result<(), String>,
    now: Moment,
) -> (r: Result<bool, String>)
    requires
        old(db).wf(),
        sent is Err ==> can_be_noted(entry@, now),
    ensures
        r is Ok,
        r->Ok_0 == crate::rows::some_row(
            old(db)@.sync,
            sync_is_current(entry.id, entry.version),
        ),
        final(db).wf(),
        final(db)@ == match sent {
            Ok(_) => old(db)@.sync_removed(sync_is_current(entry.id, entry.version)),
            Err(error) => old(db)@.sync_changed(
                sync_is_current(entry.id, entry.version),
                attempt_failed(
                    (entry.attempts + 1) as i64,
                    next_attempt(now, entry.attempts + 1),
                    error@,
                    rfc3339_text(now.secs, now.nanos),
                ),
            ),
        },
        sent is Err && now.secs <= LAST_FOUR_DIGIT_SECOND - 3600 ==> stands_at(
            next_attempt(now, entry.attempts + 1),
            now.secs + 60 * backoff(entry.attempts + 1),
            now.nanos as int,
        ),
{
    match sent {
        Ok(_) => db.remove_current_sync_entry(entry.id, entry.version),
        Err(error) => {
            let attempts: i64 = entry.attempts + 1;
            let minutes: i64 = sync_backoff_minutes(attempts);
            let next: String = format_rfc3339(
                Moment { secs: now.secs + 60 * minutes, nanos: now.nanos },
            );
            let at: String = format_rfc3339(now);
            db.mark_current_sync_attempt_at(
                entry.id,
                entry.version,
                attempts,
                next.as_str(),
                error.as_str(),
                at.as_str(),
            )
        },
    }
}

/// A change that could not be sent is not lost: as many changes wait as before, each for the
/// same subject and with the same collection and episodes.
pub proof fn law_failed_changes_are_kept(
    db: DatabaseView,
    id: i64,
    version: i64,
    attempts: i64,
    next: Seq<char>,
    error: Seq<char>,
    now: Seq<char>,
)
    ensures
        ({
            let after = db.sync_changed(
                sync_is_current(id, version),
                attempt_failed(attempts, next, error, now),
            );
            &&& after.sync.len() == db.sync.len()
            &&& after.collections == db.collections
            &&& forall|i: int|
                0 <= i < db.sync.len() ==> {
                    let row = #[trigger] after.sync[i];
                    &&& row.entry.id == db.sync[i].entry.id
                    &&& row.entry.subject_id == db.sync[i].entry.subject_id
                    &&& row.entry.collection == db.sync[i].entry.collection
                    &&& row.entry.ep == db.sync[i].entry.ep
                    &&& row.entry.version == db.sync[i].entry.version
                }
        }),
{
}

/// How the queue of changes stands.
pub fn sync_status(db: &Database) -> (r: Result<SyncStatus, String>)
    requires
        db.wf(),
    ensures
        r is Ok,
        r->Ok_0.pending == db@.sync.len(),
        match last_failure(db@.sync) {
            Some(row) => opt_text(r->Ok_0.last_error) == row.last_error && opt_text(
                r->Ok_0.last_attempt_at,
            ) == Some(row.updated_at),
            None => r->Ok_0.last_error is None && r->Ok_0.last_attempt_at is None,
        },
{
    let (pending, last_error, last_attempt_at): (i64, Option<String>, Option<String>) =
        db.sync_queue_summary()?;
    Ok(SyncStatus { pending, last_error, last_attempt_at })
}

} // verus!
