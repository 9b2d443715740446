//! What holds of the collection: what an import takes over, what a change notes and queues, and
//! what comes of the changes that wait.

use crate::bangumi::{kind_of, slug_of};
use crate::collection::{
    after_import, backoff, cover_of, import_covers, import_documents, import_entries, import_entry,
    int_or_zero, subject_collected,
};
use crate::db::sync_table::{
    attempt_failed, due_at, is_due, last_failure, superseded, sync_has_subject, sync_is_current,
    touch_times,
};
use crate::db::{DatabaseView, SyncRowView};
use crate::json::{Json, field};
use crate::models::SubjectView;
use crate::order::{ordered, sorted_rows, text_lt};
use crate::rows::first;
use vstd::prelude::*;

verus! {

/// Whether a member of a document is a whole number.
pub open spec fn says(item: Json, name: Seq<char>, n: i64) -> bool {
    field(item, name) matches Some(Json::Number(number)) && number.integer == Some(n as i128)
}

proof fn lemma_entry_stays(items: Seq<Json>, k: int) -> (m: int)
    requires
        0 <= k < items.len(),
        import_entry(items[k]) is Some,
        forall|j: int|
            0 <= j < items.len() && j != k ==> int_or_zero(
                field(#[trigger] items[j], "subject_id"@),
            ) != (import_entry(items[k])->0).0,
    ensures
        0 <= m < import_entries(items).len(),
        import_entries(items)[m] == import_entry(items[k])->0,
        forall|j: int|
            0 <= j < import_entries(items).len() && j != m ==> (#[trigger] import_entries(
                items,
            )[j]).0 != (import_entry(items[k])->0).0,
    decreases items.len(),
{
    let rest = items.drop_last();
    let all = import_entries(items);
    let before = import_entries(rest);
    let id = (import_entry(items[k])->0).0;
    if k == items.len() - 1 {
        lemma_others(rest, id);
        before.len() as int
    } else {
        assert(rest[k] == items[k]);
        assert forall|j: int| 0 <= j < rest.len() && j != k implies int_or_zero(
            field(#[trigger] rest[j], "subject_id"@),
        ) != id by {
            assert(rest[j] == items[j]);
        }
        let m = lemma_entry_stays(rest, k);
        assert(items[items.len() - 1] == items.last());
        assert forall|j: int| 0 <= j < all.len() && j != m implies (#[trigger] all[j]).0 != id by {
            if j < before.len() {
                assert(all[j] == before[j]);
            }
        }
        m
    }
}

proof fn lemma_others(items: Seq<Json>, id: i64)
    requires
        forall|j: int|
            0 <= j < items.len() ==> int_or_zero(field(#[trigger] items[j], "subject_id"@)) != id,
    ensures
        forall|j: int|
            0 <= j < import_entries(items).len() ==> (#[trigger] import_entries(items)[j]).0 != id,
    decreases items.len(),
{
    if items.len() > 0 {
        let rest = items.drop_last();
        assert forall|j: int| 0 <= j < rest.len() implies int_or_zero(
            field(#[trigger] rest[j], "subject_id"@),
        ) != id by {
            assert(rest[j] == items[j]);
        }
        lemma_others(rest, id);
        assert(items[items.len() - 1] == items.last());
        let all = import_entries(items);
        let before = import_entries(rest);
        assert forall|j: int| 0 <= j < all.len() implies (#[trigger] all[j]).0 != id by {
            if j < before.len() {
                assert(all[j] == before[j]);
            }
        }
    }
}

/// Whatever its kind, an item of the network's collection brings its watched episodes: a subject
/// that an import names once, and for which no change waits, has afterwards the collection that
/// its kind stands for and the episodes that the item tells, as of the time of the import.
pub proof fn law_imports_bring_episodes_of_every_kind(
    db: DatabaseView,
    items: Seq<Json>,
    now: Seq<char>,
    k: int,
    id: i64,
    kind: i64,
    watched: i64,
)
    requires
        0 <= k < items.len(),
        says(items[k], "subject_id"@, id),
        says(items[k], "type"@, kind),
        says(items[k], "ep_status"@, watched) || (watched == 0 && field(
            items[k],
            "ep_status"@,
        ) is None),
        1 <= kind <= 5,
        forall|j: int|
            0 <= j < items.len() && j != k ==> int_or_zero(
                field(#[trigger] items[j], "subject_id"@),
            ) != id,
        !db.sync_waits(id),
    ensures
        ({
            let after = after_import(db, items, now);
            let row = after.collections[id];
            &&& after.collections.dom().contains(id)
            &&& row.watched == watched
            &&& row.updated_at == now
            &&& kind == 1 ==> row.collection == "wish"@
            &&& kind == 2 ==> row.collection == "collect"@
            &&& kind == 3 ==> row.collection == "doing"@
            &&& kind == 4 ==> row.collection == "on_hold"@
            &&& kind == 5 ==> row.collection == "dropped"@
        }),
{
    let m = lemma_entry_stays(items, k);
    let base = DatabaseView { subjects: import_documents(db.subjects, items, now), ..db };
    let list = import_entries(items);
    assert(base.sync_waits(id) == db.sync_waits(id));
    crate::db::collection_sync::law_import_takes_over(base, list, now, m);
    lemma_import_time(base, list, now, m);
}

proof fn lemma_import_time(
    db: DatabaseView,
    list: Seq<(i64, Seq<char>, i64)>,
    now: Seq<char>,
    k: int,
)
    requires
        0 <= k < list.len(),
        !db.sync_waits(list[k].0),
    ensures
        db.imported(list, now).collections.dom().contains(list[k].0),
        db.imported(list, now).collections[list[k].0].updated_at == now,
    decreases list.len(),
{
    if k < list.len() - 1 {
        lemma_import_time(db, list.drop_last(), now, k);
    }
}

proof fn lemma_import_spares(
    db: DatabaseView,
    list: Seq<(i64, Seq<char>, i64)>,
    now: Seq<char>,
    id: i64,
)
    requires
        forall|j: int| 0 <= j < list.len() ==> (#[trigger] list[j]).0 != id,
    ensures
        db.imported(list, now).collections.dom().contains(id) == db.collections.dom().contains(id),
        db.imported(list, now).collections[id] == db.collections[id],
    decreases list.len(),
{
    if list.len() > 0 {
        let rest = list.drop_last();
        assert(list[list.len() - 1] == list.last());
        assert forall|j: int| 0 <= j < rest.len() implies (#[trigger] rest[j]).0 != id by {
            assert(rest[j] == list[j]);
        }
        lemma_import_spares(db, rest, now, id);
    }
}

/// An import leaves alone what it does not name, and items of no known kind; and it never
/// touches feeds, downloads or changes that wait.
pub proof fn law_imports_leave_the_rest(
    db: DatabaseView,
    items: Seq<Json>,
    now: Seq<char>,
    id: i64,
    unknown: Json,
    kind: i64,
)
    requires
        forall|j: int|
            0 <= j < items.len() ==> int_or_zero(field(#[trigger] items[j], "subject_id"@)) != id,
        says(unknown, "type"@, kind),
        kind < 1 || kind > 5,
    ensures
        ({
            let after = after_import(db, items, now);
            &&& after.collections.dom().contains(id) == db.collections.dom().contains(id)
            &&& after.collections[id] == db.collections[id]
            &&& after.sync == db.sync
            &&& after.feeds == db.feeds
            &&& after.items == db.items
            &&& after.downloads == db.downloads
            &&& after_import(db, items.push(unknown), now) == after
            &&& import_covers(items.push(unknown)) == import_covers(items)
        }),
{
    let base = DatabaseView { subjects: import_documents(db.subjects, items, now), ..db };
    lemma_others(items, id);
    lemma_import_spares(base, import_entries(items), now, id);
    lemma_import_frame(base, import_entries(items), now);
    assert(items.push(unknown).drop_last() =~= items);
    assert(items.push(unknown).last() == unknown);
    assert(import_entry(unknown) is None);
}

proof fn lemma_import_frame(db: DatabaseView, list: Seq<(i64, Seq<char>, i64)>, now: Seq<char>)
    ensures
        db.imported(list, now) == (DatabaseView {
            collections: db.imported(list, now).collections,
            ..db
        }),
    decreases list.len(),
{
    if list.len() > 0 {
        lemma_import_frame(db, list.drop_last(), now);
    }
}

/// An item of a known kind that comes with its subject brings the document of the subject, as of
/// the time of the import, whatever documents there were; without its subject it brings none.
pub proof fn law_imports_bring_documents(
    db: DatabaseView,
    items: Seq<Json>,
    item: Json,
    now: Seq<char>,
    id: i64,
    kind: i64,
)
    requires
        says(item, "subject_id"@, id),
        says(item, "type"@, kind),
        1 <= kind <= 5,
    ensures
        ({
            let before = after_import(db, items, now).subjects;
            let after = after_import(db, items.push(item), now).subjects;
            &&& field(item, "subject"@) is None ==> after == before
            &&& field(item, "subject"@) matches Some(subject) ==> after == before.insert(
                id,
                (subject, now),
            )
        }),
{
    assert(items.push(item).drop_last() =~= items);
    assert(items.push(item).last() == item);
    let a = DatabaseView { subjects: import_documents(db.subjects, items, now), ..db };
    let b = DatabaseView { subjects: import_documents(db.subjects, items.push(item), now), ..db };
    lemma_import_frame(a, import_entries(items), now);
    lemma_import_frame(b, import_entries(items.push(item)), now);
}

/// The kinds of a collection have the names that the network gives them, and no others.
pub proof fn law_kinds_have_their_names(kind: i64, slug: Seq<char>)
    ensures
        slug_of(1) == Some("wish"@),
        slug_of(2) == Some("collect"@),
        slug_of(3) == Some("doing"@),
        slug_of(4) == Some("on_hold"@),
        slug_of(5) == Some("dropped"@),
        slug_of(kind) is Some <==> 1 <= kind <= 5,
        kind_of("wish"@) == Some(1i64),
        kind_of("collect"@) == Some(2i64),
        kind_of("doing"@) == Some(3i64),
        kind_of("on_hold"@) == Some(4i64),
        kind_of("dropped"@) == Some(5i64),
        kind_of(slug) is Some ==> slug == "wish"@ || slug == "collect"@ || slug == "doing"@ || slug
            == "on_hold"@ || slug == "dropped"@,
{
    crate::bangumi::law_kind_and_slug_are_inverses(1, slug);
    crate::bangumi::law_kind_and_slug_are_inverses(2, slug);
    crate::bangumi::law_kind_and_slug_are_inverses(3, slug);
    crate::bangumi::law_kind_and_slug_are_inverses(4, slug);
    crate::bangumi::law_kind_and_slug_are_inverses(5, slug);
}

/// Putting a subject in a collection keeps its watched episodes and changes no other subject.
/// Where the change is not sent, nothing is queued; where it is, what waits for the subject says
/// the collection, with the episodes that a change before it would have sent.
pub proof fn law_collecting_keeps_the_episodes(
    db: DatabaseView,
    id: i64,
    collection: Seq<char>,
    now: Seq<char>,
    other: i64,
)
    requires
        db.wf(),
        !db.sync_exhausted(id),
        other != id,
    ensures
        ({
            let quiet = db.collected_and_queued(id, collection, false, now);
            let sent = db.collected_and_queued(id, collection, true, now);
            let watched = if db.collections.dom().contains(id) {
                db.collections[id].watched
            } else {
                0
            };
            &&& quiet.collections == sent.collections
            &&& quiet.collections.dom().contains(id)
            &&& quiet.collections[id].collection == collection
            &&& quiet.collections[id].watched == watched
            &&& quiet.collections[id].updated_at == now
            &&& quiet.collections.dom().contains(other) == db.collections.dom().contains(other)
            &&& quiet.collections[other] == db.collections[other]
            &&& quiet.sync == db.sync
            &&& quiet.subjects == db.subjects && quiet.downloads == db.downloads && quiet.feeds
                == db.feeds
            &&& first(sent.sync, sync_has_subject(id)) matches Some(row) && row.entry.collection
                == collection && row.entry.ep == (match first(db.sync, sync_has_subject(id)) {
                Some(before) => before.entry.ep,
                None => None,
            })
            &&& first(sent.sync, sync_has_subject(other)) == first(
                db.sync,
                sync_has_subject(other),
            )
        }),
{
    let mid = db.collected(id, collection, now);
    crate::db::sync_table::law_queueing_replaces_own_change(
        mid,
        id,
        collection,
        db.waiting_ep(id),
        now,
    );
}

/// A subject that comes along when it is put in a collection has its document stored; where none
/// comes, the documents stay.
pub proof fn law_collected_subjects_are_stored(
    db: DatabaseView,
    id: i64,
    collection: Seq<char>,
    subject: SubjectView,
    document: Json,
    enqueue: bool,
    now: Seq<char>,
)
    ensures
        ({
            let with = subject_collected(db, id, collection, Some(subject), document, enqueue, now);
            let without = subject_collected(db, id, collection, None, document, enqueue, now);
            &&& with.subjects == db.subjects.insert(id, (document, now))
            &&& without.subjects == db.subjects
            &&& with.collections == without.collections
            &&& with.collections == db.collected_and_queued(
                id,
                collection,
                enqueue,
                now,
            ).collections
            &&& with.sync == without.sync
        }),
{
}

/// Noting watched episodes keeps the collection of a subject; one that is in none is being
/// watched from then on. Other subjects stay as they are, and where nothing is sent, nothing is
/// queued.
pub proof fn law_watching_keeps_the_collection(
    db: DatabaseView,
    id: i64,
    watched: i64,
    now: Seq<char>,
    other: i64,
)
    requires
        other != id,
    ensures
        ({
            let quiet = db.watched_and_queued(id, watched, false, now);
            let sent = db.watched_and_queued(id, watched, true, now);
            &&& quiet.collections == sent.collections
            &&& quiet.collections.dom().contains(id)
            &&& quiet.collections[id].watched == watched
            &&& quiet.collections[id].updated_at == now
            &&& db.collections.dom().contains(id) ==> quiet.collections[id].collection
                == db.collections[id].collection
            &&& !db.collections.dom().contains(id) ==> quiet.collections[id].collection == "doing"@
            &&& quiet.collections.dom().contains(other) == db.collections.dom().contains(other)
            &&& quiet.collections[other] == db.collections[other]
            &&& quiet.sync == db.sync
        }),
{
}

/// After the first failure a change waits two minutes, and with each further failure twice as
/// long, but never more than an hour.
pub proof fn law_waiting_times_double(attempts: int)
    ensures
        backoff(1) == 2,
        1 <= attempts ==> backoff(attempts + 1) == if 2 * backoff(attempts) < 60 {
            2 * backoff(attempts)
        } else {
            60
        },
        attempts <= 1 ==> backoff(attempts) == 2,
{
}

/// A change that takes the place of one that waits keeps its number, is the next version, has
/// seen no attempt, and is due at once.
pub proof fn law_replaced_changes_start_anew(
    row: SyncRowView,
    collection: Seq<char>,
    ep: Option<i64>,
    now: Seq<char>,
)
    requires
        row.entry.version < i64::MAX,
    ensures
        ({
            let after = superseded(collection, ep, now)(row);
            &&& after.entry.id == row.entry.id
            &&& after.entry.subject_id == row.entry.subject_id
            &&& after.entry.collection == collection
            &&& after.entry.ep == ep
            &&& after.entry.attempts == 0
            &&& after.entry.version == row.entry.version + 1
            &&& after.next_attempt_at == now
            &&& after.updated_at == now
            &&& after.last_error == row.last_error
        }),
{
}

/// A failed attempt notes how many there were, when the next one is, how it failed and when; what
/// is to be sent stays. Making a change due notes only when.
pub proof fn law_failures_are_noted(
    row: SyncRowView,
    attempts: i64,
    next: Seq<char>,
    error: Seq<char>,
    now: Seq<char>,
)
    ensures
        ({
            let after = attempt_failed(attempts, next, error, now)(row);
            let due = due_at(now)(row);
            &&& after.entry.attempts == attempts
            &&& after.next_attempt_at == next
            &&& after.last_error == Some(error)
            &&& after.updated_at == now
            &&& after.entry.id == row.entry.id
            &&& after.entry.subject_id == row.entry.subject_id
            &&& after.entry.collection == row.entry.collection
            &&& after.entry.ep == row.entry.ep
            &&& after.entry.version == row.entry.version
            &&& due.next_attempt_at == now
            &&& due.entry == row.entry
            &&& due.last_error == row.last_error
            &&& due.updated_at == row.updated_at
        }),
{
}

/// Only a report on the change that still waits counts: with its number and its version.
pub proof fn law_reports_name_number_and_version(row: SyncRowView, id: i64, version: i64)
    ensures
        sync_is_current(id, version)(row) <==> row.entry.id == id && row.entry.version == version,
        sync_has_subject(id)(row) <==> row.entry.subject_id == id,
{
}

/// What is due at a time: the changes whose next attempt is not later, all of them where no limit
/// is given, the one that waits longest first.
pub proof fn law_due_changes_come_in_order(db: DatabaseView, now: Seq<char>, k: int)
    ensures
        ({
            let due = db.sync_due((-1) as i64, now);
            let rows = db.sync.filter(is_due(now));
            let sorted = sorted_rows(rows, touch_times(rows), false);
            &&& due.len() == sorted.len()
            &&& forall|i: int| 0 <= i < due.len() ==> #[trigger] due[i] == sorted[i].entry
            &&& forall|i: int|
                0 <= i < sorted.len() ==> db.sync.contains(#[trigger] sorted[i]) && !text_lt(
                    now,
                    sorted[i].next_attempt_at,
                )
            &&& forall|i: int, j: int|
                0 <= i < j < sorted.len() ==> !text_lt(
                    (#[trigger] sorted[j]).updated_at,
                    (#[trigger] sorted[i]).updated_at,
                )
            &&& 0 <= k < db.sync.len() && !text_lt(now, db.sync[k].next_attempt_at)
                ==> sorted.contains(db.sync[k])
        }),
{
    let rows = db.sync.filter(is_due(now));
    let times = touch_times(rows);
    let sorted = sorted_rows(rows, times, false);
    let order = ordered(times, false);
    crate::order::law_ordering_is_stable(times, false, times.len());
    crate::order::lemma_sorted_rows(rows, times, false);
    crate::rows::lemma_filter_pairs(db.sync, is_due(now), |a: SyncRowView, b: SyncRowView| true);
    assert forall|i: int| 0 <= i < sorted.len() implies db.sync.contains(#[trigger] sorted[i])
        && !text_lt(now, sorted[i].next_attempt_at) by {
        assert(sorted.contains(sorted[i]));
        let q = choose|q: int| 0 <= q < rows.len() && rows[q] == sorted[i];
        assert(is_due(now)(rows[q]));
    }
    assert forall|i: int, j: int| 0 <= i < j < sorted.len() implies !text_lt(
        (#[trigger] sorted[j]).updated_at,
        (#[trigger] sorted[i]).updated_at,
    ) by {
        let a = order[i];
        let b = order[j];
        assert(sorted[i] == rows[a] && sorted[j] == rows[b]);
        assert(times[a] == rows[a].updated_at && times[b] == rows[b].updated_at);
        if text_lt(times[b], times[a]) {
            if text_lt(times[a], times[b]) {
                crate::order::lemma_lt_transitive(times[a], times[b], times[a]);
            }
            crate::order::lemma_lt_irreflexive(times[a]);
        }
    }
    if 0 <= k < db.sync.len() && !text_lt(now, db.sync[k].next_attempt_at) {
        broadcast use vstd::seq_lib::group_filter_ensures;

        assert(is_due(now)(db.sync[k]));
        assert(rows.contains(db.sync[k]));
    }
}

/// A limit takes the first of what is due.
pub proof fn law_limits_take_the_first(db: DatabaseView, limit: i64, now: Seq<char>)
    ensures
        limit < 0 || limit >= db.sync_due((-1) as i64, now).len() ==> db.sync_due(limit, now)
            == db.sync_due((-1) as i64, now),
        0 <= limit < db.sync_due((-1) as i64, now).len() ==> db.sync_due(limit, now) == db.sync_due(
            (-1) as i64,
            now,
        ).take(limit as int),
{
    let all = db.sync_due((-1) as i64, now);
    if 0 <= limit < all.len() {
        assert(db.sync_due(limit, now) =~= all.take(limit as int));
    }
}

/// The failure that is told is the last one: of a change that failed, and none failed later.
pub proof fn law_the_last_failure_is_told(rows: Seq<SyncRowView>, k: int)
    ensures
        match last_failure(rows) {
            Some(row) => {
                &&& rows.contains(row)
                &&& row.last_error is Some
                &&& 0 <= k < rows.len() && rows[k].last_error is Some ==> !text_lt(
                    row.updated_at,
                    rows[k].updated_at,
                )
            },
            None => 0 <= k < rows.len() ==> rows[k].last_error is None,
        },
    decreases rows.len(),
{
    if rows.len() > 0 {
        let rest = rows.drop_last();
        let last = rows.last();
        law_the_last_failure_is_told(rest, k);
        crate::order::lemma_lt_irreflexive(last.updated_at);
        if 0 <= k < rest.len() {
            assert(rest[k] == rows[k]);
        }
        if let Some(row) = last_failure(rows) {
            if row == last {
                assert(rows[rows.len() - 1] == last);
            } else {
                let i = choose|i: int| 0 <= i < rest.len() && rest[i] == row;
                assert(rows[i] == row);
            }
            if let Some(best) = last_failure(rest) {
                if row == last && best != last && 0 <= k < rest.len() && rows[k].last_error is Some
                    && text_lt(last.updated_at, rows[k].updated_at) {
                    crate::order::lemma_lt_transitive(
                        best.updated_at,
                        last.updated_at,
                        rows[k].updated_at,
                    );
                }
            }
        }
    }
}

/// An item of a known kind brings the cover of its subject, where it has one, behind those before
/// it.
pub proof fn law_imports_bring_covers(items: Seq<Json>, item: Json, kind: i64, subject: Json)
    requires
        says(item, "type"@, kind),
        1 <= kind <= 5,
    ensures
        import_covers(Seq::empty()).len() == 0,
        field(item, "subject"@) == Some(subject) && cover_of(subject) is Some ==> import_covers(
            items.push(item),
        ) == import_covers(items).push(cover_of(subject)->0),
        field(item, "subject"@) == Some(subject) && cover_of(subject) is None ==> import_covers(
            items.push(item),
        ) == import_covers(items),
        field(item, "subject"@) is None ==> import_covers(items.push(item)) == import_covers(items),
{
    assert(items.push(item).drop_last() =~= items);
    assert(items.push(item).last() == item);
    assert(import_entry(item) is Some);
}

/// A change of a subject for which none waits is queued behind all others, under a number greater
/// than theirs, to be tried at once; it was not tried before and nothing went wrong with it. One
/// for a subject that waits takes its place under the same number, with the next version. No other
/// change is touched.
pub proof fn law_changes_are_queued(
    db: DatabaseView,
    subject_id: i64,
    collection: Seq<char>,
    ep: Option<i64>,
    now: Seq<char>,
    k: int,
)
    ensures
        ({
            let after = db.sync_queued(subject_id, collection, ep, now);
            let waits = exists|i: int|
                0 <= i < db.sync.len() && (#[trigger] db.sync[i]).entry.subject_id == subject_id;
            &&& !waits ==> {
                let row = after.sync.last();
                &&& after.sync == db.sync.push(row)
                &&& row.entry.subject_id == subject_id
                &&& row.entry.collection == collection
                &&& row.entry.ep == ep
                &&& row.entry.attempts == 0
                &&& row.entry.version == 1
                &&& row.next_attempt_at == now
                &&& row.updated_at == now
                &&& row.last_error is None
                &&& row.entry.id == after.last_sync_id
                &&& !db.sync_exhausted(subject_id) ==> row.entry.id > db.last_sync_id && (
                db.sync.len() > 0 ==> row.entry.id > db.sync.last().entry.id)
            }
            &&& waits ==> {
                &&& after.sync.len() == db.sync.len()
                &&& 0 <= k < db.sync.len() && db.sync[k].entry.subject_id != subject_id
                    ==> after.sync[k] == db.sync[k]
                &&& 0 <= k < db.sync.len() && db.sync[k].entry.subject_id == subject_id ==> {
                    let row = after.sync[k];
                    &&& row.entry.id == db.sync[k].entry.id
                    &&& row.entry.subject_id == subject_id
                    &&& row.entry.collection == collection
                    &&& row.entry.ep == ep
                    &&& row.entry.attempts == 0
                    &&& row.entry.version == (db.sync[k].entry.version + 1) as i64
                    &&& row.next_attempt_at == now
                    &&& row.updated_at == now
                }
            }
            &&& after.collections == db.collections
            &&& after.downloads == db.downloads
        }),
{
    let p = sync_has_subject(subject_id);
    if exists|i: int| 0 <= i < db.sync.len() && (#[trigger] db.sync[i]).entry.subject_id
        == subject_id {
        let i = choose|i: int|
            0 <= i < db.sync.len() && (#[trigger] db.sync[i]).entry.subject_id == subject_id;
        assert(p(db.sync[i]));
    }
    crate::rows::lemma_first_none(db.sync, p);
}

/// No change can be queued only where the numbers are used up: the version of the change that
/// waits, or where none waits the number of the last change or of all.
pub proof fn law_numbers_run_out(db: DatabaseView, subject_id: i64, k: int)
    ensures
        0 <= k < db.sync.len() && db.sync[k].entry.subject_id == subject_id && (forall|j: int|
            0 <= j < k ==> (#[trigger] db.sync[j]).entry.subject_id != subject_id) ==> (
        db.sync_exhausted(subject_id) <==> db.sync[k].entry.version == i64::MAX),
        (forall|j: int|
            0 <= j < db.sync.len() ==> (#[trigger] db.sync[j]).entry.subject_id != subject_id) ==> (
        db.sync_exhausted(subject_id) <==> db.last_sync_id == i64::MAX || db.sync.len() == i64::MAX
            || (db.sync.len() > 0 && db.sync.last().entry.id == i64::MAX)),
{
    let p = sync_has_subject(subject_id);
    if 0 <= k < db.sync.len() && db.sync[k].entry.subject_id == subject_id && (forall|j: int|
        0 <= j < k ==> (#[trigger] db.sync[j]).entry.subject_id != subject_id) {
        crate::rows::lemma_first_at(db.sync, p, k);
    }
    crate::rows::lemma_first_none(db.sync, p);
}

} // verus!
