//! A pass over the queue of collection changes: what is sent, what is noted of the replies,
//! and how many changes are left.

use crate::clock::{Moment, rfc3339_text};
use crate::collection::{can_be_noted, next_attempt, note_sync_result};
use crate::db::sync_table::{
    attempt_failed, is_due, lemma_keep_all, lemma_sync_filtered, lemma_sync_kept, sync_is_current,
    touch_times,
};
use crate::db::{Database, DatabaseView, SyncEntry, SyncEntryView, SyncRowView, sync_wf};
use crate::order::{
    law_ordering_is_stable, lemma_lt_irreflexive, lemma_sorted_rows, ordered, sorted_rows,
};
use crate::rows::{lemma_filter_pairs, views};
use vstd::prelude::*;

verus! {

/// A pass over the queue: the changes that were due when it began, and how many of them were
/// tried.
#[derive(Debug)]
pub struct SyncPass {
    pub due: Vec<SyncEntry>,
    pub tried: usize,
}

impl SyncPass {
    /// No more changes were tried than are due.
    pub open spec fn wf(self) -> bool {
        self.tried <= self.due@.len()
    }
}

/// What came of sending a change, and when.
#[derive(Debug)]
pub struct SyncReply {
    pub sent: Result<(), String>,
    pub at: Moment,
}

/// What came of sending a change as plain values: the error, where there is one, and the time.
pub struct SyncReplyView {
    pub error: Option<Seq<char>>,
    pub at: Moment,
}

impl View for SyncReply {
    type V = SyncReplyView;

    open spec fn view(&self) -> SyncReplyView {
        SyncReplyView {
            error: match self.sent {
                Ok(_) => None,
                Err(e) => Some(e@),
            },
            at: self.at,
        }
    }
}

/// What a pass does next: it sends a change, or it is over and tells how many changes are
/// left.
#[derive(Debug)]
pub enum SyncStep {
    Send { subject_id: i64, collection: String, ep: Option<i64> },
    Done { pending: i64 },
}

/// The records after a reply to a change was noted: a change that was sent leaves the queue,
/// another is tried again later. Where a later change took its place, nothing is noted.
pub open spec fn reply_noted(
    db: DatabaseView,
    entry: SyncEntryView,
    reply: SyncReplyView,
) -> DatabaseView {
    let current = sync_is_current(entry.id, entry.version);
    match reply.error {
        None => db.sync_removed(current),
        Some(error) => db.sync_changed(
            current,
            attempt_failed(
                (entry.attempts + 1) as i64,
                next_attempt(reply.at, entry.attempts + 1),
                error,
                rfc3339_text(reply.at.secs, reply.at.nanos),
            ),
        ),
    }
}

/// All changes that are due at a time, the one that waits longest first.
pub open spec fn all_due(db: DatabaseView, now: Seq<char>) -> Seq<SyncEntryView> {
    db.sync_due((-1) as i64, now)
}

/// What a pass tries: all that is due, with access, and nothing without.
pub open spec fn due_with(db: DatabaseView, access: bool, now: Seq<char>) -> Seq<SyncEntryView> {
    if access {
        all_due(db, now)
    } else {
        Seq::empty()
    }
}

/// Begins a pass at a time over all changes that are due. Without access to the network
/// nothing is sent.
pub fn begin_sync_pass(db: &Database, access: bool, now: &str) -> (r: Result<SyncPass, String>)
    ensures
        r is Ok,
        r->Ok_0.wf(),
        r->Ok_0.tried == 0,
        views(r->Ok_0.due@) == due_with(db@, access, now@),
{
    let due: Vec<SyncEntry> = if access {
        db.due_sync_entries_at(-1, now)?
    } else {
        Vec::new()
    };
    assert(!access ==> views(due@) =~= Seq::empty());
    Ok(SyncPass { due, tried: 0 })
}

/// How a pass goes on: with the next change that was due, or with how many wait.
pub open spec fn goes_on(db: DatabaseView, pass: SyncPass, step: SyncStep) -> bool {
    match step {
        SyncStep::Send { subject_id, collection, ep } => {
            &&& pass.tried < pass.due@.len()
            &&& subject_id == pass.due@[pass.tried as int].subject_id
            &&& collection@ == pass.due@[pass.tried as int].collection@
            &&& ep == pass.due@[pass.tried as int].ep
        },
        SyncStep::Done { pending } => {
            &&& pass.tried == pass.due@.len()
            &&& pending == db.sync.len()
        },
    }
}

/// Goes on with a pass: notes the reply to the change that was sent last, if one was, and says
/// what to do next.
pub fn process_sync_queue(db: &mut Database, pass: &mut SyncPass, reply: Option<SyncReply>) -> (r:
    Result<SyncStep, String>)
    requires
        old(db).wf(),
        old(pass).wf(),
        reply matches Some(answer) ==> old(pass).tried < old(pass).due@.len() && (answer.sent is Err
            ==> can_be_noted(old(pass).due@[old(pass).tried as int]@, answer.at)),
    ensures
        r is Ok,
        final(db).wf(),
        final(pass).wf(),
        final(pass).due == old(pass).due,
        final(pass).tried == old(pass).tried + if reply is Some {
            1int
        } else {
            0
        },
        final(db)@ == match reply {
            Some(answer) => reply_noted(
                old(db)@,
                old(pass).due@[old(pass).tried as int]@,
                answer@,
            ),
            None => old(db)@,
        },
        goes_on(final(db)@, *final(pass), r->Ok_0),
{
    let count: usize = pass.due.len();
    if let Some(answer) = reply {
        let _ = note_sync_result(db, &pass.due[pass.tried], answer.sent, answer.at);
        pass.tried = pass.tried + 1;
    }
    if pass.tried < count {
        let entry: &SyncEntry = &pass.due[pass.tried];
        return Ok(
            SyncStep::Send {
                subject_id: entry.subject_id,
                collection: entry.collection.clone(),
                ep: entry.ep,
            },
        );
    }
    let pending: i64 = db.pending_sync_count()?;
    Ok(SyncStep::Done { pending })
}

/// The records after the replies to the first changes of a pass were noted.
pub open spec fn after_replies(
    db: DatabaseView,
    due: Seq<SyncEntryView>,
    replies: Seq<SyncReplyView>,
) -> DatabaseView
    decreases replies.len(),
{
    if replies.len() == 0 {
        db
    } else {
        reply_noted(
            after_replies(db, due, replies.drop_last()),
            due[replies.len() - 1],
            replies.last(),
        )
    }
}

/// How many of the changes were sent.
pub open spec fn sent_count(replies: Seq<SyncReplyView>) -> nat
    decreases replies.len(),
{
    if replies.len() == 0 {
        0
    } else {
        sent_count(replies.drop_last()) + if replies.last().error is None {
            1nat
        } else {
            0
        }
    }
}

/// Whether all of the changes were sent.
pub open spec fn all_sent(replies: Seq<SyncReplyView>) -> bool {
    forall|i: int| 0 <= i < replies.len() ==> (#[trigger] replies[i]).error is None
}

/// Whether a row of the queue holds a change.
pub open spec fn holds_entry(rows: Seq<SyncRowView>, entry: SyncEntryView) -> bool {
    exists|i: int| 0 <= i < rows.len() && (#[trigger] rows[i]).entry == entry
}

/// A pass tries every change that is due once, and no other.
pub proof fn law_a_pass_tries_what_is_due_once(db: DatabaseView, now: Seq<char>)
    requires
        db.wf(),
    ensures
        ({
            let due = all_due(db, now);
            &&& due.len() == db.sync.filter(is_due(now)).len()
            &&& forall|k: int|
                0 <= k < due.len() ==> exists|i: int|
                    0 <= i < db.sync.len() && (#[trigger] db.sync[i]).entry == #[trigger] due[k]
                        && is_due(now)(db.sync[i])
            &&& forall|i: int|
                0 <= i < db.sync.len() && is_due(now)(#[trigger] db.sync[i]) ==> due.contains(
                    db.sync[i].entry,
                )
            &&& forall|j: int, k: int|
                0 <= j < k < due.len() ==> (#[trigger] due[j]).id != (#[trigger] due[k]).id
        }),
{
    let p = is_due(now);
    let rows = db.sync.filter(p);
    let keys = touch_times(rows);
    let sorted = sorted_rows(rows, keys, false);
    let order = ordered(keys, false);
    let due = all_due(db, now);
    lemma_sorted_rows(rows, keys, false);
    law_ordering_is_stable(keys, false, keys.len());
    lemma_filter_pairs(
        db.sync,
        p,
        |a: SyncRowView, b: SyncRowView| a.entry.id < b.entry.id,
    );
    assert forall|k: int| 0 <= k < due.len() implies exists|i: int|
        0 <= i < db.sync.len() && (#[trigger] db.sync[i]).entry == #[trigger] due[k] && p(
            db.sync[i],
        ) by {
        assert(due[k] == sorted[k].entry);
        assert(sorted.contains(sorted[k]));
        assert(rows.contains(sorted[k]));
        let q = choose|q: int| 0 <= q < rows.len() && rows[q] == sorted[k];
        assert(p(rows[q]) && db.sync.contains(rows[q]));
        let i = choose|i: int| 0 <= i < db.sync.len() && db.sync[i] == rows[q];
        assert(db.sync[i].entry == due[k] && p(db.sync[i]));
    }
    assert forall|i: int| 0 <= i < db.sync.len() && p(#[trigger] db.sync[i]) implies due.contains(
        db.sync[i].entry,
    ) by {
        db.sync.lemma_filter_contains(p, i);
        assert(rows.contains(db.sync[i]));
        assert(sorted.contains(db.sync[i]));
        let q = choose|q: int| 0 <= q < sorted.len() && sorted[q] == db.sync[i];
        assert(due[q] == db.sync[i].entry);
    }
    assert forall|j: int, k: int| 0 <= j < k < due.len() implies (#[trigger] due[j]).id != (
    #[trigger] due[k]).id by {
        let a = order[j];
        let b = order[k];
        lemma_lt_irreflexive(keys[a]);
        assert(a != b);
        assert(due[j] == rows[a].entry && due[k] == rows[b].entry);
        if a < b {
            assert(rows[a].entry.id < rows[b].entry.id);
        } else {
            assert(rows[b].entry.id < rows[a].entry.id);
        }
    }
}

/// Removing the rows with a property that one row alone has removes that row.
proof fn lemma_remove_one(rows: Seq<SyncRowView>, p: spec_fn(SyncRowView) -> bool, k: int)
    requires
        0 <= k < rows.len(),
        p(rows[k]),
        forall|i: int| 0 <= i < rows.len() && i != k ==> !p(#[trigger] rows[i]),
    ensures
        rows.filter(|r: SyncRowView| !p(r)) == rows.remove(k),
    decreases rows.len(),
{
    reveal(Seq::filter);
    let keep = |r: SyncRowView| !p(r);
    let rest = rows.drop_last();
    if k == rows.len() - 1 {
        assert forall|i: int| 0 <= i < rest.len() implies keep(#[trigger] rest[i]) by {
            assert(rest[i] == rows[i]);
        }
        lemma_keep_all(rest, keep);
        assert(rows.remove(k) =~= rest);
    } else {
        assert forall|i: int| 0 <= i < rest.len() && i != k implies !p(#[trigger] rest[i]) by {
            assert(rest[i] == rows[i]);
        }
        assert(rest[k] == rows[k]);
        lemma_remove_one(rest, p, k);
        assert(keep(rows[rows.len() - 1]));
        assert(rest.remove(k).push(rows.last()) =~= rows.remove(k));
    }
}

/// Two properties that agree on the rows keep the same rows.
proof fn lemma_same_filter(
    rows: Seq<SyncRowView>,
    p: spec_fn(SyncRowView) -> bool,
    q: spec_fn(SyncRowView) -> bool,
)
    requires
        forall|i: int| 0 <= i < rows.len() ==> p(#[trigger] rows[i]) == q(rows[i]),
    ensures
        rows.filter(p) == rows.filter(q),
    decreases rows.len(),
{
    reveal(Seq::filter);
    if rows.len() > 0 {
        let rest = rows.drop_last();
        assert forall|i: int| 0 <= i < rest.len() implies p(#[trigger] rest[i]) == q(rest[i]) by {
            assert(rest[i] == rows[i]);
        }
        lemma_same_filter(rest, p, q);
        assert(p(rows[rows.len() - 1]) == q(rows[rows.len() - 1]));
    }
}

/// Keeping rows by one property and then by another keeps those with both.
proof fn lemma_filter_twice(
    rows: Seq<SyncRowView>,
    p: spec_fn(SyncRowView) -> bool,
    q: spec_fn(SyncRowView) -> bool,
)
    ensures
        rows.filter(p).filter(q) == rows.filter(|r: SyncRowView| p(r) && q(r)),
    decreases rows.len(),
{
    reveal(Seq::filter);
    if rows.len() > 0 {
        let rest = rows.drop_last();
        lemma_filter_twice(rest, p, q);
        if p(rows.last()) {
            assert(rows.filter(p).drop_last() =~= rest.filter(p));
            assert(rows.filter(p).last() == rows.last());
        }
    }
}

/// Noting the reply to a change touches only the row that holds the change.
proof fn lemma_noted(db: DatabaseView, entry: SyncEntryView, reply: SyncReplyView)
    requires
        sync_wf(db.sync),
        holds_entry(db.sync, entry),
    ensures
        ({
            let after = reply_noted(db, entry, reply);
            &&& after == (DatabaseView { sync: after.sync, ..db })
            &&& sync_wf(after.sync)
            &&& after.sync.len() == db.sync.len() - if reply.error is None {
                1int
            } else {
                0
            }
            &&& forall|i: int|
                0 <= i < db.sync.len() && (#[trigger] db.sync[i]).entry.id != entry.id
                    ==> after.sync.contains(db.sync[i])
        }),
{
    let rows = db.sync;
    let current = sync_is_current(entry.id, entry.version);
    let after = reply_noted(db, entry, reply);
    let k = choose|k: int| 0 <= k < rows.len() && (#[trigger] rows[k]).entry == entry;
    assert(current(rows[k]));
    assert forall|i: int| 0 <= i < rows.len() && i != k implies !current(#[trigger] rows[i]) by {
        if i < k {
            assert(rows[i].entry.id < rows[k].entry.id);
        } else {
            assert(rows[k].entry.id < rows[i].entry.id);
        }
    }
    match reply.error {
        None => {
            let keep = |r: SyncRowView| !current(r);
            lemma_remove_one(rows, current, k);
            lemma_sync_filtered(rows, keep);
            assert forall|i: int|
                0 <= i < rows.len() && (#[trigger] rows[i]).entry.id
                    != entry.id implies after.sync.contains(rows[i]) by {
                if i < k {
                    assert(rows.remove(k)[i] == rows[i]);
                } else {
                    assert(rows.remove(k)[i - 1] == rows[i]);
                }
            }
        },
        Some(error) => {
            let change = attempt_failed(
                (entry.attempts + 1) as i64,
                next_attempt(reply.at, entry.attempts + 1),
                error,
                rfc3339_text(reply.at.secs, reply.at.nanos),
            );
            lemma_sync_kept(rows, current, change);
            assert forall|i: int|
                0 <= i < rows.len() && (#[trigger] rows[i]).entry.id
                    != entry.id implies after.sync.contains(rows[i]) by {
                assert(after.sync[i] == rows[i]);
            }
        },
    }
}

/// How the queue stands in the middle of a pass.
proof fn lemma_midway(db: DatabaseView, now: Seq<char>, replies: Seq<SyncReplyView>)
    requires
        db.wf(),
        replies.len() <= all_due(db, now).len(),
    ensures
        ({
            let due = all_due(db, now);
            let after = after_replies(db, due, replies);
            &&& after == (DatabaseView { sync: after.sync, ..db })
            &&& sync_wf(after.sync)
            &&& after.sync.len() == db.sync.len() - sent_count(replies)
            &&& forall|k: int|
                replies.len() <= k < due.len() ==> holds_entry(after.sync, #[trigger] due[k])
            &&& forall|i: int|
                0 <= i < db.sync.len() && !is_due(now)(#[trigger] db.sync[i])
                    ==> after.sync.contains(db.sync[i])
        }),
    decreases replies.len(),
{
    let due = all_due(db, now);
    law_a_pass_tries_what_is_due_once(db, now);
    if replies.len() == 0 {
        assert forall|k: int| 0 <= k < due.len() implies holds_entry(db.sync, #[trigger] due[k]) by {
            let i = choose|i: int|
                0 <= i < db.sync.len() && (#[trigger] db.sync[i]).entry == due[k] && is_due(now)(
                    db.sync[i],
                );
            assert(db.sync[i].entry == due[k]);
        }
    } else {
        let n = replies.len() - 1;
        let before = after_replies(db, due, replies.drop_last());
        let after = after_replies(db, due, replies);
        lemma_midway(db, now, replies.drop_last());
        assert(holds_entry(before.sync, due[n]));
        lemma_noted(before, due[n], replies.last());
        assert forall|k: int| n < k < due.len() implies holds_entry(
            after.sync,
            #[trigger] due[k],
        ) by {
            let i = choose|i: int|
                0 <= i < before.sync.len() && (#[trigger] before.sync[i]).entry == due[k];
            assert(due[n].id != due[k].id);
            assert(after.sync.contains(before.sync[i]));
            let j = choose|j: int| 0 <= j < after.sync.len() && after.sync[j] == before.sync[i];
            assert(after.sync[j].entry == due[k]);
        }
        let m = choose|m: int|
            0 <= m < db.sync.len() && (#[trigger] db.sync[m]).entry == due[n] && is_due(now)(
                db.sync[m],
            );
        assert forall|i: int|
            0 <= i < db.sync.len() && !is_due(now)(
                #[trigger] db.sync[i],
            ) implies after.sync.contains(db.sync[i]) by {
            assert(i != m);
            assert(db.sync[i].entry.id != due[n].id) by {
                if i < m {
                    assert(db.sync[i].entry.id < db.sync[m].entry.id);
                } else {
                    assert(db.sync[m].entry.id < db.sync[i].entry.id);
                }
            }
            assert(before.sync.contains(db.sync[i]));
            let j = choose|j: int| 0 <= j < before.sync.len() && before.sync[j] == db.sync[i];
            assert(after.sync.contains(before.sync[j]));
        }
    }
}

/// A pass changes nothing but the queue, leaves the changes that are not due as they are, and
/// takes as many changes out of the queue as were sent.
pub proof fn law_a_pass_leaves_the_others(
    db: DatabaseView,
    now: Seq<char>,
    replies: Seq<SyncReplyView>,
)
    requires
        db.wf(),
        replies.len() == all_due(db, now).len(),
    ensures
        ({
            let after = after_replies(db, all_due(db, now), replies);
            &&& after.wf()
            &&& after == (DatabaseView { sync: after.sync, ..db })
            &&& after.sync.len() == db.sync.len() - sent_count(replies)
            &&& forall|i: int|
                0 <= i < db.sync.len() && !is_due(now)(#[trigger] db.sync[i])
                    ==> after.sync.contains(db.sync[i])
        }),
{
    lemma_midway(db, now, replies);
}

/// The queue after the first changes of a pass were sent.
proof fn lemma_sent_so_far(db: DatabaseView, now: Seq<char>, replies: Seq<SyncReplyView>)
    requires
        db.wf(),
        replies.len() <= all_due(db, now).len(),
        all_sent(replies),
    ensures
        ({
            let due = all_due(db, now);
            let done = due.take(replies.len() as int);
            after_replies(db, due, replies).sync == db.sync.filter(
                |r: SyncRowView| !done.contains(r.entry),
            )
        }),
    decreases replies.len(),
{
    let due = all_due(db, now);
    let done = due.take(replies.len() as int);
    let left = |r: SyncRowView| !done.contains(r.entry);
    law_a_pass_tries_what_is_due_once(db, now);
    if replies.len() == 0 {
        lemma_keep_all(db.sync, left);
    } else {
        let n = replies.len() - 1;
        let rest = replies.drop_last();
        let done_before = due.take(n);
        let left_before = |r: SyncRowView| !done_before.contains(r.entry);
        assert forall|i: int| 0 <= i < rest.len() implies (#[trigger] rest[i]).error is None by {
            assert(rest[i] == replies[i]);
        }
        assert(replies[n].error is None);
        lemma_sent_so_far(db, now, rest);
        let current = sync_is_current(due[n].id, due[n].version);
        let keep = |r: SyncRowView| !current(r);
        let both = |r: SyncRowView| left_before(r) && keep(r);
        lemma_filter_twice(db.sync, left_before, keep);
        let m = choose|m: int|
            0 <= m < db.sync.len() && (#[trigger] db.sync[m]).entry == due[n] && is_due(now)(
                db.sync[m],
            );
        assert forall|i: int| 0 <= i < db.sync.len() implies both(#[trigger] db.sync[i]) == left(
            db.sync[i],
        ) by {
            let row = db.sync[i];
            assert(current(row) == (row.entry == due[n])) by {
                if i < m {
                    assert(db.sync[i].entry.id < db.sync[m].entry.id);
                } else if m < i {
                    assert(db.sync[m].entry.id < db.sync[i].entry.id);
                }
            }
            if done_before.contains(row.entry) {
                let j = choose|j: int| 0 <= j < n && done_before[j] == row.entry;
                assert(done[j] == row.entry);
            }
            if done.contains(row.entry) {
                let j = choose|j: int| 0 <= j < done.len() && done[j] == row.entry;
                if j < n {
                    assert(done_before[j] == row.entry);
                }
            }
            assert(done[n] == due[n]);
        }
        lemma_same_filter(db.sync, both, left);
    }
}

/// Where every change is sent, a pass leaves exactly the changes that are not due, as they
/// are and in their order, and nothing else changes.
pub proof fn law_a_pass_sends_all_that_is_due(
    db: DatabaseView,
    now: Seq<char>,
    replies: Seq<SyncReplyView>,
)
    requires
        db.wf(),
        replies.len() == all_due(db, now).len(),
        all_sent(replies),
    ensures
        after_replies(db, all_due(db, now), replies) == (DatabaseView {
            sync: db.sync.filter(|r: SyncRowView| !is_due(now)(r)),
            ..db
        }),
{
    let due = all_due(db, now);
    let done = due.take(replies.len() as int);
    let left = |r: SyncRowView| !done.contains(r.entry);
    let waits = |r: SyncRowView| !is_due(now)(r);
    assert(done =~= due);
    lemma_midway(db, now, replies);
    lemma_sent_so_far(db, now, replies);
    law_a_pass_tries_what_is_due_once(db, now);
    assert forall|i: int| 0 <= i < db.sync.len() implies left(#[trigger] db.sync[i]) == waits(
        db.sync[i],
    ) by {
        if due.contains(db.sync[i].entry) {
            let k = choose|k: int| 0 <= k < due.len() && due[k] == db.sync[i].entry;
            let j = choose|j: int|
                0 <= j < db.sync.len() && (#[trigger] db.sync[j]).entry == due[k] && is_due(now)(
                    db.sync[j],
                );
            if i < j {
                assert(db.sync[i].entry.id < db.sync[j].entry.id);
            } else if j < i {
                assert(db.sync[j].entry.id < db.sync[i].entry.id);
            }
        }
    }
    lemma_same_filter(db.sync, left, waits);
}

} // verus!
