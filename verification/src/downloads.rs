//! The life of a download: adding it, letting it wait for a slot, following its progress,
//! pausing, resuming and removing it.

use crate::db::download_table::{
    DownloadDetails, details_match, download_has_id, download_usable, downloads_changed, in_state,
    latest, new_download, progressed, tasks_latest_first, with_files,
};
use crate::db::item_table::{item_of_task, not_downloaded};
use crate::db::{Database, DatabaseView, DownloadRowView, download_ids_differ};
use crate::feeds::{download_link, is_download_link};
use crate::links::{canonical_download_source_key, source_key};
use crate::models::{
    DownloadTask, Progress, StoredFileInfo, TaskView, all_done, nothing_done, stored_files,
};
use crate::order::{law_ordering_is_stable, ordered};
use crate::rows::{first, lemma_first_none, some_row, views};
use crate::text::{copy_opt, list_has, opt_text, same, texts};
use vstd::prelude::*;

verus! {

/// Whether a download occupies a slot: the engine has it, and it is downloading.
pub open spec fn busy(row: DownloadRowView, handles: Seq<Seq<char>>) -> bool {
    handles.contains(row.task.id) && row.task.state == "downloading"@
}

/// How many downloads occupy a slot.
pub open spec fn active(rows: Seq<DownloadRowView>, handles: Seq<Seq<char>>) -> nat
    decreases rows.len(),
{
    if rows.len() == 0 {
        0
    } else {
        active(rows.drop_last(), handles) + if busy(rows.last(), handles) {
            1nat
        } else {
            0nat
        }
    }
}

/// There are no more busy downloads than downloads.
proof fn lemma_active_bound(rows: Seq<DownloadRowView>, handles: Seq<Seq<char>>)
    ensures
        active(rows, handles) <= rows.len(),
    decreases rows.len(),
{
    if rows.len() > 0 {
        lemma_active_bound(rows.drop_last(), handles);
    }
}

/// A change of one row changes the number of busy downloads by that row.
proof fn lemma_active_update(
    a: Seq<DownloadRowView>,
    b: Seq<DownloadRowView>,
    handles: Seq<Seq<char>>,
    k: int,
)
    requires
        a.len() == b.len(),
        0 <= k < a.len(),
        forall|j: int| 0 <= j < a.len() && j != k ==> #[trigger] a[j] == b[j],
    ensures
        active(b, handles) + (if busy(a[k], handles) {
            1int
        } else {
            0int
        }) == active(a, handles) + (if busy(b[k], handles) {
            1int
        } else {
            0int
        }),
    decreases a.len(),
{
    let x = a.drop_last();
    let y = b.drop_last();
    if k == a.len() - 1 {
        assert(x =~= y) by {
            assert forall|j: int| 0 <= j < x.len() implies #[trigger] x[j] == y[j] by {
                assert(a[j] == b[j]);
            }
        }
    } else {
        assert forall|j: int| 0 <= j < x.len() && j != k implies #[trigger] x[j] == y[j] by {
            assert(a[j] == b[j]);
        }
        assert(a[a.len() - 1] == b[b.len() - 1]);
        lemma_active_update(x, y, handles, k);
    }
}

/// How many downloads occupy a slot.
pub fn active_download_count(db: &Database, handles: &Vec<String>) -> (count: usize)
    ensures
        count == active(db@.downloads, texts(handles@)),
{
    let ghost all = db@.downloads;
    let mut count: usize = 0;
    assert(all.take(0) =~= Seq::<DownloadRowView>::empty());
    for i in 0..db.downloads.len()
        invariant
            all == views(db.downloads@),
            count <= i,
            count == active(all.take(i as int), texts(handles@)),
    {
        assert(all.take(i + 1).drop_last() =~= all.take(i as int));
        assert(all.take(i + 1).last() == db.downloads@[i as int]@);
        if list_has(handles, db.downloads[i].task.id.as_str()) && same(
            db.downloads[i].task.state.as_str(),
            "downloading",
        ) {
            count = count + 1;
        }
    }
    assert(all.take(all.len() as int) =~= all);
    count
}

/// Whether no further download may start: a maximum is set, and that many are running.
pub open spec fn at_limit(rows: Seq<DownloadRowView>, handles: Seq<Seq<char>>, max: u32) -> bool {
    max > 0 && active(rows, handles) >= max
}

/// For how many seconds a download whose start failed is left alone.
pub const COOLDOWN_SECONDS: u64 = 10;

/// Failed starts as plain values: the download, and how many seconds ago.
pub open spec fn failures_view(failures: Seq<(String, u64)>) -> Seq<(Seq<char>, u64)> {
    failures.map_values(|f: (String, u64)| (f.0@, f.1))
}

/// Whether the start of a download failed so recently that it is left alone.
pub open spec fn cooling(failures: Seq<(Seq<char>, u64)>, id: Seq<char>) -> bool {
    exists|i: int|
        0 <= i < failures.len() && (#[trigger] failures[i]).0 == id && failures[i].1
            < COOLDOWN_SECONDS
}

/// Whether the start of a download failed so recently that it is left alone.
pub fn is_cooling(failures: &Vec<(String, u64)>, id: &str) -> (r: bool)
    ensures
        r == cooling(failures_view(failures@), id@),
{
    let ghost all = failures_view(failures@);
    for i in 0..failures.len()
        invariant
            all == failures_view(failures@),
            forall|j: int|
                0 <= j < i ==> !((#[trigger] all[j]).0 == id@ && all[j].1 < COOLDOWN_SECONDS),
    {
        assert(all[i as int] == (failures@[i as int].0@, failures@[i as int].1));
        if same(failures[i].0.as_str(), id) && failures[i].1 < COOLDOWN_SECONDS {
            return true;
        }
    }
    false
}

/// Starting downloads that wait, one after the other, as long as slots are free. The engine
/// is asked for each start, and its answer is noted before the next.
#[derive(Debug)]
pub struct PromoteRun {
    pub waiting: Vec<String>,
    pub next: usize,
    pub slots: Option<i128>,
}

/// The ids of the downloads that wait, the latest first.
pub open spec fn waiting_ids(rows: Seq<DownloadRowView>) -> Seq<Seq<char>> {
    tasks_latest_first(rows).filter(|t: TaskView| t.state == "queued"@).map_values(
        |t: TaskView| t.id,
    )
}

/// Whether a download with the id waits.
pub open spec fn waits(rows: Seq<DownloadRowView>, id: Seq<char>) -> bool {
    exists|k: int|
        0 <= k < rows.len() && (#[trigger] rows[k]).task.id == id && rows[k].task.state
            == "queued"@
}

/// What holds between the steps of a run: the downloads to come wait, no two are the same,
/// and the slots are those that the running downloads leave.
pub open spec fn run_wf(
    run: PromoteRun,
    rows: Seq<DownloadRowView>,
    handles: Seq<Seq<char>>,
    max: u32,
) -> bool {
    let ids = texts(run.waiting@);
    &&& run.next <= ids.len()
    &&& forall|i: int, j: int| 0 <= i < j < ids.len() ==> #[trigger] ids[i] != #[trigger] ids[j]
    &&& forall|i: int| run.next <= i < ids.len() ==> waits(rows, #[trigger] ids[i])
    &&& match run.slots {
        Some(slots) => max > 0 && slots == max - active(rows, handles),
        None => max == 0,
    }
}

/// What holds while the engine is asked to start a download: it counts as downloading
/// already.
pub open spec fn run_started(
    run: PromoteRun,
    rows: Seq<DownloadRowView>,
    handles: Seq<Seq<char>>,
) -> bool {
    let ids = texts(run.waiting@);
    &&& 0 < run.next <= ids.len()
    &&& handles.contains(ids[run.next - 1])
    &&& exists|k: int|
        0 <= k < rows.len() && (#[trigger] rows[k]).task.id == ids[run.next - 1]
            && rows[k].task.state == "downloading"@
}

/// The ids of the downloads that wait are different, and each waits.
proof fn lemma_waiting_ids(rows: Seq<DownloadRowView>)
    requires
        download_ids_differ(rows),
    ensures
        ({
            let ids = waiting_ids(rows);
            &&& forall|i: int, j: int|
                0 <= i < j < ids.len() ==> #[trigger] ids[i] != #[trigger] ids[j]
            &&& forall|i: int| 0 <= i < ids.len() ==> waits(rows, #[trigger] ids[i])
        }),
{
    let times = crate::db::download_table::creation_times(rows);
    law_ordering_is_stable(times, true, rows.len());
    let order = ordered(times, true);
    let all = tasks_latest_first(rows);
    let p = |t: TaskView| t.state == "queued"@;
    assert forall|i: int, j: int| 0 <= i < j < all.len() implies (#[trigger] all[i]).id != (
    #[trigger] all[j]).id && rows.contains(rows[order[i]]) by {
        assert(all[i] == rows[order[i]].task);
        assert(all[j] == rows[order[j]].task);
        let a = order[i];
        let b = order[j];
        assert(crate::order::precedes(times, true, a, b) || (times[a] == times[b] && a < b));
        if a == b {
            crate::order::lemma_lt_irreflexive(times[a]);
        }
        if a < b {
            assert(rows[a].task.id != rows[b].task.id);
        } else {
            assert(rows[b].task.id != rows[a].task.id);
        }
    }
    crate::rows::lemma_filter_pairs(all, p, |a: TaskView, b: TaskView| a.id != b.id);
    let kept = all.filter(p);
    let ids = waiting_ids(rows);
    assert forall|i: int| 0 <= i < ids.len() implies waits(rows, #[trigger] ids[i]) by {
        assert(ids[i] == kept[i].id);
        assert(p(kept[i]) && all.contains(kept[i]));
        let j = choose|j: int| 0 <= j < all.len() && all[j] == kept[i];
        assert(all[j] == rows[order[j]].task);
        assert(rows[order[j]].task.id == ids[i]);
    }
    assert forall|i: int, j: int| 0 <= i < j < ids.len() implies #[trigger] ids[i]
        != #[trigger] ids[j] by {
        assert(kept[i].id != kept[j].id);
    }
}

/// Begins a run over the downloads that wait. A maximum of zero sets no limit.
pub fn promote_begin(db: &Database, handles: &Vec<String>, max: u32) -> (run: PromoteRun)
    requires
        db.wf(),
    ensures
        texts(run.waiting@) == waiting_ids(db@.downloads),
        run.next == 0,
        run_wf(run, db@.downloads, texts(handles@), max),
{
    let tasks: Vec<DownloadTask> = match db.list_downloads() {
        Ok(tasks) => tasks,
        Err(_) => Vec::new(),
    };
    let ghost all = tasks_latest_first(db@.downloads);
    let ghost p = |t: TaskView| t.state == "queued"@;
    let mut waiting: Vec<String> = Vec::new();
    reveal(Seq::filter);
    assert(all.take(0).filter(p) =~= Seq::<TaskView>::empty());
    for i in 0..tasks.len()
        invariant
            all == views(tasks@),
            p == |t: TaskView| t.state == "queued"@,
            waiting@.len() == all.take(i as int).filter(p).len(),
            forall|k: int|
                0 <= k < waiting@.len() ==> (#[trigger] waiting@[k])@ == all.take(i as int).filter(
                    p,
                )[k].id,
    {
        reveal(Seq::filter);
        assert(all.take(i + 1).drop_last() =~= all.take(i as int));
        assert(all.take(i + 1).last() == tasks@[i as int]@);
        if same(tasks[i].state.as_str(), "queued") {
            waiting.push(tasks[i].id.clone());
        }
    }
    assert(all.take(all.len() as int) =~= all);
    assert(texts(waiting@) =~= waiting_ids(db@.downloads));
    let count: usize = active_download_count(db, handles);
    proof {
        lemma_waiting_ids(db@.downloads);
        lemma_active_bound(db@.downloads, texts(handles@));
    }
    let slots: Option<i128> = if max == 0 {
        None
    } else {
        Some(max as i128 - count as i128)
    };
    PromoteRun { waiting, next: 0, slots }
}

/// The first download from a place on that the engine has and that is not left alone.
pub open spec fn next_ready(
    ids: Seq<Seq<char>>,
    from: int,
    handles: Seq<Seq<char>>,
    failures: Seq<(Seq<char>, u64)>,
) -> Option<int>
    decreases ids.len() - from,
{
    if from < 0 || from >= ids.len() {
        None
    } else if handles.contains(ids[from]) && !cooling(failures, ids[from]) {
        Some(from)
    } else {
        next_ready(ids, from + 1, handles, failures)
    }
}

/// The download that is started next: none where no further one may start.
pub open spec fn chosen(
    rows: Seq<DownloadRowView>,
    ids: Seq<Seq<char>>,
    from: int,
    handles: Seq<Seq<char>>,
    failures: Seq<(Seq<char>, u64)>,
    max: u32,
) -> Option<int> {
    if at_limit(rows, handles, max) {
        None
    } else {
        next_ready(ids, from, handles, failures)
    }
}

/// Chooses the next download to start, where a slot is free, and notes it as downloading, so
/// that its slot is taken before the engine is asked.
pub fn promote_next(
    db: &mut Database,
    run: &mut PromoteRun,
    handles: &Vec<String>,
    failures: &Vec<(String, u64)>,
    max: u32,
) -> (r: Option<String>)
    requires
        old(db).wf(),
        run_wf(*old(run), old(db)@.downloads, texts(handles@), max),
    ensures
        final(db).wf(),
        run_wf(*final(run), final(db)@.downloads, texts(handles@), max),
        final(run).waiting == old(run).waiting,
        r is Some <==> chosen(
            old(db)@.downloads,
            texts(old(run).waiting@),
            old(run).next as int,
            texts(handles@),
            failures_view(failures@),
            max,
        ) is Some,
        match r {
            Some(id) => {
                &&& chosen(
                    old(db)@.downloads,
                    texts(old(run).waiting@),
                    old(run).next as int,
                    texts(handles@),
                    failures_view(failures@),
                    max,
                ) == Some(final(run).next - 1)
                &&& id@ == texts(old(run).waiting@)[final(run).next - 1]
                &&& final(db)@ == old(db)@.download_changed(id@, in_state("downloading"@))
                &&& run_started(*final(run), final(db)@.downloads, texts(handles@))
                &&& max > 0 ==> active(final(db)@.downloads, texts(handles@)) <= max
            },
            None => *final(db) == *old(db) && *final(run) == *old(run),
        },
{
    let ghost ids = texts(run.waiting@);
    let ghost has = texts(handles@);
    let ghost failed = failures_view(failures@);
    if let Some(slots) = run.slots {
        if slots <= 0 {
            return None;
        }
    }
    let mut k: usize = run.next;
    while k < run.waiting.len()
        invariant
            *run == *old(run),
            *db == *old(db),
            db.wf(),
            run_wf(*run, db@.downloads, texts(handles@), max),
            run.slots matches Some(slots) ==> slots > 0,
            ids == texts(run.waiting@),
            has == texts(handles@),
            failed == failures_view(failures@),
            run.next <= k <= ids.len(),
            next_ready(ids, run.next as int, has, failed) == next_ready(
                ids,
                k as int,
                has,
                failed,
            ),
        decreases ids.len() - k,
    {
        assert(ids[k as int] == run.waiting@[k as int]@);
        if list_has(handles, run.waiting[k].as_str()) && !is_cooling(
            failures,
            run.waiting[k].as_str(),
        ) {
            let id: String = run.waiting[k].clone();
            let ghost before = db@;
            let _ = db.set_download_state(id.as_str(), "downloading");
            run.next = k + 1;
            run.slots = match run.slots {
                Some(slots) => Some(slots - 1),
                None => None,
            };
            proof {
                assert(waits(before.downloads, id@));
                lemma_state_changed(before, id@, "downloading"@, has);
                let after = db@.downloads;
                assert forall|i: int| run.next <= i < ids.len() implies waits(
                    after,
                    #[trigger] ids[i],
                ) by {
                    assert(ids[k as int] != ids[i]);
                    assert(waits(before.downloads, ids[i]));
                    lemma_others_wait(before.downloads, id@, "downloading"@, ids[i]);
                }
                assert(texts(run.waiting@) == ids);
            }
            return Some(id);
        }
        k = k + 1;
    }
    None
}

/// What a change of the state of a waiting download means for the number of busy ones.
proof fn lemma_state_changed(
    db: DatabaseView,
    id: Seq<char>,
    state: Seq<char>,
    handles: Seq<Seq<char>>,
)
    requires
        db.wf(),
        some_row(db.downloads, download_has_id(id)),
    ensures
        ({
            let before = db.downloads;
            let after = db.download_changed(id, in_state(state)).downloads;
            &&& exists|k: int|
                0 <= k < after.len() && (#[trigger] after[k]).task.id == id && after[k].task.state
                    == state
            &&& waits(before, id) && handles.contains(id) && state == "downloading"@ ==> active(
                after,
                handles,
            ) == active(before, handles) + 1
            &&& (exists|k: int|
                0 <= k < before.len() && (#[trigger] before[k]).task.id == id
                    && before[k].task.state == "downloading"@) && handles.contains(id) && state
                != "downloading"@ ==> active(after, handles) == active(before, handles) - 1
        }),
{
    reveal_strlit("queued");
    reveal_strlit("downloading");
    assert("queued"@[0] != "downloading"@[0]);
    let before = db.downloads;
    let after = db.download_changed(id, in_state(state)).downloads;
    let k = choose|k: int| 0 <= k < before.len() && download_has_id(id)(#[trigger] before[k]);
    assert(before[k].task.id == id);
    assert forall|j: int| 0 <= j < before.len() && j != k implies #[trigger] before[j] == after[j] by {
        assert(before[j].task.id != id);
    }
    assert(after[k] == in_state(state)(before[k]));
    lemma_active_update(before, after, handles, k);
    assert(after[k].task.id == id && after[k].task.state == state);
    if waits(before, id) {
        let q = choose|q: int|
            0 <= q < before.len() && (#[trigger] before[q]).task.id == id && before[q].task.state
                == "queued"@;
        assert(q == k);
    }
    if exists|q: int|
        0 <= q < before.len() && (#[trigger] before[q]).task.id == id && before[q].task.state
            == "downloading"@ {
        let q = choose|q: int|
            0 <= q < before.len() && (#[trigger] before[q]).task.id == id && before[q].task.state
                == "downloading"@;
        assert(q == k);
    }
}

/// A download waits on while another one changes its state.
proof fn lemma_others_wait(
    rows: Seq<DownloadRowView>,
    id: Seq<char>,
    state: Seq<char>,
    other: Seq<char>,
)
    requires
        waits(rows, other),
        other != id,
    ensures
        waits(downloads_changed(rows, id, in_state(state)), other),
{
    let k = choose|k: int|
        0 <= k < rows.len() && (#[trigger] rows[k]).task.id == other && rows[k].task.state
            == "queued"@;
    assert(downloads_changed(rows, id, in_state(state))[k] == rows[k]);
}

/// The records after a download was to start: one that did not waits again.
pub open spec fn after_start(db: DatabaseView, id: Seq<char>, started: bool) -> DatabaseView {
    if started {
        db
    } else {
        db.download_changed(id, in_state("queued"@))
    }
}

/// Notes the answer of the engine. A download that could not be started waits again and
/// leaves its slot; otherwise nothing changes.
pub fn promote_done(
    db: &mut Database,
    run: &mut PromoteRun,
    handles: &Vec<String>,
    started: bool,
    max: u32,
)
    requires
        old(db).wf(),
        run_wf(*old(run), old(db)@.downloads, texts(handles@), max),
        run_started(*old(run), old(db)@.downloads, texts(handles@)),
    ensures
        final(db).wf(),
        run_wf(*final(run), final(db)@.downloads, texts(handles@), max),
        final(run).waiting == old(run).waiting,
        final(run).next == old(run).next,
        final(db)@ == after_start(
            old(db)@,
            texts(old(run).waiting@)[old(run).next - 1],
            started,
        ),
{
    if started {
        return ;
    }
    let ghost ids = texts(run.waiting@);
    let ghost before = db@;
    let id: String = run.waiting[run.next - 1].clone();
    assert(ids[run.next - 1] == id@);
    let _ = db.set_download_state(id.as_str(), "queued");
    run.slots = match run.slots {
        Some(slots) => Some(slots + 1),
        None => None,
    };
    proof {
        reveal_strlit("queued");
        reveal_strlit("downloading");
        assert("queued"@[0] != "downloading"@[0]);
        let k = choose|k: int|
            0 <= k < before.downloads.len() && (#[trigger] before.downloads[k]).task.id == id@
                && before.downloads[k].task.state == "downloading"@;
        assert(download_has_id(id@)(before.downloads[k]));
        lemma_state_changed(before, id@, "queued"@, texts(handles@));
        assert forall|i: int| run.next <= i < ids.len() implies waits(
            db@.downloads,
            #[trigger] ids[i],
        ) by {
            assert(ids[run.next - 1] != ids[i]);
            lemma_others_wait(before.downloads, id@, "queued"@, ids[i]);
        }
        assert(texts(run.waiting@) == ids);
    }
}

/// A start that fails leaves the records as they were.
pub proof fn law_failed_start_changes_nothing(db: DatabaseView, id: Seq<char>)
    requires
        db.wf(),
        waits(db.downloads, id),
    ensures
        db.download_changed(id, in_state("downloading"@)).download_changed(
            id,
            in_state("queued"@),
        ) == db,
{
    let mid = db.download_changed(id, in_state("downloading"@));
    let after = mid.download_changed(id, in_state("queued"@));
    let k = choose|k: int|
        0 <= k < db.downloads.len() && (#[trigger] db.downloads[k]).task.id == id
            && db.downloads[k].task.state == "queued"@;
    assert forall|j: int| 0 <= j < db.downloads.len() implies after.downloads[j]
        == #[trigger] db.downloads[j] by {
        if j == k {
            assert(mid.downloads[j] == in_state("downloading"@)(db.downloads[j]));
            assert(after.downloads[j] == in_state("queued"@)(mid.downloads[j]));
            assert(after.downloads[j].task =~= db.downloads[j].task);
            assert(after.downloads[j] =~= db.downloads[j]);
        } else {
            assert(db.downloads[j].task.id != db.downloads[k].task.id);
            assert(mid.downloads[j] == db.downloads[j]);
        }
    }
    assert(after.downloads =~= db.downloads);
    assert(after =~= db);
}

/// A start that a run tries: the failed starts that are known by then, and whether the engine
/// starts the download.
pub struct StartTrial {
    pub failures: Seq<(Seq<char>, u64)>,
    pub started: bool,
}

/// How a run stands: the records, the place in the list of waiting downloads, and the downloads
/// that were tried.
pub struct RunState {
    pub db: DatabaseView,
    pub next: int,
    pub tried: Seq<Seq<char>>,
}

/// How a run stands after some trials.
pub open spec fn after_trials(
    db: DatabaseView,
    handles: Seq<Seq<char>>,
    max: u32,
    trials: Seq<StartTrial>,
) -> RunState
    decreases trials.len(),
{
    let ids = waiting_ids(db.downloads);
    if trials.len() == 0 {
        RunState { db, next: 0, tried: Seq::empty() }
    } else {
        let before = after_trials(db, handles, max, trials.drop_last());
        let trial = trials.last();
        match chosen(before.db.downloads, ids, before.next, handles, trial.failures, max) {
            Some(k) => {
                let begun = before.db.download_changed(ids[k], in_state("downloading"@));
                RunState {
                    db: if trial.started {
                        begun
                    } else {
                        begun.download_changed(ids[k], in_state("queued"@))
                    },
                    next: k + 1,
                    tried: before.tried.push(ids[k]),
                }
            },
            None => before,
        }
    }
}

/// What holds of a run after any number of trials: the list goes on with downloads that wait,
/// what was tried stands before, each once, and other downloads are as they were.
pub open spec fn run_sound(
    db: DatabaseView,
    handles: Seq<Seq<char>>,
    max: u32,
    state: RunState,
) -> bool {
    let ids = waiting_ids(db.downloads);
    let rows = db.downloads;
    &&& state.db.wf()
    &&& state.db == (DatabaseView { downloads: state.db.downloads, ..db })
    &&& state.db.downloads.len() == rows.len()
    &&& 0 <= state.next <= ids.len()
    &&& max > 0 ==> active(state.db.downloads, handles) <= max || active(
        state.db.downloads,
        handles,
    ) <= active(rows, handles)
    &&& forall|i: int| state.next <= i < ids.len() ==> waits(state.db.downloads, #[trigger] ids[i])
    &&& forall|j: int|
        0 <= j < state.tried.len() ==> exists|m: int|
            0 <= m < state.next && ids[m] == #[trigger] state.tried[j]
    &&& forall|i: int, j: int|
        0 <= i < j < state.tried.len() ==> #[trigger] state.tried[i] != #[trigger] state.tried[j]
    &&& forall|i: int|
        0 <= i < rows.len() && !state.tried.contains(rows[i].task.id)
            ==> #[trigger] state.db.downloads[i] == rows[i]
    &&& forall|i: int|
        0 <= i < rows.len() ==> (#[trigger] state.db.downloads[i]).task.id == rows[i].task.id
}

/// A place that is found is one of the list from the start on, and its download is there.
proof fn lemma_next_ready(
    ids: Seq<Seq<char>>,
    from: int,
    handles: Seq<Seq<char>>,
    failures: Seq<(Seq<char>, u64)>,
)
    requires
        0 <= from,
    ensures
        next_ready(ids, from, handles, failures) matches Some(k) ==> from <= k < ids.len()
            && handles.contains(ids[k]),
    decreases ids.len() - from,
{
    if from < ids.len() && !(handles.contains(ids[from]) && !cooling(failures, ids[from])) {
        lemma_next_ready(ids, from + 1, handles, failures);
    }
}

proof fn lemma_run_sound(
    db: DatabaseView,
    handles: Seq<Seq<char>>,
    max: u32,
    trials: Seq<StartTrial>,
)
    requires
        db.wf(),
    ensures
        run_sound(db, handles, max, after_trials(db, handles, max, trials)),
    decreases trials.len(),
{
    let ids = waiting_ids(db.downloads);
    let rows = db.downloads;
    lemma_waiting_ids(rows);
    if trials.len() > 0 {
        let before = after_trials(db, handles, max, trials.drop_last());
        let after = after_trials(db, handles, max, trials);
        let trial = trials.last();
        lemma_run_sound(db, handles, max, trials.drop_last());
        lemma_next_ready(ids, before.next, handles, trial.failures);
        if let Some(k) = chosen(
            before.db.downloads,
            ids,
            before.next,
            handles,
            trial.failures,
            max,
        ) {
            let id = ids[k];
            let old_rows = before.db.downloads;
            let begun = before.db.download_changed(id, in_state("downloading"@));
            assert(waits(old_rows, id));
            let q = choose|q: int|
                0 <= q < old_rows.len() && (#[trigger] old_rows[q]).task.id == id
                    && old_rows[q].task.state == "queued"@;
            assert(download_has_id(id)(old_rows[q]));
            lemma_state_changed(before.db, id, "downloading"@, handles);
            law_failed_start_changes_nothing(before.db, id);
            let new_rows = after.db.downloads;
            assert forall|i: int| 0 <= i < rows.len() implies (
            #[trigger] new_rows[i]).task.id == rows[i].task.id by {
                assert(old_rows[i].task.id == rows[i].task.id);
            }
            assert(after.db.wf()) by {
                assert forall|i: int, j: int| 0 <= i < j < new_rows.len() implies (
                #[trigger] new_rows[i]).task.id != (#[trigger] new_rows[j]).task.id by {
                    assert(rows[i].task.id != rows[j].task.id);
                }
            }
            assert forall|i: int| k < i < ids.len() implies waits(new_rows, #[trigger] ids[i]) by {
                assert(ids[k] != ids[i]);
                assert(waits(old_rows, ids[i]));
                lemma_others_wait(old_rows, id, "downloading"@, ids[i]);
            }
            assert forall|j: int| 0 <= j < after.tried.len() implies exists|m: int|
                0 <= m < k + 1 && ids[m] == #[trigger] after.tried[j] by {
                if j < before.tried.len() {
                    assert(after.tried[j] == before.tried[j]);
                    let m = choose|m: int| 0 <= m < before.next && ids[m] == before.tried[j];
                    assert(ids[m] == after.tried[j]);
                } else {
                    assert(ids[k] == after.tried[j]);
                }
            }
            assert forall|i: int, j: int| 0 <= i < j < after.tried.len() implies
                #[trigger] after.tried[i] != #[trigger] after.tried[j] by {
                assert(after.tried[i] == before.tried[i]);
                if j < before.tried.len() {
                    assert(after.tried[j] == before.tried[j]);
                } else {
                    let m = choose|m: int| 0 <= m < before.next && ids[m] == before.tried[i];
                    assert(ids[m] != ids[k]);
                }
            }
            assert forall|i: int|
                0 <= i < rows.len() && !after.tried.contains(rows[i].task.id) implies
                #[trigger] new_rows[i] == rows[i] by {
                assert(after.tried[before.tried.len() as int] == id);
                assert(rows[i].task.id != id);
                if before.tried.contains(rows[i].task.id) {
                    let j = choose|j: int|
                        0 <= j < before.tried.len() && before.tried[j] == rows[i].task.id;
                    assert(after.tried[j] == rows[i].task.id);
                }
                assert(old_rows[i] == rows[i]);
            }
        }
    }
}

/// However many starts a run tries, and whatever comes of them: at most as many downloads are
/// active as the limit allows or were before; each download is tried at most once, and only
/// such as waited; and all other downloads, and all other records, stay as they were.
pub proof fn law_a_run_keeps_the_limit(
    db: DatabaseView,
    handles: Seq<Seq<char>>,
    max: u32,
    trials: Seq<StartTrial>,
)
    requires
        db.wf(),
    ensures
        ({
            let state = after_trials(db, handles, max, trials);
            let rows = db.downloads;
            &&& max > 0 ==> active(state.db.downloads, handles) <= max || active(
                state.db.downloads,
                handles,
            ) <= active(rows, handles)
            &&& forall|i: int, j: int|
                0 <= i < j < state.tried.len() ==> #[trigger] state.tried[i]
                    != #[trigger] state.tried[j]
            &&& forall|j: int|
                0 <= j < state.tried.len() ==> waits(rows, #[trigger] state.tried[j])
            &&& forall|i: int|
                0 <= i < rows.len() && !state.tried.contains(rows[i].task.id)
                    ==> #[trigger] state.db.downloads[i] == rows[i]
            &&& state.db.downloads.len() == rows.len()
            &&& state.db == (DatabaseView { downloads: state.db.downloads, ..db })
        }),
{
    let state = after_trials(db, handles, max, trials);
    let ids = waiting_ids(db.downloads);
    lemma_run_sound(db, handles, max, trials);
    lemma_waiting_ids(db.downloads);
    assert forall|j: int| 0 <= j < state.tried.len() implies waits(
        db.downloads,
        #[trigger] state.tried[j],
    ) by {
        let m = choose|m: int| 0 <= m < state.next && ids[m] == state.tried[j];
        assert(waits(db.downloads, ids[m]));
    }
}

/// Only downloads that wait are started: not those that the user paused, nor finished or
/// failed ones.
pub proof fn law_only_waiting_downloads_start(db: DatabaseView, k: int)
    requires
        db.wf(),
        0 <= k < db.downloads.len(),
        db.downloads[k].task.state != "queued"@,
    ensures
        !waiting_ids(db.downloads).contains(db.downloads[k].task.id),
{
    let rows = db.downloads;
    let ids = waiting_ids(rows);
    lemma_waiting_ids(rows);
    if ids.contains(rows[k].task.id) {
        let i = choose|i: int| 0 <= i < ids.len() && ids[i] == rows[k].task.id;
        assert(waits(rows, ids[i]));
        let q = choose|q: int|
            0 <= q < rows.len() && (#[trigger] rows[q]).task.id == ids[i] && rows[q].task.state
                == "queued"@;
        if q < k {
            assert(rows[q].task.id != rows[k].task.id);
        } else if k < q {
            assert(rows[k].task.id != rows[q].task.id);
        }
    }
}

/// The first step of adding a download: a download of the same content that the engine has,
/// or that is complete, is used as it is.
#[derive(Debug)]
pub enum StartStep {
    Reuse(DownloadTask),
    Prepare,
}

/// The download that has a source already.
pub open spec fn existing_download(db: DatabaseView, source: Seq<char>) -> Option<
    DownloadRowView,
> {
    latest(db.downloads, download_usable(source_key(source)))
}

/// Whether the download that has a source already is used as it is.
pub open spec fn reused(db: DatabaseView, source: Seq<char>, handles: Seq<Seq<char>>) -> bool {
    existing_download(db, source) matches Some(row) && (handles.contains(row.task.id)
        || row.task.state == "completed"@)
}

/// What comes of a source that is to be downloaded: the download that has it already, a new one, or
/// a refusal of what is no link.
pub open spec fn download_starts(
    db: DatabaseView,
    source: Seq<char>,
    handles: Seq<Seq<char>>,
    r: Result<StartStep, String>,
) -> bool {
    match r {
        Ok(StartStep::Reuse(task)) => is_download_link(source) && reused(
            db,
            source,
            handles,
        ) && existing_download(db, source)->0.task == task@,
        Ok(StartStep::Prepare) => is_download_link(source) && !reused(
            db,
            source,
            handles,
        ),
        Err(e) => !is_download_link(source) && e@
            == "仅支持 magnet、HTTP 或 HTTPS 种子地址"@,
    }
}

/// Decides whether a source is downloaded anew. Only magnet links and addresses of the web
/// are accepted.
pub fn start_download(db: &Database, source: &str, handles: &Vec<String>) -> (r: Result<
    StartStep,
    String,
>)
    ensures
        download_starts(db@, source@, texts(handles@), r),
{
    if !download_link(source) {
        return Err("仅支持 magnet、HTTP 或 HTTPS 种子地址".to_owned());
    }
    let key: String = canonical_download_source_key(source);
    let existing: Option<DownloadTask> = db.download_by_source_key(key.as_str())?;
    if let Some(task) = existing {
        if list_has(handles, task.id.as_str()) || same(task.state.as_str(), "completed") {
            return Ok(StartStep::Reuse(task));
        }
    }
    Ok(StartStep::Prepare)
}

/// A download that is about to be handed to the engine.
#[derive(Debug)]
pub struct StartPlan {
    pub task: DownloadTask,
    pub is_new: bool,
    pub restore_paused: bool,
    pub add_paused: bool,
}

/// The task of a new download.
pub open spec fn new_task(
    id: Seq<char>,
    title: Seq<char>,
    episode: Seq<char>,
    output_path: Seq<char>,
) -> TaskView {
    TaskView {
        id,
        title,
        episode,
        progress: nothing_done(),
        down_speed: 0,
        up_speed: 0,
        state: "queued"@,
        output_path,
        playback_path: None,
    }
}

/// Whether a download is handed to the engine paused: one that the user paused stays so, and one
/// that exceeds the maximum waits.
pub open spec fn handed_over_paused(noted: Seq<char>, full: bool) -> bool {
    noted == "paused"@ || full
}

/// What is planned for a source: the download that has it already waits again, as it was before; a
/// new download is added under its own number, which no other download has.
pub open spec fn download_planned(
    before: DatabaseView,
    after: DatabaseView,
    source: Seq<char>,
    prepared: Seq<char>,
    task: TaskView,
    full: bool,
    now: Seq<char>,
    r: Result<StartPlan, String>,
) -> bool {
    match (existing_download(before, source), r) {
        (Some(row), Ok(plan)) => {
            &&& !plan.is_new
            &&& plan.task@ == row.task
            &&& plan.restore_paused == (row.task.state == "paused"@)
            &&& plan.add_paused == handed_over_paused(row.task.state, full)
            &&& after == before.download_changed(row.task.id, in_state("queued"@))
        },
        (None, Ok(plan)) => {
            &&& plan.is_new
            &&& plan.task@ == task
            &&& !plan.restore_paused
            &&& plan.add_paused == full
            &&& !some_row(before.downloads, download_has_id(task.id))
            &&& after == before.download_added(
                new_download(plan.task@, prepared, source_key(source), now),
            )
        },
        (None, Err(e)) => some_row(before.downloads, download_has_id(task.id)) && after == before
            && e@ == "UNIQUE constraint failed: downloads.id"@,
        (Some(_), Err(_)) => false,
    }
}

/// Notes a download that is about to be handed to the engine, at the time `now`, and decides
/// whether it is handed over paused: one that the user paused stays so, and one that exceeds
/// the maximum waits. A known download keeps its directory.
pub fn plan_download(
    db: &mut Database,
    source: &str,
    prepared: &str,
    title: String,
    episode: String,
    id: String,
    download_dir: &str,
    handles: &Vec<String>,
    max: u32,
    now: &str,
) -> (r: Result<StartPlan, String>)
    requires
        old(db).wf(),
    ensures
        final(db).wf(),
        r is Err ==> *final(db) == *old(db),
        download_planned(
            old(db)@,
            final(db)@,
            source@,
            prepared@,
            new_task(id@, title@, episode@, download_dir@),
            at_limit(old(db)@.downloads, texts(handles@), max),
            now@,
            r,
        ),
{
    let key: String = canonical_download_source_key(source);
    let over_limit: bool = max > 0 && active_download_count(db, handles) >= max as usize;
    let existing: Option<DownloadTask> = db.download_by_source_key(key.as_str())?;
    match existing {
        Some(task) => {
            let restore_paused: bool = same(task.state.as_str(), "paused");
            let _ = db.set_download_state(task.id.as_str(), "queued");
            Ok(
                StartPlan {
                    task,
                    is_new: false,
                    restore_paused,
                    add_paused: restore_paused || over_limit,
                },
            )
        },
        None => {
            let task = DownloadTask {
                id,
                title,
                episode,
                progress: Progress::none(),
                down_speed: 0,
                up_speed: 0,
                state: "queued".to_owned(),
                output_path: download_dir.to_owned(),
                playback_path: None,
            };
            db.add_download_at(&task, prepared, key.as_str(), now)?;
            Ok(StartPlan { task, is_new: true, restore_paused: false, add_paused: over_limit })
        },
    }
}

/// What the engine made of a download: it has it, it has it not, or it failed for a reason.
#[derive(Debug)]
pub enum AddOutcome {
    Added,
    NoHandle,
    Failed(String),
}

/// The state of a download that the engine took over.
pub open spec fn state_after_adding(restore_paused: bool, add_paused: bool) -> Seq<char> {
    if restore_paused {
        "paused"@
    } else if add_paused {
        "queued"@
    } else {
        "downloading"@
    }
}

/// What comes of a planned download: once the engine has taken it, it is in its state; else it has
/// failed.
pub open spec fn download_finished(
    before: DatabaseView,
    after: DatabaseView,
    plan: StartPlan,
    outcome: AddOutcome,
    r: Result<DownloadTask, String>,
) -> bool {
    match (outcome, r) {
        (AddOutcome::Added, Ok(task)) => {
            let state = state_after_adding(plan.restore_paused, plan.add_paused);
            &&& task@ == (TaskView { state, ..plan.task@ })
            &&& after == before.download_changed(plan.task@.id, in_state(state))
        },
        (AddOutcome::NoHandle, Err(e)) => e@ == "下载引擎未能创建任务，请重试"@ && after
            == before.download_changed(plan.task@.id, in_state("failed"@)),
        (AddOutcome::Failed(reason), Err(e)) => e == reason && after
            == before.download_changed(plan.task@.id, in_state("failed"@)),
        _ => false,
    }
}

/// Notes what the engine made of a download.
pub fn finish_download(db: &mut Database, plan: StartPlan, outcome: AddOutcome) -> (r: Result<
    DownloadTask,
    String,
>)
    requires
        old(db).wf(),
    ensures
        final(db).wf(),
        download_finished(old(db)@, final(db)@, plan, outcome, r),
{
    match outcome {
        AddOutcome::Added => {
            let state: &'static str = if plan.restore_paused {
                "paused"
            } else if plan.add_paused {
                "queued"
            } else {
                "downloading"
            };
            let mut task: DownloadTask = plan.task;
            task.state = state.to_owned();
            let _ = db.set_download_state(task.id.as_str(), state);
            assert(task@ =~= (TaskView { state: state@, ..plan.task@ }));
            Ok(task)
        },
        AddOutcome::NoHandle => {
            let _ = db.set_download_state(plan.task.id.as_str(), "failed");
            Err("下载引擎未能创建任务，请重试".to_owned())
        },
        AddOutcome::Failed(reason) => {
            let _ = db.set_download_state(plan.task.id.as_str(), "failed");
            Err(reason)
        },
    }
}

/// The state in which the engine holds a download.
#[derive(Debug, Clone, Copy, PartialEq, Eq, Structural)]
pub enum EngineState {
    Initializing { paused: bool },
    Live,
    Paused,
    Error,
}

/// What the engine reports of a download. The speeds are there while it is live.
#[derive(Debug, Clone, Copy)]
pub struct EngineStats {
    pub progress_bytes: u64,
    pub total_bytes: u64,
    pub finished: bool,
    pub state: EngineState,
    pub live: Option<(u64, u64)>,
}

/// The state of a download, given the state that was noted and what the engine reports. A
/// download that waits keeps waiting until the engine runs it, though the engine holds it
/// paused.
pub open spec fn observed_state(noted: Seq<char>, stats: EngineStats) -> Seq<char> {
    if stats.finished {
        "completed"@
    } else if stats.state is Error {
        "failed"@
    } else if noted == "queued"@ {
        if stats.state is Live {
            "downloading"@
        } else {
            "queued"@
        }
    } else {
        match stats.state {
            EngineState::Live => "downloading"@,
            EngineState::Paused => "paused"@,
            EngineState::Error => "failed"@,
            EngineState::Initializing { paused } => if paused {
                "paused"@
            } else {
                "downloading"@
            },
        }
    }
}

/// The state of a download, given the state that was noted and what the engine reports.
fn state_from_stats(noted: &str, stats: &EngineStats) -> (state: &'static str)
    ensures
        state@ == observed_state(noted@, *stats),
{
    if stats.finished {
        return "completed";
    }
    let waits: bool = same(noted, "queued");
    match stats.state {
        EngineState::Error => "failed",
        EngineState::Live => "downloading",
        EngineState::Paused => if waits {
            "queued"
        } else {
            "paused"
        },
        EngineState::Initializing { paused } => if waits {
            "queued"
        } else if paused {
            "paused"
        } else {
            "downloading"
        },
    }
}

/// How much is loaded of a download.
pub open spec fn observed_progress(stats: EngineStats) -> Progress {
    if stats.total_bytes > 0 {
        Progress { done: stats.progress_bytes, total: stats.total_bytes }
    } else {
        nothing_done()
    }
}

/// A download after the engine was asked about it. `observed` is the speed that the loaded
/// bytes show; the engine's own estimate counts where it is higher. `video` is the file to
/// play, which is noted when the download completes.
pub open spec fn observed_task(
    task: TaskView,
    stats: EngineStats,
    observed: u64,
    video: Option<Seq<char>>,
) -> TaskView {
    let state = observed_state(task.state, stats);
    let running = state == "downloading"@ && stats.live is Some;
    TaskView {
        progress: observed_progress(stats),
        state,
        down_speed: if running {
            if (stats.live->0).0 > observed {
                (stats.live->0).0
            } else {
                observed
            }
        } else {
            0
        },
        up_speed: if running {
            (stats.live->0).1
        } else {
            0
        },
        playback_path: if just_completed(task.state, stats) && task.playback_path is None {
            video
        } else {
            task.playback_path
        },
        ..task
    }
}

/// Whether a look at a download tells that it just completed: the engine has it finished, and
/// that was not noted.
pub open spec fn just_completed(noted: Seq<char>, stats: EngineStats) -> bool {
    stats.finished && noted != "completed"@
}

/// What the engine says of a download: its report, the speed that the loaded bytes show, its
/// files where they are known, and the file to play.
#[derive(Debug)]
pub struct Observation {
    pub stats: EngineStats,
    pub observed: u64,
    pub files: Option<Vec<StoredFileInfo>>,
    pub video: Option<String>,
}

/// The records after the engine was asked about a download.
pub open spec fn after_observing(
    db: DatabaseView,
    task: TaskView,
    files: Option<Seq<(Seq<char>, u64)>>,
    updated: TaskView,
) -> DatabaseView {
    let noted = match files {
        Some(list) => db.download_changed(task.id, with_files(list)),
        None => db,
    };
    noted.download_changed(updated.id, progressed(updated))
}

/// Notes what the engine says of a download, and whether the download just completed. One
/// that the engine does not have stays as it is.
pub fn observe_download(db: &mut Database, task: DownloadTask, seen: Option<Observation>) -> (r: (
    DownloadTask,
    bool,
))
    requires
        old(db).wf(),
    ensures
        final(db).wf(),
        match seen {
            Some(o) => {
                &&& r.0@ == observed_task(task@, o.stats, o.observed, opt_text(o.video))
                &&& r.1 == just_completed(task@.state, o.stats)
                &&& final(db)@ == after_observing(
                    old(db)@,
                    task@,
                    crate::db::opt_files(o.files),
                    r.0@,
                )
            },
            None => r.0 == task && !r.1 && final(db)@ == old(db)@.download_changed(
                task@.id,
                progressed(task@),
            ),
        },
{
    match seen {
        Some(o) => {
            let mut updated: DownloadTask = task;
            if let Some(files) = &o.files {
                let _ = db.save_download_files(updated.id.as_str(), files);
            }
            let was_completed: bool = same(updated.state.as_str(), "completed");
            let state: &'static str = state_from_stats(updated.state.as_str(), &o.stats);
            updated.progress = if o.stats.total_bytes > 0 {
                Progress { done: o.stats.progress_bytes, total: o.stats.total_bytes }
            } else {
                Progress::none()
            };
            updated.state = state.to_owned();
            let completed: bool = o.stats.finished && !was_completed;
            if completed && updated.playback_path.is_none() {
                updated.playback_path = copy_opt(&o.video);
            }
            match (same(state, "downloading"), o.stats.live) {
                (true, Some((down, up))) => {
                    updated.down_speed = if down > o.observed {
                        down
                    } else {
                        o.observed
                    };
                    updated.up_speed = up;
                },
                _ => {
                    updated.down_speed = 0;
                    updated.up_speed = 0;
                },
            }
            assert(updated@ =~= observed_task(task@, o.stats, o.observed, opt_text(o.video)));
            let _ = db.update_download(&updated);
            (updated, completed)
        },
        None => {
            let _ = db.update_download(&task);
            (task, false)
        },
    }
}

/// The bytes that were loaded since the last look, and the nanoseconds since then.
pub open spec fn sampled(previous: Option<(u64, u64)>, progress_bytes: u64) -> Option<(u64, u64)> {
    match previous {
        Some((bytes, elapsed)) => if elapsed > 250_000_000 && progress_bytes >= bytes {
            Some(((progress_bytes - bytes) as u64, elapsed))
        } else {
            None
        },
        None => None,
    }
}

/// The bytes that were loaded since the last look, and the nanoseconds since then: what a
/// speed is computed from. Nothing within a quarter of a second, or where the count of bytes
/// went back.
pub fn speed_sample(previous: Option<(u64, u64)>, progress_bytes: u64) -> (r: Option<(u64, u64)>)
    ensures
        r == sampled(previous, progress_bytes),
{
    match previous {
        Some((bytes, elapsed)) => if elapsed > 250_000_000 && progress_bytes >= bytes {
            Some((progress_bytes - bytes, elapsed))
        } else {
            None
        },
        None => None,
    }
}

/// A download that is checked in the background: it may just have completed or failed.
/// Otherwise it stays as it is.
pub open spec fn checked_task(
    task: TaskView,
    stats: EngineStats,
    video: Option<Seq<char>>,
) -> TaskView {
    if just_completed(task.state, stats) {
        TaskView {
            state: "completed"@,
            progress: all_done(),
            down_speed: 0,
            up_speed: 0,
            playback_path: if task.playback_path is None {
                video
            } else {
                task.playback_path
            },
            ..task
        }
    } else if stats.state is Error && task.state != "failed"@ {
        TaskView { state: "failed"@, down_speed: 0, up_speed: 0, ..task }
    } else {
        task
    }
}

/// The records after a download was checked: its files are noted where they are known, and what
/// became of it where that is new.
pub open spec fn after_checking(
    db: DatabaseView,
    task: TaskView,
    files: Option<Seq<(Seq<char>, u64)>>,
    updated: TaskView,
) -> DatabaseView {
    let noted = match files {
        Some(list) => db.download_changed(task.id, with_files(list)),
        None => db,
    };
    if updated == task {
        noted
    } else {
        noted.download_changed(task.id, progressed(updated))
    }
}

/// Notes what the engine says of a download that is checked in the background. Gives the
/// title of one that just completed.
pub fn check_download(db: &mut Database, task: DownloadTask, seen: &Observation) -> (title: Option<
    String,
>)
    requires
        old(db).wf(),
    ensures
        final(db).wf(),
        title is Some <==> just_completed(task@.state, seen.stats),
        title matches Some(t) ==> t@ == task@.title,
        final(db)@ == after_checking(
            old(db)@,
            task@,
            crate::db::opt_files(seen.files),
            checked_task(task@, seen.stats, opt_text(seen.video)),
        ),
{
    let mut updated: DownloadTask = task;
    if let Some(files) = &seen.files {
        let _ = db.save_download_files(updated.id.as_str(), files);
    }
    let was_completed: bool = same(updated.state.as_str(), "completed");
    let was_failed: bool = same(updated.state.as_str(), "failed");
    if seen.stats.finished && !was_completed {
        updated.state = "completed".to_owned();
        updated.progress = Progress::full();
        updated.down_speed = 0;
        updated.up_speed = 0;
        if updated.playback_path.is_none() {
            updated.playback_path = copy_opt(&seen.video);
        }
        assert(updated@ =~= checked_task(task@, seen.stats, opt_text(seen.video)));
        assert(updated@.state != task@.state);
        let _ = db.update_download(&updated);
        return Some(updated.title);
    }
    let failed: bool = match seen.stats.state {
        EngineState::Error => true,
        _ => false,
    };
    if failed && !was_failed {
        updated.state = "failed".to_owned();
        updated.down_speed = 0;
        updated.up_speed = 0;
        assert(updated@ =~= checked_task(task@, seen.stats, opt_text(seen.video)));
        assert(updated@.state != task@.state);
        let _ = db.update_download(&updated);
    }
    None
}

/// Completion is told once: the look that tells of it leaves the download complete, so that
/// no other look tells of it, whatever the engine says then.
pub proof fn law_completion_is_told_once(
    task: TaskView,
    look: EngineStats,
    observed: u64,
    video: Option<Seq<char>>,
    next: EngineStats,
)
    requires
        just_completed(task.state, look),
    ensures
        !just_completed(observed_task(task, look, observed, video).state, next),
        !just_completed(checked_task(task, look, video).state, next),
{
}

/// A complete download stays complete as long as the engine has it finished and without an
/// error.
pub proof fn law_complete_stays_complete(
    task: TaskView,
    look: EngineStats,
    observed: u64,
    video: Option<Seq<char>>,
)
    requires
        task.state == "completed"@,
        look.finished,
        !(look.state is Error),
    ensures
        observed_task(task, look, observed, video).state == "completed"@,
        observed_task(task, look, observed, video).playback_path == task.playback_path,
        checked_task(task, look, video) == task,
{
}

/// A download that waits is never shown as paused by the user, whatever the engine holds.
pub proof fn law_waiting_is_not_paused(stats: EngineStats)
    ensures
        observed_state("queued"@, stats) != "paused"@,
{
    reveal_strlit("queued");
    reveal_strlit("paused");
    reveal_strlit("completed");
    reveal_strlit("failed");
    reveal_strlit("downloading");
    assert("paused"@[0] == 'p');
    assert("queued"@[0] == 'q');
    assert("failed"@[0] == 'f');
}

/// The user pauses a download; the engine must have it. Afterwards, once the engine paused
/// it, its state is noted by `note_paused`.
pub fn require_handle(handles: &Vec<String>, id: &str) -> (r: Result<(), String>)
    ensures
        match r {
            Ok(_) => texts(handles@).contains(id@),
            Err(e) => !texts(handles@).contains(id@) && e@ == "任务不存在"@,
        },
{
    if list_has(handles, id) {
        Ok(())
    } else {
        Err("任务不存在".to_owned())
    }
}

/// The records after the user paused a download.
pub open spec fn paused_by_user(db: DatabaseView, id: Seq<char>) -> DatabaseView {
    db.download_changed(id, in_state("paused"@))
}

/// The records after the user resumed a download.
pub open spec fn resumed_by_user(db: DatabaseView, id: Seq<char>) -> DatabaseView {
    db.download_changed(id, in_state("queued"@))
}

/// Notes the answer of the engine to a pause: a download that was paused counts as such.
pub fn note_paused(db: &mut Database, id: &str, answer: Result<(), String>) -> (r: Result<
    (),
    String,
>)
    requires
        old(db).wf(),
    ensures
        final(db).wf(),
        match answer {
            Ok(_) => r is Ok && final(db)@ == paused_by_user(old(db)@, id@),
            Err(reason) => r == Err::<(), String>(reason) && *final(db) == *old(db),
        },
{
    match answer {
        Ok(_) => db.set_download_state(id, "paused"),
        Err(reason) => Err(reason),
    }
}

/// The user resumes a download: it waits for a slot. The engine must have it.
pub fn resume_download(db: &mut Database, handles: &Vec<String>, id: &str) -> (r: Result<
    (),
    String,
>)
    requires
        old(db).wf(),
    ensures
        final(db).wf(),
        match r {
            Ok(_) => texts(handles@).contains(id@) && final(db)@ == resumed_by_user(
                old(db)@,
                id@,
            ),
            Err(e) => !texts(handles@).contains(id@) && *final(db) == *old(db) && e@
                == "任务不存在"@,
        },
{
    require_handle(handles, id)?;
    db.set_download_state(id, "queued")
}

/// Whether a download is stopped when all are paused: it runs or waits, and the engine has
/// it. A finished one stays finished.
pub open spec fn pausable(task: TaskView, handles: Seq<Seq<char>>) -> bool {
    handles.contains(task.id) && (task.state == "downloading"@ || task.state == "queued"@)
}

/// The downloads that are stopped when all are paused.
pub fn pausable_downloads(db: &Database, handles: &Vec<String>) -> (ids: Vec<String>)
    ensures
        texts(ids@) == tasks_latest_first(db@.downloads).filter(
            |t: TaskView| pausable(t, texts(handles@)),
        ).map_values(|t: TaskView| t.id),
{
    let tasks: Vec<DownloadTask> = match db.list_downloads() {
        Ok(tasks) => tasks,
        Err(_) => Vec::new(),
    };
    let ghost all = tasks_latest_first(db@.downloads);
    let ghost p = |t: TaskView| pausable(t, texts(handles@));
    let mut ids: Vec<String> = Vec::new();
    reveal(Seq::filter);
    assert(all.take(0).filter(p) =~= Seq::<TaskView>::empty());
    for i in 0..tasks.len()
        invariant
            all == views(tasks@),
            p == |t: TaskView| pausable(t, texts(handles@)),
            ids@.len() == all.take(i as int).filter(p).len(),
            forall|k: int|
                0 <= k < ids@.len() ==> (#[trigger] ids@[k])@ == all.take(i as int).filter(p)[k].id,
    {
        reveal(Seq::filter);
        assert(all.take(i + 1).drop_last() =~= all.take(i as int));
        assert(all.take(i + 1).last() == tasks@[i as int]@);
        if list_has(handles, tasks[i].id.as_str()) && (same(tasks[i].state.as_str(), "downloading")
            || same(tasks[i].state.as_str(), "queued")) {
            ids.push(tasks[i].id.clone());
        }
    }
    assert(all.take(all.len() as int) =~= all);
    assert(texts(ids@) =~= all.filter(p).map_values(|t: TaskView| t.id));
    ids
}

/// Where a download that is taken up again keeps its files.
pub open spec fn folder_kept(
    output_path: Seq<char>,
    absolute: bool,
    usual: Seq<char>,
) -> Seq<char> {
    if output_path.len() == 0 || !absolute {
        usual
    } else {
        output_path
    }
}

/// Where a download that is taken up again keeps its files: its own directory where that is
/// an absolute path, or else the usual one.
pub fn restore_folder(output_path: &str, absolute: bool, usual: &str) -> (dir: String)
    ensures
        dir@ == folder_kept(output_path@, absolute, usual@),
{
    if output_path.is_empty() || !absolute {
        usual.to_owned()
    } else {
        output_path.to_owned()
    }
}

/// The records after a download is taken up again.
pub open spec fn taken_up(db: DatabaseView, id: Seq<char>, previous: Seq<char>) -> DatabaseView {
    if previous == "downloading"@ {
        db.download_changed(id, in_state("queued"@))
    } else {
        db
    }
}

/// Notes that a download is taken up again: one that was running waits for a slot.
pub fn restore_begin(db: &mut Database, id: &str, previous: &str)
    requires
        old(db).wf(),
    ensures
        final(db).wf(),
        final(db)@ == taken_up(old(db)@, id@, previous@),
{
    if same(previous, "downloading") {
        let _ = db.set_download_state(id, "queued");
    }
}

/// The records after the engine took a download up again, or did not.
pub open spec fn after_taking_up(db: DatabaseView, id: Seq<char>, added: bool) -> DatabaseView {
    if added {
        db
    } else {
        db.download_changed(id, in_state("failed"@))
    }
}

/// Notes whether the engine took a download up again; one that it did not has failed.
pub fn restore_done(db: &mut Database, id: &str, added: bool)
    requires
        old(db).wf(),
    ensures
        final(db).wf(),
        final(db)@ == after_taking_up(old(db)@, id@, added),
{
    if !added {
        let _ = db.set_download_state(id, "failed");
    }
}

/// What is to be done to remove a download: its files have to be found out first, or the
/// engine can release it.
#[derive(Debug)]
pub enum DeleteStep {
    Restore(DownloadDetails),
    Release(DownloadDetails),
}

/// Whether files of a download are known, and at least one.
pub open spec fn files_known(files: Option<Seq<(Seq<char>, u64)>>) -> bool {
    files matches Some(list) && list.len() > 0
}

/// How the removal of a download goes on.
pub enum Removal {
    Release,
    Restore,
    Refuse,
}

/// How the removal of a download goes on, given whether its files are removed too and which are
/// known.
pub open spec fn removal(delete_files: bool, files: Option<Seq<(Seq<char>, u64)>>) -> Removal {
    if !delete_files || files_known(files) {
        Removal::Release
    } else if files is None {
        Removal::Restore
    } else {
        Removal::Refuse
    }
}

/// The records after what the engine knows of the files of a download was noted, where its files
/// are to be removed too.
pub open spec fn files_noted(
    db: DatabaseView,
    id: Seq<char>,
    delete_files: bool,
    current: Option<Seq<(Seq<char>, u64)>>,
) -> DatabaseView {
    if delete_files && current is Some {
        db.download_changed(id, with_files(current->0))
    } else {
        db
    }
}

/// How a download begins to be deleted: its files are noted first, and it is refused where they are
/// to go and are not known.
pub open spec fn deletion_begins(
    before: DatabaseView,
    after: DatabaseView,
    id: Seq<char>,
    delete_files: bool,
    current: Option<Seq<(Seq<char>, u64)>>,
    r: Result<DeleteStep, String>,
) -> bool {
    let found = first(before.downloads, download_has_id(id));
    let noted = files_noted(before, id, delete_files, current);
    let row = first(noted.downloads, download_has_id(id));
    &&& after == if found is Some {
        noted
    } else {
        before
    }
    &&& match r {
        Ok(DeleteStep::Restore(d)) => found is Some && row is Some && details_match(
            d,
            row->0,
        ) && removal(delete_files, (row->0).files) is Restore,
        Ok(DeleteStep::Release(d)) => found is Some && row is Some && details_match(
            d,
            row->0,
        ) && removal(delete_files, (row->0).files) is Release,
        Err(e) => if found is None {
            e@ == "任务不存在"@
        } else {
            row is Some && removal(delete_files, (row->0).files) is Refuse && e@
                == "任务缺少完整文件清单，已保留任务以便重试。"@
        },
    }
}

/// The first step of removing a download. Where its files are to be removed too, they must be
/// known: what the engine knows is noted, and where nothing is known the download has to be
/// restored first.
pub fn delete_begin(
    db: &mut Database,
    id: &str,
    delete_files: bool,
    current: Option<Vec<StoredFileInfo>>,
) -> (r: Result<DeleteStep, String>)
    requires
        old(db).wf(),
    ensures
        final(db).wf(),
        deletion_begins(
            old(db)@,
            final(db)@,
            id@,
            delete_files,
            crate::db::opt_files(current),
            r,
        ),
{
    if db.download_index(id).is_none() {
        return Err("任务不存在".to_owned());
    }
    if delete_files {
        if let Some(files) = &current {
            let _ = db.save_download_files(id, files);
        }
    }
    proof {
        lemma_first_changed(old(db)@, id@, with_files(stored_files(current->0@)));
    }
    match db.download_files_and_paths(id)? {
        Some(details) => {
            if delete_files {
                match &details.files {
                    None => {
                        return Ok(DeleteStep::Restore(details));
                    },
                    Some(list) => {
                        assert(stored_files(list@).len() == list@.len());
                        if list.len() == 0 {
                            assert(stored_files(list@) =~= Seq::<(Seq<char>, u64)>::empty());
                            return Err("任务缺少完整文件清单，已保留任务以便重试。".to_owned());
                        }
                    },
                }
            }
            Ok(DeleteStep::Release(details))
        },
        None => Err("任务不存在".to_owned()),
    }
}

/// The download with an id is found after a change that keeps ids.
proof fn lemma_first_changed(
    db: DatabaseView,
    id: Seq<char>,
    change: spec_fn(DownloadRowView) -> DownloadRowView,
)
    requires
        forall|r: DownloadRowView| (#[trigger] change(r)).task.id == r.task.id,
    ensures
        first(db.downloads, download_has_id(id)) is Some <==> first(
            db.download_changed(id, change).downloads,
            download_has_id(id),
        ) is Some,
{
    let a = db.downloads;
    let b = db.download_changed(id, change).downloads;
    let p = download_has_id(id);
    lemma_first_none(a, p);
    lemma_first_none(b, p);
    if first(a, p) is Some {
        let k = choose|k: int| 0 <= k < a.len() && a[k] == first(a, p)->0;
        assert(b[k] == change(a[k]));
        assert(p(b[k]));
    }
    if first(b, p) is Some {
        let k = choose|k: int| 0 <= k < b.len() && b[k] == first(b, p)->0;
        assert(p(a[k])) by {
            if a[k].task.id != id {
                assert(b[k] == a[k]);
            }
        }
    }
}

/// A download whose files could not be removed is kept: it is noted as paused, so that it
/// occupies no slot, and its source, its place and its files are as they were.
pub proof fn law_failed_removal_keeps_the_record(
    db: DatabaseView,
    id: Seq<char>,
    handles: Seq<Seq<char>>,
)
    requires
        db.wf(),
        some_row(db.downloads, download_has_id(id)),
    ensures
        ({
            let after = db.download_changed(id, in_state("paused"@));
            let before = first(db.downloads, download_has_id(id))->0;
            &&& after.wf()
            &&& first(after.downloads, download_has_id(id)) matches Some(row)
                && !busy(row, handles) && row.source == before.source && row.files == before.files
                && row.task.output_path == before.task.output_path && row.task.playback_path
                == before.task.playback_path
            &&& after.items == db.items
        }),
{
    let after = db.download_changed(id, in_state("paused"@));
    let p = download_has_id(id);
    let k = choose|k: int| 0 <= k < db.downloads.len() && p(#[trigger] db.downloads[k]);
    assert forall|j: int| 0 <= j < k implies !p(#[trigger] db.downloads[j]) by {
        assert(db.downloads[j].task.id != db.downloads[k].task.id);
    }
    assert forall|j: int| 0 <= j < k implies !p(#[trigger] after.downloads[j]) by {
        assert(after.downloads[j] == db.downloads[j]);
        assert(!p(db.downloads[j]));
    }
    assert(after.downloads[k] == in_state("paused"@)(db.downloads[k]));
    crate::rows::lemma_first_at(db.downloads, p, k);
    crate::rows::lemma_first_at(after.downloads, p, k);
    assert forall|i: int, j: int| 0 <= i < j < after.downloads.len() implies (
    #[trigger] after.downloads[i]).task.id != (#[trigger] after.downloads[j]).task.id by {
        assert(after.downloads[i].task.id == db.downloads[i].task.id);
        assert(after.downloads[j].task.id == db.downloads[j].task.id);
    }
    reveal_strlit("paused");
    reveal_strlit("downloading");
    assert("paused"@[0] == 'p' && "downloading"@[0] == 'd');
}

/// The records without a download: no item counts as downloaded by it.
pub open spec fn download_removed(db: DatabaseView, id: Seq<char>) -> DatabaseView {
    db.item_changed(item_of_task(id), not_downloaded()).download_deleted(id)
}

/// The last step of removing a download, after the engine released it and its files were
/// removed where that was asked for.
pub fn delete_finish(db: &mut Database, id: &str)
    requires
        old(db).wf(),
    ensures
        final(db).wf(),
        final(db)@ == download_removed(old(db)@, id@),
{
    let _ = db.reset_rss_download_for_task(id);
    let _ = db.delete_download(id);
}

/// After a download was removed nothing refers to it, and the other downloads and items are
/// as they were.
pub proof fn law_removed_downloads_leave_no_trace(db: DatabaseView, id: Seq<char>)
    requires
        db.wf(),
    ensures
        ({
            let after = download_removed(db, id);
            &&& !some_row(after.downloads, download_has_id(id))
            &&& !some_row(after.items, item_of_task(id))
            &&& forall|row: DownloadRowView|
                db.downloads.contains(row) && row.task.id != id
                    ==> #[trigger] after.downloads.contains(row)
            &&& after.items.len() == db.items.len()
            &&& forall|i: int|
                0 <= i < db.items.len() && db.items[i].download_id != Some(id)
                    ==> #[trigger] after.items[i] == db.items[i]
            &&& after.feeds == db.feeds
        }),
{
    let after = download_removed(db, id);
    let keep = |r: DownloadRowView| r.task.id != id;
    broadcast use vstd::seq_lib::group_filter_ensures;

    assert forall|row: DownloadRowView|
        db.downloads.contains(row) && row.task.id != id implies #[trigger] after.downloads.contains(
        row,
    ) by {
        let i = choose|i: int| 0 <= i < db.downloads.len() && db.downloads[i] == row;
        assert(keep(db.downloads[i]));
    }
    crate::rows::lemma_filter_pairs(
        db.downloads,
        keep,
        |a: DownloadRowView, b: DownloadRowView| true,
    );
    assert forall|i: int| 0 <= i < after.items.len() implies !item_of_task(id)(
        #[trigger] after.items[i],
    ) by {
        if item_of_task(id)(db.items[i]) {
            assert(after.items[i] == not_downloaded()(db.items[i]));
        } else {
            assert(after.items[i] == db.items[i]);
        }
    }
}

} // verus!
