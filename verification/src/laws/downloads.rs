//! What holds of downloads: what a look at the engine shows, which downloads take a slot, wait or
//! start, and what pausing, resuming and removing them leaves.

use crate::db::download_table::{
    download_unfinished, download_usable, in_state, new_download, playing, with_files,
};
use crate::db::{DatabaseView, DownloadRowView};
use crate::downloads::{
    EngineState, EngineStats, active, after_observing, after_taking_up, at_limit, checked_task,
    chosen, cooling, download_removed, existing_download, files_noted, folder_kept,
    handed_over_paused, just_completed, new_task, next_ready, observed_task, pausable,
    paused_by_user, removal, resumed_by_user, reused, sampled, state_after_adding, taken_up,
};
use crate::models::TaskView;
use vstd::prelude::*;

verus! {

/// What the engine reports decides the state that a look shows. A finished download is complete,
/// one with an error has failed, one that runs is downloading. One that the engine holds back is
/// shown as waiting where it was noted so, and as paused otherwise.
pub proof fn law_reports_decide_the_state(
    task: TaskView,
    stats: EngineStats,
    observed: u64,
    video: Option<Seq<char>>,
)
    ensures
        ({
            let state = observed_task(task, stats, observed, video).state;
            let held = stats.state == EngineState::Paused || stats.state
                == (EngineState::Initializing { paused: true });
            &&& stats.finished ==> state == "completed"@
            &&& !stats.finished && stats.state == EngineState::Error ==> state == "failed"@
            &&& !stats.finished && stats.state == EngineState::Live ==> state == "downloading"@
            &&& !stats.finished && held && task.state != "queued"@ ==> state == "paused"@
            &&& !stats.finished && held && task.state == "queued"@ ==> state == "queued"@
            &&& !stats.finished && stats.state == (EngineState::Initializing { paused: false })
                ==> state == if task.state == "queued"@ {
                "queued"@
            } else {
                "downloading"@
            }
        }),
{
}

/// A look shows how many bytes of how many are loaded, and nothing where the size is unknown;
/// the speeds only of a download that runs, of which the loading speed is the greater of the
/// engine's estimate and what was seen. Whose download it is and where it lies stays.
pub proof fn law_looks_show_progress_and_speed(
    task: TaskView,
    stats: EngineStats,
    observed: u64,
    video: Option<Seq<char>>,
)
    ensures
        ({
            let seen = observed_task(task, stats, observed, video);
            let runs = seen.state == "downloading"@ && stats.live is Some;
            &&& stats.total_bytes > 0 ==> seen.progress.done == stats.progress_bytes
                && seen.progress.total == stats.total_bytes
            &&& stats.total_bytes == 0 ==> seen.progress.done == 0
            &&& runs ==> {
                &&& seen.up_speed == (stats.live->0).1
                &&& seen.down_speed >= (stats.live->0).0
                &&& seen.down_speed >= observed
                &&& seen.down_speed == (stats.live->0).0 || seen.down_speed == observed
            }
            &&& !runs ==> seen.down_speed == 0 && seen.up_speed == 0
            &&& seen.id == task.id
            &&& seen.title == task.title
            &&& seen.episode == task.episode
            &&& seen.output_path == task.output_path
        }),
{
}

/// The file to play is noted once, when a look finds the download finished that was not noted as
/// complete; one that is noted stays.
pub proof fn law_the_file_to_play_is_noted_once(
    task: TaskView,
    stats: EngineStats,
    observed: u64,
    video: Option<Seq<char>>,
)
    ensures
        ({
            let seen = observed_task(task, stats, observed, video).playback_path;
            let checked = checked_task(task, stats, video).playback_path;
            &&& just_completed(task.state, stats) <==> stats.finished && task.state
                != "completed"@
            &&& task.playback_path is Some ==> seen == task.playback_path && checked
                == task.playback_path
            &&& task.playback_path is None && stats.finished && task.state != "completed"@
                ==> seen == video && checked == video
            &&& task.playback_path is None && !(stats.finished && task.state != "completed"@)
                ==> seen is None && checked is None
        }),
{
}

/// The check in the background notes completion, with all loaded and no speed left, and failure,
/// which keeps what is loaded. Nothing else changes a download.
pub proof fn law_checks_note_completion_and_failure(
    task: TaskView,
    stats: EngineStats,
    video: Option<Seq<char>>,
)
    ensures
        ({
            let after = checked_task(task, stats, video);
            let completes = stats.finished && task.state != "completed"@;
            let fails = !completes && stats.state == EngineState::Error && task.state
                != "failed"@;
            &&& completes ==> {
                &&& after.state == "completed"@
                &&& after.progress.done == after.progress.total
                &&& after.progress.total > 0
                &&& after.down_speed == 0
                &&& after.up_speed == 0
            }
            &&& fails ==> {
                &&& after.state == "failed"@
                &&& after.progress == task.progress
                &&& after.playback_path == task.playback_path
                &&& after.down_speed == 0
                &&& after.up_speed == 0
            }
            &&& !completes && !fails ==> after == task
            &&& after.id == task.id
            &&& after.title == task.title
            &&& after.episode == task.episode
            &&& after.output_path == task.output_path
        }),
{
}

/// What a look shows of a download is what is stored of it, with the files that the engine
/// knows; its source and when it was added stay, and so do all other downloads and records.
pub proof fn law_looks_are_stored(
    db: DatabaseView,
    task: TaskView,
    files: Option<Seq<(Seq<char>, u64)>>,
    seen: TaskView,
    k: int,
)
    requires
        0 <= k < db.downloads.len(),
        seen.id == task.id,
    ensures
        ({
            let after = after_observing(db, task, files, seen);
            let old = db.downloads[k];
            let new = after.downloads[k];
            &&& after == (DatabaseView { downloads: after.downloads, ..db })
            &&& after.downloads.len() == db.downloads.len()
            &&& old.task.id != task.id ==> new == old
            &&& old.task.id == task.id ==> {
                &&& new.task.state == seen.state
                &&& new.task.progress == seen.progress
                &&& new.task.down_speed == seen.down_speed
                &&& new.task.up_speed == seen.up_speed
                &&& new.task.playback_path == seen.playback_path
                &&& new.task.id == old.task.id
                &&& new.task.title == old.task.title
                &&& new.task.episode == old.task.episode
                &&& new.task.output_path == old.task.output_path
                &&& new.files == if files is Some {
                    files
                } else {
                    old.files
                }
                &&& new.source == old.source
                &&& new.source_key == old.source_key
                &&& new.created_at == old.created_at
            }
        }),
{
}

/// A change of one download changes only what it says: its state, its file to play or its files.
pub proof fn law_changes_touch_one_download(
    db: DatabaseView,
    id: Seq<char>,
    state: Seq<char>,
    path: Seq<char>,
    files: Seq<(Seq<char>, u64)>,
    k: int,
)
    requires
        0 <= k < db.downloads.len(),
    ensures
        ({
            let old = db.downloads[k];
            let moved = db.download_changed(id, in_state(state));
            let played = db.download_changed(id, playing(path));
            let listed = db.download_changed(id, with_files(files));
            &&& moved == (DatabaseView { downloads: moved.downloads, ..db })
            &&& moved.downloads.len() == db.downloads.len()
            &&& old.task.id != id ==> moved.downloads[k] == old && played.downloads[k] == old
                && listed.downloads[k] == old
            &&& old.task.id == id ==> {
                &&& moved.downloads[k].task.state == state
                &&& moved.downloads[k] == (DownloadRowView {
                    task: TaskView { state: moved.downloads[k].task.state, ..old.task },
                    ..old
                })
                &&& played.downloads[k].task.playback_path == Some(path)
                &&& played.downloads[k].task.state == old.task.state
                &&& played.downloads[k].files == old.files
                &&& listed.downloads[k].files == Some(files)
                &&& listed.downloads[k].task == old.task
                &&& listed.downloads[k].source == old.source
            }
        }),
{
}

/// A new download waits, with nothing loaded, under the title, the episode and in the folder
/// that were given; it is stored last, with its source, its key and its time.
pub proof fn law_new_downloads_wait(
    db: DatabaseView,
    id: Seq<char>,
    title: Seq<char>,
    episode: Seq<char>,
    folder: Seq<char>,
    source: Seq<char>,
    key: Seq<char>,
    now: Seq<char>,
)
    ensures
        ({
            let task = new_task(id, title, episode, folder);
            let after = db.download_added(new_download(task, source, key, now));
            let row = after.downloads.last();
            &&& after.downloads.drop_last() == db.downloads
            &&& row.task == task
            &&& task.id == id
            &&& task.title == title
            &&& task.episode == episode
            &&& task.output_path == folder
            &&& task.state == "queued"@
            &&& task.progress.done == 0
            &&& task.down_speed == 0
            &&& task.up_speed == 0
            &&& task.playback_path is None
            &&& row.source == source
            &&& row.source_key == key
            &&& row.created_at == now
            &&& row.files is None
            &&& after == (DatabaseView { downloads: after.downloads, ..db })
        }),
{
    let task = new_task(id, title, episode, folder);
    let row = new_download(task, source, key, now);
    assert(db.downloads.push(row).drop_last() =~= db.downloads);
    assert(row.task =~= task);
}

/// One more download takes a slot exactly where it is downloading and the engine has it. The
/// limit is reached where as many take one as it allows; zero is no limit.
pub proof fn law_running_downloads_take_slots(
    rows: Seq<DownloadRowView>,
    row: DownloadRowView,
    handles: Seq<Seq<char>>,
    max: u32,
)
    ensures
        active(Seq::<DownloadRowView>::empty(), handles) == 0,
        active(rows.push(row), handles) == active(rows, handles) + if row.task.state
            == "downloading"@ && handles.contains(row.task.id) {
            1int
        } else {
            0int
        },
        at_limit(rows, handles, max) <==> max != 0 && max <= active(rows, handles),
{
    assert(rows.push(row).drop_last() =~= rows);
}

/// A failed start keeps a download from being started for ten seconds, and no other one.
pub proof fn law_failed_starts_rest_for_ten_seconds(
    failures: Seq<(Seq<char>, u64)>,
    id: Seq<char>,
    other: Seq<char>,
    seconds: u64,
)
    ensures
        !cooling(Seq::<(Seq<char>, u64)>::empty(), id),
        cooling(failures.push((other, seconds)), id) <==> cooling(failures, id) || (other == id
            && seconds < 10),
{
    let more = failures.push((other, seconds));
    if cooling(failures, id) {
        let i = choose|i: int|
            0 <= i < failures.len() && (#[trigger] failures[i]).0 == id && failures[i].1 < 10;
        assert(more[i] == failures[i]);
    }
    if other == id && seconds < 10 {
        assert(more[failures.len() as int] == (other, seconds));
    }
    if cooling(more, id) {
        let i = choose|i: int| 0 <= i < more.len() && (#[trigger] more[i]).0 == id && more[i].1 < 10;
        if i < failures.len() {
            assert(failures[i] == more[i]);
        }
    }
}

proof fn lemma_next_ready(
    ids: Seq<Seq<char>>,
    from: int,
    handles: Seq<Seq<char>>,
    failures: Seq<(Seq<char>, u64)>,
)
    requires
        0 <= from,
    ensures
        match next_ready(ids, from, handles, failures) {
            Some(k) => {
                &&& from <= k < ids.len()
                &&& handles.contains(ids[k])
                &&& !cooling(failures, ids[k])
                &&& forall|j: int|
                    from <= j < k ==> !handles.contains(#[trigger] ids[j]) || cooling(
                        failures,
                        ids[j],
                    )
            },
            None => forall|j: int|
                from <= j < ids.len() ==> !handles.contains(#[trigger] ids[j]) || cooling(
                    failures,
                    ids[j],
                ),
        },
    decreases ids.len() - from,
{
    if from < ids.len() {
        lemma_next_ready(ids, from + 1, handles, failures);
    }
}

/// While a slot is free, the next download that starts is the first in line that the engine has
/// and whose start did not just fail; none starts only where there is no such download.
pub proof fn law_the_first_in_line_starts(
    rows: Seq<DownloadRowView>,
    ids: Seq<Seq<char>>,
    from: int,
    handles: Seq<Seq<char>>,
    failures: Seq<(Seq<char>, u64)>,
    max: u32,
)
    requires
        0 <= from,
    ensures
        match chosen(rows, ids, from, handles, failures, max) {
            Some(k) => {
                &&& max == 0 || active(rows, handles) < max
                &&& from <= k < ids.len()
                &&& handles.contains(ids[k])
                &&& !cooling(failures, ids[k])
                &&& forall|j: int|
                    from <= j < k ==> !handles.contains(#[trigger] ids[j]) || cooling(
                        failures,
                        ids[j],
                    )
            },
            None => (max > 0 && active(rows, handles) >= max) || forall|j: int|
                from <= j < ids.len() ==> !handles.contains(#[trigger] ids[j]) || cooling(
                    failures,
                    ids[j],
                ),
        },
{
    lemma_next_ready(ids, from, handles, failures);
}

/// Once the engine has a download, one that the user paused stays paused, one that exceeds the
/// limit waits, and any other runs.
pub proof fn law_added_downloads_run_wait_or_rest(restore_paused: bool, add_paused: bool)
    ensures
        restore_paused ==> state_after_adding(restore_paused, add_paused) == "paused"@,
        !restore_paused && add_paused ==> state_after_adding(restore_paused, add_paused)
            == "queued"@,
        !restore_paused && !add_paused ==> state_after_adding(restore_paused, add_paused)
            == "downloading"@,
{
}

/// A source that is known is not downloaded again where the engine has its download or it is
/// complete. The download that is known has the same key, did not fail, and no later one does.
pub proof fn law_known_sources_are_reused(
    db: DatabaseView,
    source: Seq<char>,
    handles: Seq<Seq<char>>,
)
    ensures
        ({
            let key = crate::links::source_key(source);
            let known = existing_download(db, source);
            &&& reused(db, source, handles) <==> known is Some && (handles.contains(
                known->0.task.id,
            ) || known->0.task.state == "completed"@)
            &&& known matches Some(row) ==> {
                &&& db.downloads.contains(row)
                &&& row.source_key == key
                &&& row.task.state != "failed"@
                &&& forall|i: int|
                    0 <= i < db.downloads.len() && (#[trigger] db.downloads[i]).source_key == key
                        && db.downloads[i].task.state != "failed"@ ==> !crate::order::text_lt(
                        row.created_at,
                        db.downloads[i].created_at,
                    )
            }
            &&& known is None ==> forall|i: int|
                0 <= i < db.downloads.len() && (#[trigger] db.downloads[i]).source_key == key
                    ==> db.downloads[i].task.state == "failed"@
        }),
{
    let p = download_usable(crate::links::source_key(source));
    crate::db::download_table::law_latest_is_last(db.downloads, p);
    if let Some(row) = existing_download(db, source) {
        assert(p(row));
        assert forall|i: int|
            0 <= i < db.downloads.len() && (#[trigger] db.downloads[i]).source_key
                == crate::links::source_key(source) && db.downloads[i].task.state
                != "failed"@ implies !crate::order::text_lt(
            row.created_at,
            db.downloads[i].created_at,
        ) by {
            assert(p(db.downloads[i]));
        }
    } else {
        assert forall|i: int|
            0 <= i < db.downloads.len() && (#[trigger] db.downloads[i]).source_key
                == crate::links::source_key(source) implies db.downloads[i].task.state
            == "failed"@ by {
            if db.downloads[i].task.state != "failed"@ {
                assert(p(db.downloads[i]));
            }
        }
    }
}

/// Pausing everything stops the downloads of the engine that run or wait, and taking up again
/// those that run, wait or are paused; complete and failed ones are left alone.
pub proof fn law_only_unfinished_downloads_are_touched(
    row: DownloadRowView,
    handles: Seq<Seq<char>>,
)
    ensures
        pausable(row.task, handles) <==> handles.contains(row.task.id) && (row.task.state
            == "downloading"@ || row.task.state == "queued"@),
        download_unfinished()(row) <==> row.task.state == "queued"@ || row.task.state
            == "downloading"@ || row.task.state == "paused"@,
        row.task.state == "completed"@ || row.task.state == "failed"@ ==> !pausable(
            row.task,
            handles,
        ) && !download_unfinished()(row),
{
    reveal_strlit("completed");
    reveal_strlit("failed");
    reveal_strlit("downloading");
    reveal_strlit("queued");
    reveal_strlit("paused");
    assert("completed"@[0] == 'c' && "failed"@[0] == 'f');
    assert("downloading"@[0] == 'd' && "queued"@[0] == 'q' && "paused"@[0] == 'p');
}

/// A download that was added before is handed over paused where the user paused it or no slot is
/// free. So it ends up paused, waiting or running, in this order.
pub proof fn law_known_downloads_are_added_as_they_were(noted: Seq<char>, full: bool)
    ensures
        handed_over_paused("paused"@, full),
        handed_over_paused(noted, true),
        noted != "paused"@ ==> !handed_over_paused(noted, false),
        ({
            let state = state_after_adding(noted == "paused"@, handed_over_paused(noted, full));
            &&& noted == "paused"@ ==> state == "paused"@
            &&& noted != "paused"@ && full ==> state == "queued"@
            &&& noted != "paused"@ && !full ==> state == "downloading"@
        }),
{
}

/// A speed is computed from the bytes since the last look and the time since then, where more
/// than a quarter of a second passed and the count did not go back.
pub proof fn law_speeds_come_from_two_looks(bytes: u64, elapsed: u64, now: u64)
    ensures
        sampled(None, now) is None,
        elapsed <= 250_000_000 || now < bytes ==> sampled(Some((bytes, elapsed)), now) is None,
        elapsed > 250_000_000 && now >= bytes ==> {
            let sample = sampled(Some((bytes, elapsed)), now);
            sample is Some && (sample->0).0 + bytes == now && (sample->0).1 == elapsed
        },
{
}

/// A download that is taken up again keeps its own folder where that is an absolute path that is
/// not empty, and has the usual one otherwise.
pub proof fn law_folders_are_kept(path: Seq<char>, usual: Seq<char>)
    ensures
        folder_kept(path, false, usual) == usual,
        folder_kept(Seq::empty(), true, usual) == usual,
        path.len() > 0 ==> folder_kept(path, true, usual) == path,
{
}

/// When downloads are taken up again, one that ran waits for a slot, and any other is left as it
/// was. One that the engine does not take has failed. Pausing leaves a download paused and
/// resuming leaves it waiting; no other download changes.
pub proof fn law_downloads_are_taken_up_paused_and_resumed(
    db: DatabaseView,
    id: Seq<char>,
    previous: Seq<char>,
    k: int,
)
    requires
        0 <= k < db.downloads.len(),
    ensures
        previous != "downloading"@ ==> taken_up(db, id, previous) == db,
        after_taking_up(db, id, true) == db,
        db.downloads[k].task.id == id ==> {
            &&& taken_up(db, id, "downloading"@).downloads[k].task.state == "queued"@
            &&& after_taking_up(db, id, false).downloads[k].task.state == "failed"@
            &&& paused_by_user(db, id).downloads[k].task.state == "paused"@
            &&& resumed_by_user(db, id).downloads[k].task.state == "queued"@
        },
        db.downloads[k].task.id != id ==> {
            &&& taken_up(db, id, previous).downloads[k] == db.downloads[k]
            &&& after_taking_up(db, id, false).downloads[k] == db.downloads[k]
            &&& paused_by_user(db, id).downloads[k] == db.downloads[k]
            &&& resumed_by_user(db, id).downloads[k] == db.downloads[k]
        },
{
}

/// A download whose files are kept is released at once. Where its files go too, they are known
/// first: what the engine knows counts, or else what was stored; where nothing was, the download
/// is restored, and where the list is empty, it is kept.
pub proof fn law_files_are_known_before_they_go(
    db: DatabaseView,
    id: Seq<char>,
    current: Option<Seq<(Seq<char>, u64)>>,
    k: int,
)
    requires
        0 <= k < db.downloads.len(),
        db.downloads[k].task.id == id,
    ensures
        ({
            let stored = db.downloads[k].files;
            let known = files_noted(db, id, true, current).downloads[k].files;
            &&& files_noted(db, id, false, current) == db
            &&& removal(false, stored) is Release
            &&& known == if current is Some {
                current
            } else {
                stored
            }
            &&& removal(true, known) is Restore <==> known is None
            &&& removal(true, known) is Refuse <==> known is Some && known->0.len() == 0
            &&& removal(true, known) is Release <==> known is Some && known->0.len() > 0
        }),
{
}

/// A removed download leaves the others as they are, and the items that it was made for are no longer
/// downloaded; other items stay as they are.
pub proof fn law_removed_downloads_free_their_items(
    db: DatabaseView,
    id: Seq<char>,
    row: DownloadRowView,
    k: int,
)
    ensures
        ({
            let after = download_removed(db, id);
            &&& after.downloads.contains(row) <==> db.downloads.contains(row) && row.task.id != id
            &&& after.items.len() == db.items.len()
            &&& 0 <= k < db.items.len() && db.items[k].download_id == Some(id) ==> {
                &&& !after.items[k].downloaded
                &&& after.items[k].download_id is None
                &&& after.items[k].guid == db.items[k].guid
                &&& after.items[k].title == db.items[k].title
            }
            &&& 0 <= k < db.items.len() && db.items[k].download_id != Some(id) ==> after.items[k]
                == db.items[k]
            &&& after.feeds == db.feeds
            &&& after.sync == db.sync
        }),
{
    let keep = |r: DownloadRowView| r.task.id != id;
    let after = download_removed(db, id).downloads;
    assert(after =~= db.downloads.filter(keep));
    if after.contains(row) {
        db.downloads.lemma_filter_contains_rev(keep, row);
        let i = choose|i: int| 0 <= i < after.len() && after[i] == row;
        db.downloads.lemma_filter_pred(keep, i);
    }
    if db.downloads.contains(row) && keep(row) {
        let i = choose|i: int| 0 <= i < db.downloads.len() && db.downloads[i] == row;
        db.downloads.lemma_filter_contains(keep, i);
    }
}

} // verus!
