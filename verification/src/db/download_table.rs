//! The downloads of the database.

use super::{Database, DatabaseView, DownloadRow, DownloadRowView, opt_files};
use crate::clock::{is_clock_text, now_text};
use crate::models::{
    DownloadTask, Progress, StoredFileInfo, TaskView, copy_files, nothing_done, stored_files,
};
use crate::order::{
    lemma_lt_irreflexive, lemma_lt_transitive, less, order_by, ordered, sorted_rows, text_lt,
};
use crate::rows::{
    first, lemma_filter_pairs, lemma_first_at, lemma_first_none, opt_view, retain, some_row, views,
};
use crate::text::{copy_opt, opt_text, same, texts};
use vstd::prelude::*;

verus! {

/// When the downloads were added.
pub open spec fn creation_times(rows: Seq<DownloadRowView>) -> Seq<Seq<char>> {
    rows.map_values(|r: DownloadRowView| r.created_at)
}

/// The tasks, the latest first.
pub open spec fn tasks_latest_first(rows: Seq<DownloadRowView>) -> Seq<TaskView> {
    sorted_rows(rows, creation_times(rows), true).map_values(|r: DownloadRowView| r.task)
}

/// Whether a download has the id.
pub open spec fn download_has_id(id: Seq<char>) -> spec_fn(DownloadRowView) -> bool {
    |r: DownloadRowView| r.task.id == id
}

/// Whether a download has the source key and did not fail.
pub open spec fn download_usable(key: Seq<char>) -> spec_fn(DownloadRowView) -> bool {
    |r: DownloadRowView| r.source_key == key && r.task.state != "failed"@
}

/// Whether a download is to be taken up again when the application starts.
pub open spec fn download_unfinished() -> spec_fn(DownloadRowView) -> bool {
    |r: DownloadRowView|
        r.task.state == "queued"@ || r.task.state == "downloading"@ || r.task.state == "paused"@
}

/// The row with a property that was added last; the first of those added at the same
/// time.
pub open spec fn latest(
    rows: Seq<DownloadRowView>,
    p: spec_fn(DownloadRowView) -> bool,
) -> Option<DownloadRowView>
    decreases rows.len(),
{
    if rows.len() == 0 {
        None
    } else {
        let row = rows.last();
        match latest(rows.drop_last(), p) {
            Some(best) => if p(row) && text_lt(best.created_at, row.created_at) {
                Some(row)
            } else {
                Some(best)
            },
            None => if p(row) {
                Some(row)
            } else {
                None
            },
        }
    }
}

/// The row that was added last has the property, and none with the property was added
/// later.
pub proof fn law_latest_is_last(rows: Seq<DownloadRowView>, p: spec_fn(DownloadRowView) -> bool)
    ensures
        latest(rows, p) is Some <==> some_row(rows, p),
        latest(rows, p) matches Some(best) ==> rows.contains(best) && p(best) && (forall|i: int|
            0 <= i < rows.len() && p(#[trigger] rows[i]) ==> !text_lt(
                best.created_at,
                rows[i].created_at,
            )),
    decreases rows.len(),
{
    if rows.len() > 0 {
        let rest = rows.drop_last();
        let row = rows.last();
        law_latest_is_last(rest, p);
        if let Some(best) = latest(rows, p) {
            match latest(rest, p) {
                Some(b) => {
                    let k = choose|k: int| 0 <= k < rest.len() && rest[k] == b;
                    assert(rows[k] == b);
                    assert(some_row(rows, p));
                },
                None => {
                    assert(rows[rows.len() - 1] == row);
                },
            }
            assert forall|i: int| 0 <= i < rows.len() && p(#[trigger] rows[i]) implies !text_lt(
                best.created_at,
                rows[i].created_at,
            ) by {
                if i < rest.len() {
                    assert(rest[i] == rows[i]);
                    assert(some_row(rest, p));
                    let b = latest(rest, p)->0;
                    if text_lt(best.created_at, rows[i].created_at) {
                        if best != b {
                            lemma_lt_transitive(
                                b.created_at,
                                best.created_at,
                                rows[i].created_at,
                            );
                        }
                    }
                } else {
                    lemma_lt_irreflexive(row.created_at);
                }
            }
            assert(rows.contains(best));
        } else {
            assert forall|i: int| 0 <= i < rows.len() implies !p(#[trigger] rows[i]) by {
                if i < rest.len() {
                    assert(rest[i] == rows[i]);
                    if p(rest[i]) {
                        assert(some_row(rest, p));
                    }
                }
            }
        }
    }
}

/// The downloads with a change made to the one with the id.
pub open spec fn downloads_changed(
    rows: Seq<DownloadRowView>,
    id: Seq<char>,
    change: spec_fn(DownloadRowView) -> DownloadRowView,
) -> Seq<DownloadRowView> {
    rows.map_values(
        |r: DownloadRowView|
            if r.task.id == id {
                change(r)
            } else {
                r
            },
    )
}

/// A new download: nothing of it is loaded yet.
pub open spec fn new_download(
    task: TaskView,
    source: Seq<char>,
    source_key: Seq<char>,
    now: Seq<char>,
) -> DownloadRowView {
    DownloadRowView {
        task: TaskView {
            progress: nothing_done(),
            down_speed: 0,
            up_speed: 0,
            playback_path: None,
            ..task
        },
        source,
        source_key,
        created_at: now,
        files: None,
    }
}

/// A change of a download: what was seen of its progress.
pub open spec fn progressed(task: TaskView) -> spec_fn(DownloadRowView) -> DownloadRowView {
    |r: DownloadRowView|
        DownloadRowView {
            task: TaskView {
                progress: task.progress,
                down_speed: task.down_speed,
                up_speed: task.up_speed,
                state: task.state,
                playback_path: task.playback_path,
                ..r.task
            },
            ..r
        }
}

/// A change of a download: its state.
pub open spec fn in_state(state: Seq<char>) -> spec_fn(DownloadRowView) -> DownloadRowView {
    |r: DownloadRowView| DownloadRowView { task: TaskView { state, ..r.task }, ..r }
}

/// A change of a download: the file to play.
pub open spec fn playing(path: Seq<char>) -> spec_fn(DownloadRowView) -> DownloadRowView {
    |r: DownloadRowView|
        DownloadRowView { task: TaskView { playback_path: Some(path), ..r.task }, ..r }
}

/// A change of a download: its files.
pub open spec fn with_files(files: Seq<(Seq<char>, u64)>) -> spec_fn(
    DownloadRowView,
) -> DownloadRowView {
    |r: DownloadRowView| DownloadRowView { files: Some(files), ..r }
}

impl DatabaseView {
    /// The records after a download was put in.
    pub open spec fn download_added(self, row: DownloadRowView) -> DatabaseView {
        DatabaseView { downloads: self.downloads.push(row), ..self }
    }

    /// The records after a change of the download with the id.
    pub open spec fn download_changed(
        self,
        id: Seq<char>,
        change: spec_fn(DownloadRowView) -> DownloadRowView,
    ) -> DatabaseView {
        DatabaseView { downloads: downloads_changed(self.downloads, id, change), ..self }
    }

    /// The records without the download with the id.
    pub open spec fn download_deleted(self, id: Seq<char>) -> DatabaseView {
        DatabaseView {
            downloads: self.downloads.filter(|r: DownloadRowView| r.task.id != id),
            ..self
        }
    }
}

/// What is needed to take a download up again or to remove its files.
#[derive(Debug)]
pub struct DownloadDetails {
    pub source: String,
    pub output_path: String,
    pub playback_path: Option<String>,
    pub files: Option<Vec<StoredFileInfo>>,
}

/// Whether the details are those of the download.
pub open spec fn details_match(details: DownloadDetails, row: DownloadRowView) -> bool {
    &&& details.source@ == row.source
    &&& details.output_path@ == row.task.output_path
    &&& opt_text(details.playback_path) == row.task.playback_path
    &&& opt_files(details.files) == row.files
}

/// A copy of the files of a download, if they are known.
fn copy_opt_files(files: &Option<Vec<StoredFileInfo>>) -> (copy: Option<Vec<StoredFileInfo>>)
    ensures
        opt_files(copy) == opt_files(*files),
{
    match files {
        Some(list) => Some(copy_files(list)),
        None => None,
    }
}

impl Database {
    /// Where the download with an id stands.
    pub(crate) fn download_index(&self, id: &str) -> (r: Option<usize>)
        ensures
            match r {
                Some(i) => i < self.downloads@.len() && self.downloads@[i as int].task.id@ == id@
                    && first(self@.downloads, download_has_id(id@)) == Some(
                    self.downloads@[i as int]@,
                ),
                None => (forall|j: int|
                    0 <= j < self.downloads@.len() ==> (#[trigger] self.downloads@[j]).task.id@
                        != id@) && first(self@.downloads, download_has_id(id@)) is None,
            },
    {
        let ghost all = self@.downloads;
        for i in 0..self.downloads.len()
            invariant
                all == views(self.downloads@),
                forall|j: int| 0 <= j < i ==> (#[trigger] self.downloads@[j]).task.id@ != id@,
                forall|j: int| 0 <= j < i ==> !download_has_id(id@)(#[trigger] all[j]),
        {
            if same(self.downloads[i].task.id.as_str(), id) {
                proof {
                    lemma_first_at(all, download_has_id(id@), i as int);
                }
                return Some(i);
            }
        }
        proof {
            lemma_first_none(all, download_has_id(id@));
        }
        None
    }

    /// The tasks, the latest first.
    pub fn list_downloads(&self) -> (r: Result<Vec<DownloadTask>, String>)
        ensures
            r is Ok,
            views(r->Ok_0@) == tasks_latest_first(self@.downloads),
            r->Ok_0@.len() == self.downloads@.len(),
    {
        let ghost all = self@.downloads;
        let mut times: Vec<String> = Vec::new();
        for i in 0..self.downloads.len()
            invariant
                all == views(self.downloads@),
                times@.len() == i,
                forall|j: int| 0 <= j < i ==> (#[trigger] times@[j])@ == all[j].created_at,
        {
            times.push(self.downloads[i].created_at.clone());
        }
        assert(texts(times@) =~= creation_times(all));
        let order: Vec<usize> = order_by(&times, true);
        let ghost sorted = ordered(creation_times(all), true);
        let mut list: Vec<DownloadTask> = Vec::new();
        for p in 0..order.len()
            invariant
                all == views(self.downloads@),
                order@.map_values(|i: usize| i as int) == sorted,
                forall|q: int| 0 <= q < order@.len() ==> #[trigger] order@[q] < all.len(),
                list@.len() == p,
                forall|q: int| 0 <= q < p ==> (#[trigger] list@[q])@ == all[sorted[q]].task,
        {
            list.push(self.downloads[order[p]].task.clone());
            assert(sorted[p as int] == order@[p as int]);
        }
        assert(views(list@) =~= tasks_latest_first(all));
        Ok(list)
    }

    /// Puts a download in, at the time `now`. Its id must be new.
    pub fn add_download_at(
        &mut self,
        task: &DownloadTask,
        source: &str,
        source_key: &str,
        now: &str,
    ) -> (r: Result<(), String>)
        requires
            old(self).wf(),
        ensures
            final(self).wf(),
            match r {
                Ok(_) => !some_row(old(self)@.downloads, download_has_id(task@.id)) && final(self)@
                    == old(self)@.download_added(
                    new_download(task@, source@, source_key@, now@),
                ),
                Err(e) => some_row(old(self)@.downloads, download_has_id(task@.id)) && *final(self)
                    == *old(self) && e@ == "UNIQUE constraint failed: downloads.id"@,
            },
    {
        let ghost all = self@.downloads;
        proof {
            lemma_first_none(all, download_has_id(task@.id));
        }
        if self.download_index(task.id.as_str()).is_some() {
            return Err("UNIQUE constraint failed: downloads.id".to_owned());
        }
        let row = DownloadRow {
            task: DownloadTask {
                id: task.id.clone(),
                title: task.title.clone(),
                episode: task.episode.clone(),
                progress: Progress::none(),
                down_speed: 0,
                up_speed: 0,
                state: task.state.clone(),
                output_path: task.output_path.clone(),
                playback_path: None,
            },
            source: source.to_owned(),
            source_key: source_key.to_owned(),
            created_at: now.to_owned(),
            files: None,
        };
        self.downloads.push(row);
        assert(self@.downloads =~= all.push(row@));
        assert(self@ =~= old(self)@.download_added(
            new_download(task@, source@, source_key@, now@),
        ));
        Ok(())
    }

    /// Puts a download in. Its id must be new.
    pub fn add_download(&mut self, task: &DownloadTask, source: &str, source_key: &str) -> (r:
        Result<(), String>)
        requires
            old(self).wf(),
        ensures
            final(self).wf(),
            match r {
                Ok(_) => !some_row(old(self)@.downloads, download_has_id(task@.id)) && exists|
                    now: Seq<char>,
                |
                    is_clock_text(now) && final(self)@ == old(self)@.download_added(
                        #[trigger] new_download(task@, source@, source_key@, now),
                    ),
                Err(e) => some_row(old(self)@.downloads, download_has_id(task@.id)) && *final(self)
                    == *old(self) && e@ == "UNIQUE constraint failed: downloads.id"@,
            },
    {
        let now = now_text();
        self.add_download_at(task, source, source_key, now.as_str())
    }

    /// The latest download with a source key that did not fail.
    pub fn download_by_source_key(&self, source_key: &str) -> (r: Result<
        Option<DownloadTask>,
        String,
    >)
        ensures
            r is Ok,
            opt_view(r->Ok_0) == match latest(self@.downloads, download_usable(source_key@)) {
                Some(row) => Some(row.task),
                None => None,
            },
    {
        let ghost all = self@.downloads;
        let ghost p = download_usable(source_key@);
        let mut best: Option<usize> = None;
        for i in 0..self.downloads.len()
            invariant
                all == views(self.downloads@),
                p == download_usable(source_key@),
                match best {
                    Some(k) => k < i && latest(all.take(i as int), p) == Some(all[k as int]),
                    None => latest(all.take(i as int), p) is None,
                },
        {
            assert(all.take(i + 1).drop_last() =~= all.take(i as int));
            assert(all[i as int] == self.downloads@[i as int]@);
            if same(self.downloads[i].source_key.as_str(), source_key) && !same(
                self.downloads[i].task.state.as_str(),
                "failed",
            ) {
                match best {
                    Some(k) => {
                        assert(all[k as int] == self.downloads@[k as int]@);
                        if less(
                            self.downloads[k].created_at.as_str(),
                            self.downloads[i].created_at.as_str(),
                        ) {
                            best = Some(i);
                        }
                    },
                    None => {
                        best = Some(i);
                    },
                }
            }
        }
        assert(all.take(all.len() as int) =~= all);
        match best {
            Some(k) => Ok(Some(self.downloads[k].task.clone())),
            None => Ok(None),
        }
    }

    /// Notes what was seen of the progress of a download.
    pub fn update_download(&mut self, task: &DownloadTask) -> (r: Result<(), String>)
        requires
            old(self).wf(),
        ensures
            r is Ok,
            final(self).wf(),
            final(self)@ == old(self)@.download_changed(task@.id, progressed(task@)),
    {
        let at: Option<usize> = self.download_index(task.id.as_str());
        if let Some(i) = at {
            self.downloads[i].task.progress = task.progress;
            self.downloads[i].task.down_speed = task.down_speed;
            self.downloads[i].task.up_speed = task.up_speed;
            self.downloads[i].task.state = task.state.clone();
            self.downloads[i].task.playback_path = copy_opt(&task.playback_path);
        }
        proof {
            lemma_download_changed(*old(self), *self, at, task@.id, progressed(task@));
        }
        Ok(())
    }

    /// Puts a download in another state.
    pub fn set_download_state(&mut self, id: &str, state: &str) -> (r: Result<(), String>)
        requires
            old(self).wf(),
        ensures
            r is Ok,
            final(self).wf(),
            final(self)@ == old(self)@.download_changed(id@, in_state(state@)),
    {
        let at: Option<usize> = self.download_index(id);
        if let Some(i) = at {
            self.downloads[i].task.state = state.to_owned();
        }
        proof {
            lemma_download_changed(*old(self), *self, at, id@, in_state(state@));
        }
        Ok(())
    }

    /// Notes the file to play of a download.
    pub fn set_playback_path(&mut self, id: &str, path: &str) -> (r: Result<(), String>)
        requires
            old(self).wf(),
        ensures
            r is Ok,
            final(self).wf(),
            final(self)@ == old(self)@.download_changed(id@, playing(path@)),
    {
        let at: Option<usize> = self.download_index(id);
        if let Some(i) = at {
            self.downloads[i].task.playback_path = Some(path.to_owned());
        }
        proof {
            lemma_download_changed(*old(self), *self, at, id@, playing(path@));
        }
        Ok(())
    }

    /// Notes the files of a download.
    pub fn save_download_files(&mut self, id: &str, files: &Vec<StoredFileInfo>) -> (r: Result<
        (),
        String,
    >)
        requires
            old(self).wf(),
        ensures
            r is Ok,
            final(self).wf(),
            final(self)@ == old(self)@.download_changed(id@, with_files(stored_files(files@))),
    {
        let at: Option<usize> = self.download_index(id);
        if let Some(i) = at {
            self.downloads[i].files = Some(copy_files(files));
        }
        proof {
            lemma_download_changed(*old(self), *self, at, id@, with_files(stored_files(files@)));
        }
        Ok(())
    }

    /// Takes a download out.
    pub fn delete_download(&mut self, id: &str) -> (r: Result<(), String>)
        requires
            old(self).wf(),
        ensures
            r is Ok,
            final(self).wf(),
            final(self)@ == old(self)@.download_deleted(id@),
    {
        let ghost keep_row = |r: DownloadRowView| r.task.id != id@;
        let mut keep: Vec<bool> = Vec::new();
        for i in 0..self.downloads.len()
            invariant
                keep_row == |r: DownloadRowView| r.task.id != id@,
                keep@.len() == i,
                forall|j: int| 0 <= j < i ==> #[trigger] keep@[j] == keep_row(self.downloads@[j]@),
        {
            keep.push(!same(self.downloads[i].task.id.as_str(), id));
        }
        retain(&mut self.downloads, &keep, Ghost(keep_row));
        proof {
            lemma_filter_pairs(
                old(self)@.downloads,
                keep_row,
                |a: DownloadRowView, b: DownloadRowView| a.task.id != b.task.id,
            );
        }
        assert(self@ =~= old(self)@.download_deleted(id@));
        Ok(())
    }

    /// The source, the output directory and the file to play of a download.
    pub fn download_by_id(&self, id: &str) -> (r: Result<
        Option<(String, String, Option<String>)>,
        String,
    >)
        ensures
            r is Ok,
            match r->Ok_0 {
                Some(found) => first(self@.downloads, download_has_id(id@)) matches Some(row)
                    && found.0@ == row.source && found.1@ == row.task.output_path && opt_text(
                    found.2,
                ) == row.task.playback_path,
                None => first(self@.downloads, download_has_id(id@)) is None,
            },
    {
        match self.download_index(id) {
            Some(i) => Ok(
                Some(
                    (
                        self.downloads[i].source.clone(),
                        self.downloads[i].task.output_path.clone(),
                        copy_opt(&self.downloads[i].task.playback_path),
                    ),
                ),
            ),
            None => Ok(None),
        }
    }

    /// What is needed to take a download up again or to remove its files.
    pub fn download_files_and_paths(&self, id: &str) -> (r: Result<
        Option<DownloadDetails>,
        String,
    >)
        ensures
            r is Ok,
            match r->Ok_0 {
                Some(details) => first(self@.downloads, download_has_id(id@)) matches Some(row)
                    && details_match(details, row),
                None => first(self@.downloads, download_has_id(id@)) is None,
            },
    {
        match self.download_index(id) {
            Some(i) => Ok(
                Some(
                    DownloadDetails {
                        source: self.downloads[i].source.clone(),
                        output_path: self.downloads[i].task.output_path.clone(),
                        playback_path: copy_opt(&self.downloads[i].task.playback_path),
                        files: copy_opt_files(&self.downloads[i].files),
                    },
                ),
            ),
            None => Ok(None),
        }
    }

    /// The id, the source, the state and the output directory of every download that is
    /// to be taken up again when the application starts.
    pub fn restorable_downloads(&self) -> (r: Result<
        Vec<(String, String, String, String)>,
        String,
    >)
        ensures
            r is Ok,
            r->Ok_0@.map_values(
                |t: (String, String, String, String)| (t.0@, t.1@, t.2@, t.3@),
            ) == self@.downloads.filter(download_unfinished()).map_values(
                |row: DownloadRowView|
                    (row.task.id, row.source, row.task.state, row.task.output_path),
            ),
    {
        let ghost all = self@.downloads;
        let ghost p = download_unfinished();
        let ghost shown = |row: DownloadRowView|
            (row.task.id, row.source, row.task.state, row.task.output_path);
        let mut list: Vec<(String, String, String, String)> = Vec::new();
        reveal(Seq::filter);
        assert(list@.map_values(
            |t: (String, String, String, String)| (t.0@, t.1@, t.2@, t.3@),
        ) =~= all.take(0).filter(p).map_values(shown));
        for i in 0..self.downloads.len()
            invariant
                all == views(self.downloads@),
                p == download_unfinished(),
                shown == |row: DownloadRowView|
                    (row.task.id, row.source, row.task.state, row.task.output_path),
                list@.map_values(
                    |t: (String, String, String, String)| (t.0@, t.1@, t.2@, t.3@),
                ) == all.take(i as int).filter(p).map_values(shown),
        {
            reveal(Seq::filter);
            assert(all.take(i + 1).drop_last() =~= all.take(i as int));
            assert(all.take(i + 1).last() == self.downloads@[i as int]@);
            let state = self.downloads[i].task.state.as_str();
            let ghost before = list@;
            if same(state, "queued") || same(state, "downloading") || same(state, "paused") {
                list.push(
                    (
                        self.downloads[i].task.id.clone(),
                        self.downloads[i].source.clone(),
                        self.downloads[i].task.state.clone(),
                        self.downloads[i].task.output_path.clone(),
                    ),
                );
                assert(all.take(i + 1).filter(p) =~= all.take(i as int).filter(p).push(
                    all[i as int],
                ));
                assert(list@.map_values(
                    |t: (String, String, String, String)| (t.0@, t.1@, t.2@, t.3@),
                ) =~= before.map_values(
                    |t: (String, String, String, String)| (t.0@, t.1@, t.2@, t.3@),
                ).push(shown(all[i as int])));
                assert(all.take(i + 1).filter(p).map_values(shown) =~= all.take(i as int).filter(
                    p,
                ).map_values(shown).push(shown(all[i as int])));
            }
        }
        assert(all.take(all.len() as int) =~= all);
        Ok(list)
    }
}

/// A change that keeps the id of the one download with an id.
proof fn lemma_download_changed(
    before: Database,
    after: Database,
    at: Option<usize>,
    id: Seq<char>,
    change: spec_fn(DownloadRowView) -> DownloadRowView,
)
    requires
        before.wf(),
        after == (Database { downloads: after.downloads, ..before }),
        after.downloads@.len() == before.downloads@.len(),
        forall|r: DownloadRowView| (#[trigger] change(r)).task.id == r.task.id,
        match at {
            Some(i) => {
                &&& i < before.downloads@.len()
                &&& before.downloads@[i as int].task.id@ == id
                &&& after.downloads@ =~= before.downloads@.update(
                    i as int,
                    after.downloads@[i as int],
                )
                &&& after.downloads@[i as int]@ =~= change(before.downloads@[i as int]@)
            },
            None => after.downloads == before.downloads && forall|j: int|
                0 <= j < before.downloads@.len() ==> (#[trigger] before.downloads@[j]).task.id@
                    != id,
        },
    ensures
        after@ == before@.download_changed(id, change),
        after.wf(),
{
    let expected = downloads_changed(before@.downloads, id, change);
    assert forall|j: int| 0 <= j < expected.len() implies after@.downloads[j]
        == #[trigger] expected[j] by {
        assert(before@.downloads[j] == before.downloads@[j]@);
        assert(after@.downloads[j] == after.downloads@[j]@);
        if let Some(i) = at {
            assert(before@.downloads[i as int] == before.downloads@[i as int]@);
        }
    }
    assert(after@.downloads =~= expected);
    assert(after@ =~= before@.download_changed(id, change));
    assert forall|j: int| 0 <= j < after@.downloads.len() implies (
    #[trigger] after@.downloads[j]).task.id == before@.downloads[j].task.id by {
        assert(after@.downloads[j] == expected[j]);
    }
}

} // verus!
