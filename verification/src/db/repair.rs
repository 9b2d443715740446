//! What is done to the stored records when the database is opened.

use super::download_table::latest;
use super::schema::{migrated_version, version_after};
use super::{
    Database, DatabaseView, DownloadRowView, ItemRowView, download_ids_differ, feed_ids_differ,
    feed_urls_differ, guids_differ, setting_keys_differ, sync_wf,
};
use crate::links::{canonical_download_source_key, source_key};
use crate::order::{all_differ, distinct, less};
use crate::rows::views;
use crate::text::{same, texts};
use vstd::prelude::*;

verus! {

/// Whether a download was made from the source.
pub open spec fn download_from(source: Seq<char>) -> spec_fn(DownloadRowView) -> bool {
    |r: DownloadRowView| r.source == source
}

/// Where an item would be downloaded from: its torrent, or else its link.
pub open spec fn item_source(row: ItemRowView) -> Seq<char> {
    match row.torrent {
        Some(torrent) => torrent,
        None => row.link,
    }
}

/// A download with the key of its source.
pub open spec fn rekeyed(row: DownloadRowView) -> DownloadRowView {
    DownloadRowView { source_key: source_key(row.source), ..row }
}

/// An item whose download is known: one that counts as downloaded without naming a
/// download gets the latest one from its source, and one without a download does not
/// count as downloaded.
pub open spec fn relinked(downloads: Seq<DownloadRowView>, row: ItemRowView) -> ItemRowView {
    let download_id = if row.downloaded && row.download_id is None {
        match latest(downloads, download_from(item_source(row))) {
            Some(d) => Some(d.task.id),
            None => None,
        }
    } else {
        row.download_id
    };
    ItemRowView { download_id, downloaded: row.downloaded && download_id is Some, ..row }
}

impl DatabaseView {
    /// The records as they are used after the database was opened.
    pub open spec fn repaired(self) -> DatabaseView {
        DatabaseView {
            downloads: self.downloads.map_values(|r: DownloadRowView| rekeyed(r)),
            items: self.items.map_values(|r: ItemRowView| relinked(self.downloads, r)),
            user_version: version_after(self.user_version),
            ..self
        }
    }
}

impl Database {
    /// The id of the latest download from a source.
    fn latest_from(&self, source: &str) -> (r: Option<String>)
        ensures
            match r {
                Some(id) => latest(self@.downloads, download_from(source@)) matches Some(d) && id@
                    == d.task.id,
                None => latest(self@.downloads, download_from(source@)) is None,
            },
    {
        let ghost all = self@.downloads;
        let ghost p = download_from(source@);
        let mut best: Option<usize> = None;
        for i in 0..self.downloads.len()
            invariant
                all == views(self.downloads@),
                p == download_from(source@),
                match best {
                    Some(k) => k < i && latest(all.take(i as int), p) == Some(all[k as int]),
                    None => latest(all.take(i as int), p) is None,
                },
        {
            assert(all.take(i + 1).drop_last() =~= all.take(i as int));
            assert(all[i as int] == self.downloads@[i as int]@);
            if same(self.downloads[i].source.as_str(), source) {
                match best {
                    Some(k) => {
                        assert(all[k as int] == self.downloads@[k as int]@);
                        if less(
                            self.downloads[k].created_at.as_str(),
                            self.downloads[i].created_at.as_str(),
                        ) {
                            best = Some(i);
                        }
                    },
                    None => {
                        best = Some(i);
                    },
                }
            }
        }
        assert(all.take(all.len() as int) =~= all);
        match best {
            Some(k) => Some(self.downloads[k].task.id.clone()),
            None => None,
        }
    }

    /// Whether what must hold of the records at all times does.
    fn check(&self) -> (r: bool)
        ensures
            r == self.wf(),
    {
        self.check_feeds() && self.check_items() && self.check_downloads() && self.check_settings()
            && self.check_sync() && self.check_numbers()
    }

    fn check_feeds(&self) -> (r: bool)
        ensures
            r == (feed_ids_differ(self@.feeds) && feed_urls_differ(self@.feeds)),
    {
        let ghost all = self@.feeds;
        let mut ids: Vec<String> = Vec::new();
        let mut urls: Vec<String> = Vec::new();
        for i in 0..self.feeds.len()
            invariant
                all == views(self.feeds@),
                ids@.len() == i,
                urls@.len() == i,
                forall|j: int| 0 <= j < i ==> #[trigger] texts(ids@)[j] == all[j].id,
                forall|j: int| 0 <= j < i ==> #[trigger] texts(urls@)[j] == all[j].url,
        {
            let ghost a = texts(ids@);
            let ghost b = texts(urls@);
            ids.push(self.feeds[i].id.clone());
            urls.push(self.feeds[i].url.clone());
            assert(texts(ids@) =~= a.push(all[i as int].id));
            assert(texts(urls@) =~= b.push(all[i as int].url));
        }
        let r = all_differ(&ids) && all_differ(&urls);
        proof {
            let a = texts(ids@);
            let b = texts(urls@);
            if distinct(a) {
                assert forall|i: int, j: int| 0 <= i < j < all.len() implies (
                #[trigger] all[i]).id != (#[trigger] all[j]).id by {
                    assert(a[i] != a[j]);
                }
            } else {
                let (i, j) = choose|i: int, j: int|
                    0 <= i < j < a.len() && #[trigger] a[i] == #[trigger] a[j];
                assert(all[i].id == all[j].id);
            }
            if distinct(b) {
                assert forall|i: int, j: int| 0 <= i < j < all.len() implies (
                #[trigger] all[i]).url != (#[trigger] all[j]).url by {
                    assert(b[i] != b[j]);
                }
            } else {
                let (i, j) = choose|i: int, j: int|
                    0 <= i < j < b.len() && #[trigger] b[i] == #[trigger] b[j];
                assert(all[i].url == all[j].url);
            }
        }
        r
    }

    fn check_items(&self) -> (r: bool)
        ensures
            r == guids_differ(self@.items),
    {
        let ghost all = self@.items;
        let mut keys: Vec<String> = Vec::new();
        for i in 0..self.items.len()
            invariant
                all == views(self.items@),
                keys@.len() == i,
                forall|j: int| 0 <= j < i ==> #[trigger] texts(keys@)[j] == all[j].guid,
        {
            let ghost a = texts(keys@);
            keys.push(self.items[i].guid.clone());
            assert(texts(keys@) =~= a.push(all[i as int].guid));
        }
        proof {
            let a = texts(keys@);
            if distinct(a) {
                assert forall|i: int, j: int| 0 <= i < j < all.len() implies (
                #[trigger] all[i]).guid != (#[trigger] all[j]).guid by {
                    assert(a[i] != a[j]);
                }
            } else {
                let (i, j) = choose|i: int, j: int|
                    0 <= i < j < a.len() && #[trigger] a[i] == #[trigger] a[j];
                assert(all[i].guid == all[j].guid);
            }
        }
        all_differ(&keys)
    }

    fn check_downloads(&self) -> (r: bool)
        ensures
            r == download_ids_differ(self@.downloads),
    {
        let ghost all = self@.downloads;
        let mut keys: Vec<String> = Vec::new();
        for i in 0..self.downloads.len()
            invariant
                all == views(self.downloads@),
                keys@.len() == i,
                forall|j: int| 0 <= j < i ==> #[trigger] texts(keys@)[j] == all[j].task.id,
        {
            let ghost a = texts(keys@);
            keys.push(self.downloads[i].task.id.clone());
            assert(texts(keys@) =~= a.push(all[i as int].task.id));
        }
        proof {
            let a = texts(keys@);
            if distinct(a) {
                assert forall|i: int, j: int| 0 <= i < j < all.len() implies (
                #[trigger] all[i]).task.id != (#[trigger] all[j]).task.id by {
                    assert(a[i] != a[j]);
                }
            } else {
                let (i, j) = choose|i: int, j: int|
                    0 <= i < j < a.len() && #[trigger] a[i] == #[trigger] a[j];
                assert(all[i].task.id == all[j].task.id);
            }
        }
        all_differ(&keys)
    }

    fn check_settings(&self) -> (r: bool)
        ensures
            r == setting_keys_differ(self@.settings),
    {
        let ghost all = self@.settings;
        let mut keys: Vec<String> = Vec::new();
        for i in 0..self.settings.len()
            invariant
                all == views(self.settings@),
                keys@.len() == i,
                forall|j: int| 0 <= j < i ==> #[trigger] texts(keys@)[j] == all[j].0,
        {
            let ghost a = texts(keys@);
            keys.push(self.settings[i].key.clone());
            assert(texts(keys@) =~= a.push(all[i as int].0));
        }
        proof {
            let a = texts(keys@);
            if distinct(a) {
                assert forall|i: int, j: int| 0 <= i < j < all.len() implies (
                #[trigger] all[i]).0 != (#[trigger] all[j]).0 by {
                    assert(a[i] != a[j]);
                }
            } else {
                let (i, j) = choose|i: int, j: int|
                    0 <= i < j < a.len() && #[trigger] a[i] == #[trigger] a[j];
                assert(all[i].0 == all[j].0);
            }
        }
        all_differ(&keys)
    }

    fn check_sync(&self) -> (r: bool)
        ensures
            r == sync_wf(self@.sync),
    {
        let ghost all = self@.sync;
        if self.sync.len() as u64 > 9223372036854775807 {
            return false;
        }
        for i in 0..self.sync.len()
            invariant
                all == views(self.sync@),
                all.len() <= i64::MAX,
                sync_wf(all.take(i as int)),
        {
            assert(all[i as int] == self.sync@[i as int]@);
            let id: i64 = self.sync[i].entry.id;
            let subject_id: i64 = self.sync[i].entry.subject_id;
            for j in 0..i
                invariant
                    all == views(self.sync@),
                    i < self.sync@.len(),
                    id == all[i as int].entry.id,
                    subject_id == all[i as int].entry.subject_id,
                    forall|k: int|
                        0 <= k < j ==> (#[trigger] all[k]).entry.id < id && all[k].entry.subject_id
                            != subject_id,
            {
                assert(all[j as int] == self.sync@[j as int]@);
                if self.sync[j].entry.id >= id || self.sync[j].entry.subject_id == subject_id {
                    return false;
                }
            }
            assert forall|a: int, b: int| 0 <= a < b < i + 1 implies (#[trigger] all.take(
                i + 1,
            )[a]).entry.id < (#[trigger] all.take(i + 1)[b]).entry.id && all.take(
                i + 1,
            )[a].entry.subject_id != all.take(i + 1)[b].entry.subject_id by {
                if b < i {
                    assert(all.take(i as int)[a] == all[a] && all.take(i as int)[b] == all[b]);
                } else {
                    assert(all[a].entry.id < id);
                }
            }
        }
        assert(all.take(all.len() as int) =~= all);
        true
    }

    fn check_numbers(&self) -> (r: bool)
        ensures
            r == (self.collections.wf() && self.subjects.wf() && self.details.wf()),
    {
        self.collections.check() && self.subjects.check() && self.details.check()
    }

    /// Opens a database with its stored records. Downloads get the keys of their sources
    /// anew; items that count as downloaded but name no download are linked to the latest
    /// one from their source, or count as not downloaded; the schema is the present one.
    /// Records that contradict each other are refused.
    pub fn initialize(stored: Database) -> (r: Result<Database, String>)
        ensures
            match r {
                Ok(db) => stored.wf() && db.wf() && db@ == stored@.repaired(),
                Err(e) => !stored.wf() && e@ == "database disk image is malformed"@,
            },
    {
        let mut db = stored;
        if !db.check() {
            return Err("database disk image is malformed".to_owned());
        }
        let n: usize = db.items.len();
        for i in 0..n
            invariant
                n == db.items@.len(),
                n == stored.items@.len(),
                stored.wf(),
                db == (Database { items: db.items, ..stored }),
                forall|j: int|
                    0 <= j < i ==> (#[trigger] db.items@[j])@ == relinked(
                        stored@.downloads,
                        stored@.items[j],
                    ),
                forall|j: int| i <= j < n ==> #[trigger] db.items@[j] == stored.items@[j],
        {
            assert(stored@.items[i as int] == stored.items@[i as int]@);
            if db.items[i].downloaded && db.items[i].download_id.is_none() {
                let id = match &db.items[i].torrent {
                    Some(torrent) => db.latest_from(torrent.as_str()),
                    None => db.latest_from(db.items[i].link.as_str()),
                };
                db.items[i].download_id = id;
            }
            if db.items[i].download_id.is_none() {
                db.items[i].downloaded = false;
            }
        }
        let ghost relinked_items = db.items@;
        let n: usize = db.downloads.len();
        for i in 0..n
            invariant
                n == db.downloads@.len(),
                n == stored.downloads@.len(),
                db == (Database { items: db.items, downloads: db.downloads, ..stored }),
                db.items@ == relinked_items,
                forall|j: int|
                    0 <= j < i ==> (#[trigger] db.downloads@[j])@ == rekeyed(
                        stored@.downloads[j],
                    ),
                forall|j: int| i <= j < n ==> #[trigger] db.downloads@[j] == stored.downloads@[j],
        {
            assert(stored@.downloads[i as int] == stored.downloads@[i as int]@);
            let key = canonical_download_source_key(db.downloads[i].source.as_str());
            db.downloads[i].source_key = key;
        }
        db.user_version = migrated_version(db.user_version);
        proof {
            assert(db@.items =~= stored@.repaired().items);
            assert(db@.downloads =~= stored@.repaired().downloads);
            assert(db@ =~= stored@.repaired());
            lemma_repaired_wf(stored@);
        }
        Ok(db)
    }
}

/// Repairing keeps what must hold of the records.
proof fn lemma_repaired_wf(db: DatabaseView)
    requires
        db.wf(),
    ensures
        db.repaired().wf(),
{
    let after = db.repaired();
    assert forall|i: int| 0 <= i < after.items.len() implies (#[trigger] after.items[i]).guid
        == db.items[i].guid by {}
    assert forall|i: int| 0 <= i < after.downloads.len() implies (
    #[trigger] after.downloads[i]).task.id == db.downloads[i].task.id by {}
}

/// After the database was opened an item counts as downloaded only where it names its
/// download, and every download has the key of its source.
pub proof fn law_opened_records_are_linked(db: DatabaseView)
    ensures
        forall|i: int|
            0 <= i < db.repaired().items.len() && (#[trigger] db.repaired().items[i]).downloaded
                ==> db.repaired().items[i].download_id is Some,
        forall|i: int|
            0 <= i < db.repaired().downloads.len() ==> (
            #[trigger] db.repaired().downloads[i]).source_key == source_key(
                db.repaired().downloads[i].source,
            ),
{
}

/// Opening the database again changes nothing.
pub proof fn law_opening_twice_is_opening_once(db: DatabaseView)
    ensures
        db.repaired().repaired() == db.repaired(),
{
    let once = db.repaired();
    assert(once.repaired().downloads =~= once.downloads);
    assert(once.repaired().items =~= once.items);
    assert(once.repaired() =~= once);
}

} // verus!
