//! The application's records: feeds, feed items, downloads, collections, caches,
//! settings and the queue of changes that wait to be sent.

pub mod collection_sync;
pub mod collection_table;
pub mod download_table;
pub mod feed_table;
pub mod item_table;
pub mod repair;
pub mod schema;
pub mod sync_table;

pub use crate::links::canonical_download_source_key;

use crate::json::Json;
use crate::models::{
    DownloadTask, FeedView, RssFeed, StoredFileInfo, Subject, SubjectView, TaskView, stored_files,
};
use crate::rows::views;
use crate::table::Table;
use crate::text::opt_text;
use vstd::prelude::*;

verus! {

/// A stored feed item: when it was first seen, and the download it started.
#[derive(Debug)]
pub struct ItemRow {
    pub guid: String,
    pub feed_id: String,
    pub title: String,
    pub link: String,
    pub torrent: Option<String>,
    pub published_at: Option<String>,
    pub seen_at: String,
    pub downloaded: bool,
    pub download_id: Option<String>,
}

/// A stored feed item as plain values.
#[verifier::ext_equal]
pub struct ItemRowView {
    pub guid: Seq<char>,
    pub feed_id: Seq<char>,
    pub title: Seq<char>,
    pub link: Seq<char>,
    pub torrent: Option<Seq<char>>,
    pub published_at: Option<Seq<char>>,
    pub seen_at: Seq<char>,
    pub downloaded: bool,
    pub download_id: Option<Seq<char>>,
}

impl View for ItemRow {
    type V = ItemRowView;

    open spec fn view(&self) -> ItemRowView {
        ItemRowView {
            guid: self.guid@,
            feed_id: self.feed_id@,
            title: self.title@,
            link: self.link@,
            torrent: opt_text(self.torrent),
            published_at: opt_text(self.published_at),
            seen_at: self.seen_at@,
            downloaded: self.downloaded,
            download_id: opt_text(self.download_id),
        }
    }
}

/// A stored download: the task, where it came from, and the files it consists of
/// once they are known.
#[derive(Debug)]
pub struct DownloadRow {
    pub task: DownloadTask,
    pub source: String,
    pub source_key: String,
    pub created_at: String,
    pub files: Option<Vec<StoredFileInfo>>,
}

/// A stored download as plain values.
#[verifier::ext_equal]
pub struct DownloadRowView {
    pub task: TaskView,
    pub source: Seq<char>,
    pub source_key: Seq<char>,
    pub created_at: Seq<char>,
    pub files: Option<Seq<(Seq<char>, u64)>>,
}

/// The files of a download, if they are known, as pairs of path and size.
pub open spec fn opt_files(files: Option<Vec<StoredFileInfo>>) -> Option<Seq<(Seq<char>, u64)>> {
    match files {
        Some(list) => Some(stored_files(list@)),
        None => None,
    }
}

impl View for DownloadRow {
    type V = DownloadRowView;

    open spec fn view(&self) -> DownloadRowView {
        DownloadRowView {
            task: self.task@,
            source: self.source@,
            source_key: self.source_key@,
            created_at: self.created_at@,
            files: opt_files(self.files),
        }
    }
}

/// The collection state of a subject.
#[derive(Debug)]
pub struct CollectionRow {
    pub collection: String,
    pub watched: i64,
    pub updated_at: String,
}

/// The collection state of a subject as plain values.
#[verifier::ext_equal]
pub struct CollectionRowView {
    pub collection: Seq<char>,
    pub watched: i64,
    pub updated_at: Seq<char>,
}

impl View for CollectionRow {
    type V = CollectionRowView;

    open spec fn view(&self) -> CollectionRowView {
        CollectionRowView {
            collection: self.collection@,
            watched: self.watched,
            updated_at: self.updated_at@,
        }
    }
}

/// A JSON document and when it was stored.
#[derive(Debug)]
pub struct CacheRow {
    pub payload: Json,
    pub updated_at: String,
}

impl View for CacheRow {
    type V = (Json, Seq<char>);

    open spec fn view(&self) -> (Json, Seq<char>) {
        (self.payload, self.updated_at@)
    }
}

/// A change of a collection that waits to be sent. A later change of the same subject
/// takes the place of the entry and gives it the next version.
#[derive(Debug)]
pub struct SyncEntry {
    pub id: i64,
    pub subject_id: i64,
    pub collection: String,
    pub ep: Option<i64>,
    pub attempts: i64,
    pub version: i64,
}

impl Clone for SyncEntry {
    fn clone(&self) -> (copy: Self)
        ensures
            copy == *self,
    {
        SyncEntry {
            id: self.id,
            subject_id: self.subject_id,
            collection: self.collection.clone(),
            ep: self.ep,
            attempts: self.attempts,
            version: self.version,
        }
    }
}

/// A waiting change as plain values.
#[verifier::ext_equal]
pub struct SyncEntryView {
    pub id: i64,
    pub subject_id: i64,
    pub collection: Seq<char>,
    pub ep: Option<i64>,
    pub attempts: i64,
    pub version: i64,
}

impl View for SyncEntry {
    type V = SyncEntryView;

    open spec fn view(&self) -> SyncEntryView {
        SyncEntryView {
            id: self.id,
            subject_id: self.subject_id,
            collection: self.collection@,
            ep: self.ep,
            attempts: self.attempts,
            version: self.version,
        }
    }
}

/// A waiting change, when it is due, and how the last attempt failed.
#[derive(Debug)]
pub struct SyncRow {
    pub entry: SyncEntry,
    pub next_attempt_at: String,
    pub last_error: Option<String>,
    pub updated_at: String,
}

/// A stored waiting change as plain values.
#[verifier::ext_equal]
pub struct SyncRowView {
    pub entry: SyncEntryView,
    pub next_attempt_at: Seq<char>,
    pub last_error: Option<Seq<char>>,
    pub updated_at: Seq<char>,
}

impl View for SyncRow {
    type V = SyncRowView;

    open spec fn view(&self) -> SyncRowView {
        SyncRowView {
            entry: self.entry@,
            next_attempt_at: self.next_attempt_at@,
            last_error: opt_text(self.last_error),
            updated_at: self.updated_at@,
        }
    }
}

/// A setting.
#[derive(Debug)]
pub struct SettingRow {
    pub key: String,
    pub value: String,
}

impl View for SettingRow {
    type V = (Seq<char>, Seq<char>);

    open spec fn view(&self) -> (Seq<char>, Seq<char>) {
        (self.key@, self.value@)
    }
}

/// All records of the application.
#[derive(Debug)]
pub struct Database {
    pub feeds: Vec<RssFeed>,
    pub items: Vec<ItemRow>,
    pub downloads: Vec<DownloadRow>,
    pub collections: Table<CollectionRow>,
    pub subjects: Table<CacheRow>,
    pub details: Table<CacheRow>,
    pub settings: Vec<SettingRow>,
    pub calendar: Option<Vec<Subject>>,
    pub sync: Vec<SyncRow>,
    pub last_sync_id: i64,
    pub user_version: i64,
}

/// All records as plain values.
#[verifier::ext_equal]
pub struct DatabaseView {
    pub feeds: Seq<FeedView>,
    pub items: Seq<ItemRowView>,
    pub downloads: Seq<DownloadRowView>,
    pub collections: Map<i64, CollectionRowView>,
    pub subjects: Map<i64, (Json, Seq<char>)>,
    pub details: Map<i64, (Json, Seq<char>)>,
    pub settings: Seq<(Seq<char>, Seq<char>)>,
    pub calendar: Option<Seq<SubjectView>>,
    pub sync: Seq<SyncRowView>,
    pub last_sync_id: i64,
    pub user_version: i64,
}

/// A list of subjects, if there is one, as plain values.
pub open spec fn opt_subjects(list: Option<Vec<Subject>>) -> Option<Seq<SubjectView>> {
    match list {
        Some(list) => Some(views(list@)),
        None => None,
    }
}

impl View for Database {
    type V = DatabaseView;

    open spec fn view(&self) -> DatabaseView {
        DatabaseView {
            feeds: views(self.feeds@),
            items: views(self.items@),
            downloads: views(self.downloads@),
            collections: self.collections@,
            subjects: self.subjects@,
            details: self.details@,
            settings: views(self.settings@),
            calendar: opt_subjects(self.calendar),
            sync: views(self.sync@),
            last_sync_id: self.last_sync_id,
            user_version: self.user_version,
        }
    }
}

/// No two feeds have the same id.
pub open spec fn feed_ids_differ(feeds: Seq<FeedView>) -> bool {
    forall|i: int, j: int|
        0 <= i < j < feeds.len() ==> (#[trigger] feeds[i]).id != (#[trigger] feeds[j]).id
}

/// No two feeds have the same address.
pub open spec fn feed_urls_differ(feeds: Seq<FeedView>) -> bool {
    forall|i: int, j: int|
        0 <= i < j < feeds.len() ==> (#[trigger] feeds[i]).url != (#[trigger] feeds[j]).url
}

/// No two items have the same identifier.
pub open spec fn guids_differ(items: Seq<ItemRowView>) -> bool {
    forall|i: int, j: int|
        0 <= i < j < items.len() ==> (#[trigger] items[i]).guid != (#[trigger] items[j]).guid
}

/// No two downloads have the same id.
pub open spec fn download_ids_differ(downloads: Seq<DownloadRowView>) -> bool {
    forall|i: int, j: int|
        0 <= i < j < downloads.len() ==> (#[trigger] downloads[i]).task.id != (
        #[trigger] downloads[j]).task.id
}

/// No two settings have the same key.
pub open spec fn setting_keys_differ(settings: Seq<(Seq<char>, Seq<char>)>) -> bool {
    forall|i: int, j: int|
        0 <= i < j < settings.len() ==> (#[trigger] settings[i]).0 != (#[trigger] settings[j]).0
}

/// At most one change waits for each subject, ids ascend, and the changes can be counted.
pub open spec fn sync_wf(sync: Seq<SyncRowView>) -> bool {
    &&& sync.len() <= i64::MAX
    &&& forall|i: int, j: int|
        0 <= i < j < sync.len() ==> (#[trigger] sync[i]).entry.id < (#[trigger] sync[j]).entry.id
            && sync[i].entry.subject_id != sync[j].entry.subject_id
}

impl DatabaseView {
    /// What holds of the records at all times.
    pub open spec fn wf(self) -> bool {
        &&& feed_ids_differ(self.feeds)
        &&& feed_urls_differ(self.feeds)
        &&& guids_differ(self.items)
        &&& download_ids_differ(self.downloads)
        &&& setting_keys_differ(self.settings)
        &&& sync_wf(self.sync)
    }
}

impl Database {
    /// What holds of the records at all times.
    pub open spec fn wf(&self) -> bool {
        &&& self@.wf()
        &&& self.collections.wf()
        &&& self.subjects.wf()
        &&& self.details.wf()
    }

    /// No records at all.
    pub open spec fn is_empty(&self) -> bool {
        &&& self@.feeds.len() == 0
        &&& self@.items.len() == 0
        &&& self@.downloads.len() == 0
        &&& self@.collections == Map::<i64, CollectionRowView>::empty()
        &&& self@.subjects == Map::<i64, (Json, Seq<char>)>::empty()
        &&& self@.details == Map::<i64, (Json, Seq<char>)>::empty()
        &&& self@.settings.len() == 0
        &&& self@.calendar is None
        &&& self@.sync.len() == 0
        &&& self@.last_sync_id == 0
        &&& self@.user_version == schema::latest_version()
    }

    /// A database without records.
    pub fn open_in_memory() -> (r: Result<Self, String>)
        ensures
            r is Ok,
            r->Ok_0.wf(),
            r->Ok_0.is_empty(),
    {
        Ok(
            Database {
                feeds: Vec::new(),
                items: Vec::new(),
                downloads: Vec::new(),
                collections: Table::new(),
                subjects: Table::new(),
                details: Table::new(),
                settings: Vec::new(),
                calendar: None,
                sync: Vec::new(),
                last_sync_id: 0,
                user_version: schema::MIGRATION_COUNT,
            },
        )
    }
}

} // verus!
