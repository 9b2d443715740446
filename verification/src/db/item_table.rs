//! The feed items of the database.

use super::download_table::download_has_id;
use super::{Database, DatabaseView, ItemRow, ItemRowView};
use crate::clock::{is_clock_text, now_text};
use crate::matcher::{MatchRule, resource_matches, rule_accepts};
use crate::models::{
    FeedView, ItemView, RssDownloadStatus, RssItem, StatusView, SubjectRssState,
};
use crate::order::{order_by, ordered, sorted_rows};
use crate::rows::{first, lemma_first_at, lemma_first_none, some_row, views};
use crate::text::{copy_opt, opt_str, same, texts};
use std::collections::HashMap;
use vstd::prelude::*;

verus! {

/// Whether an item has the identifier.
pub open spec fn item_has_guid(guid: Seq<char>) -> spec_fn(ItemRowView) -> bool {
    |r: ItemRowView| r.guid == guid
}

/// A new item of a feed, seen at a time.
pub open spec fn new_item(feed_id: Seq<char>, item: ItemView, now: Seq<char>) -> ItemRowView {
    ItemRowView {
        guid: item.guid,
        feed_id,
        title: item.title,
        link: item.link,
        torrent: item.torrent,
        published_at: item.published_at,
        seen_at: now,
        downloaded: false,
        download_id: None,
    }
}

/// The stored items after the items of a feed were put in, each at its time; an item
/// whose identifier is stored already is left out.
pub open spec fn items_after(
    rows: Seq<ItemRowView>,
    feed_id: Seq<char>,
    items: Seq<ItemView>,
    times: Seq<Seq<char>>,
) -> Seq<ItemRowView>
    decreases items.len(),
{
    if items.len() == 0 {
        rows
    } else {
        let before = items_after(rows, feed_id, items.drop_last(), times);
        if some_row(before, item_has_guid(items.last().guid)) {
            before
        } else {
            before.push(new_item(feed_id, items.last(), times[items.len() - 1]))
        }
    }
}

/// The items of a feed that were new when they were put in.
pub open spec fn items_inserted(
    rows: Seq<ItemRowView>,
    feed_id: Seq<char>,
    items: Seq<ItemView>,
    times: Seq<Seq<char>>,
) -> Seq<ItemView>
    decreases items.len(),
{
    if items.len() == 0 {
        Seq::empty()
    } else {
        let rest = items.drop_last();
        let before = items_inserted(rows, feed_id, rest, times);
        if some_row(items_after(rows, feed_id, rest, times), item_has_guid(items.last().guid)) {
            before
        } else {
            before.push(ItemView { feed_id, ..items.last() })
        }
    }
}

/// The stored items with a change made to those with a property.
pub open spec fn items_changed(
    rows: Seq<ItemRowView>,
    p: spec_fn(ItemRowView) -> bool,
    change: spec_fn(ItemRowView) -> ItemRowView,
) -> Seq<ItemRowView> {
    rows.map_values(
        |r: ItemRowView|
            if p(r) {
                change(r)
            } else {
                r
            },
    )
}

/// A change of an item: it was downloaded by the task.
pub open spec fn downloaded_by(task_id: Seq<char>) -> spec_fn(ItemRowView) -> ItemRowView {
    |r: ItemRowView| ItemRowView { downloaded: true, download_id: Some(task_id), ..r }
}

/// A change of an item: it was not downloaded.
pub open spec fn not_downloaded() -> spec_fn(ItemRowView) -> ItemRowView {
    |r: ItemRowView| ItemRowView { downloaded: false, download_id: None, ..r }
}

/// Whether an item was downloaded by the task.
pub open spec fn item_of_task(task_id: Seq<char>) -> spec_fn(ItemRowView) -> bool {
    |r: ItemRowView| r.download_id == Some(task_id)
}

/// When items were first seen.
pub open spec fn times_seen(rows: Seq<ItemRowView>) -> Seq<Seq<char>> {
    rows.map_values(|r: ItemRowView| r.seen_at)
}

/// Whether an item belongs to the feed; every item does where no feed is given.
pub open spec fn item_in_feed(feed_id: Option<Seq<char>>) -> spec_fn(ItemRowView) -> bool {
    |r: ItemRowView| feed_id is None || feed_id == Some(r.feed_id)
}

impl DatabaseView {
    /// The download of an item, if it has one.
    pub open spec fn download_of(self, row: ItemRowView) -> Option<super::DownloadRowView> {
        match row.download_id {
            Some(id) => first(self.downloads, download_has_id(id)),
            None => None,
        }
    }

    /// A stored item as it is shown, with its download.
    pub open spec fn item_shown(self, row: ItemRowView) -> ItemView {
        let download = match self.download_of(row) {
            Some(d) => Some(
                StatusView {
                    task_id: d.task.id,
                    state: d.task.state,
                    progress: d.task.progress,
                    active: false,
                },
            ),
            None => None,
        };
        ItemView {
            guid: row.guid,
            feed_id: row.feed_id,
            title: row.title,
            link: row.link,
            torrent: row.torrent,
            published_at: row.published_at,
            downloaded: download is Some,
            download,
            matches_rule: false,
        }
    }

    /// The items of a feed, or of all feeds, that were seen last, the latest first.
    pub open spec fn items_listed(self, feed_id: Option<Seq<char>>, limit: nat) -> Seq<ItemView> {
        let rows = self.items.filter(item_in_feed(feed_id));
        let sorted = sorted_rows(rows, times_seen(rows), true);
        let shown = if limit < sorted.len() {
            sorted.take(limit as int)
        } else {
            sorted
        };
        shown.map_values(|r: ItemRowView| self.item_shown(r))
    }

    /// The records after items of a feed were put in.
    pub open spec fn items_put(
        self,
        feed_id: Seq<char>,
        items: Seq<ItemView>,
        times: Seq<Seq<char>>,
    ) -> DatabaseView {
        DatabaseView { items: items_after(self.items, feed_id, items, times), ..self }
    }

    /// The records after a change of the items with a property.
    pub open spec fn item_changed(
        self,
        p: spec_fn(ItemRowView) -> bool,
        change: spec_fn(ItemRowView) -> ItemRowView,
    ) -> DatabaseView {
        DatabaseView { items: items_changed(self.items, p, change), ..self }
    }

    /// Whether the feed has an item whose download is complete.
    pub open spec fn feed_completed(self, feed: FeedView) -> bool {
        exists|i: int|
            0 <= i < self.items.len() && (#[trigger] self.items[i]).feed_id == feed.id
                && self.item_completed(self.items[i])
    }

    /// Whether the download of an item is complete.
    pub open spec fn item_completed(self, row: ItemRowView) -> bool {
        self.download_of(row) matches Some(d) && d.task.state == "completed"@
    }

    /// Whether the feed has an item that is being downloaded or waits for that.
    pub open spec fn feed_downloading(self, feed: FeedView) -> bool {
        exists|i: int|
            0 <= i < self.items.len() && (#[trigger] self.items[i]).feed_id == feed.id
                && self.item_downloading(self.items[i])
    }

    /// Whether an item is being downloaded or waits for that.
    pub open spec fn item_downloading(self, row: ItemRowView) -> bool {
        self.download_of(row) matches Some(d) && (d.task.state == "queued"@ || d.task.state
            == "downloading"@)
    }

    /// Whether the feed has an item that its rule accepts and that was not downloaded.
    pub open spec fn feed_pending(self, feed: FeedView) -> bool {
        exists|i: int|
            0 <= i < self.items.len() && (#[trigger] self.items[i]).feed_id == feed.id
                && self.item_pending(feed, self.items[i])
    }

    /// Whether an item was not downloaded and is accepted by the rule of the feed.
    pub open spec fn item_pending(self, feed: FeedView, row: ItemRowView) -> bool {
        self.download_of(row) is None && !row.downloaded && rule_accepts(
            row.title,
            feed.rule.matching(),
        )
    }

    /// What the first `n` feeds hold for a subject.
    pub open spec fn subject_state(self, subject_id: i64, n: int) -> SubjectRssState {
        SubjectRssState {
            downloading: exists|k: int|
                0 <= k < n && (#[trigger] self.feeds[k]).subject_id == Some(subject_id)
                    && self.feed_downloading(self.feeds[k]),
            completed: exists|k: int|
                0 <= k < n && (#[trigger] self.feeds[k]).subject_id == Some(subject_id)
                    && self.feed_completed(self.feeds[k]),
            pending: exists|k: int|
                0 <= k < n && (#[trigger] self.feeds[k]).subject_id == Some(subject_id)
                    && self.feed_pending(self.feeds[k]),
        }
    }

    /// Whether one of the first `n` feeds was made for a subject.
    pub open spec fn subject_has_feed(self, subject_id: i64, n: int) -> bool {
        exists|k: int| 0 <= k < n && (#[trigger] self.feeds[k]).subject_id == Some(subject_id)
    }
}

impl Database {
    /// Whether an item with the identifier is stored.
    fn has_item(&self, guid: &str) -> (r: bool)
        ensures
            r == some_row(self@.items, item_has_guid(guid@)),
    {
        for i in 0..self.items.len()
            invariant
                forall|j: int| 0 <= j < i ==> (#[trigger] self@.items[j]).guid != guid@,
        {
            assert(self@.items[i as int] == self.items@[i as int]@);
            if same(self.items[i].guid.as_str(), guid) {
                assert(item_has_guid(guid@)(self@.items[i as int]));
                return true;
            }
        }
        false
    }

    /// Puts the items of a feed in, each at its time, and gives those that were new. An
    /// item whose identifier is stored already is left out.
    pub fn insert_rss_items_at(
        &mut self,
        feed_id: &str,
        items: &Vec<RssItem>,
        times: &Vec<String>,
    ) -> (r: Result<Vec<RssItem>, String>)
        requires
            old(self).wf(),
            times@.len() == items@.len(),
        ensures
            r is Ok,
            final(self).wf(),
            final(self)@ == old(self)@.items_put(feed_id@, views(items@), texts(times@)),
            views(r->Ok_0@) == items_inserted(
                old(self)@.items,
                feed_id@,
                views(items@),
                texts(times@),
            ),
    {
        let ghost all = views(items@);
        let ghost stamps = texts(times@);
        let mut inserted: Vec<RssItem> = Vec::new();
        assert(all.take(0) =~= Seq::<ItemView>::empty());
        assert(self@ =~= old(self)@.items_put(feed_id@, all.take(0), stamps));
        for i in 0..items.len()
            invariant
                all == views(items@),
                stamps == texts(times@),
                times@.len() == items@.len(),
                self.wf(),
                *self == (Database { items: self.items, ..*old(self) }),
                self@ == old(self)@.items_put(feed_id@, all.take(i as int), stamps),
                views(inserted@) == items_inserted(
                    old(self)@.items,
                    feed_id@,
                    all.take(i as int),
                    stamps,
                ),
        {
            let item: &RssItem = &items[i];
            let ghost sofar = self@.items;
            let ghost given = inserted@;
            assert(all.take(i + 1).drop_last() =~= all.take(i as int));
            assert(all.take(i + 1).last() == item@);
            if !self.has_item(item.guid.as_str()) {
                let row = ItemRow {
                    guid: item.guid.clone(),
                    feed_id: feed_id.to_owned(),
                    title: item.title.clone(),
                    link: item.link.clone(),
                    torrent: copy_opt(&item.torrent),
                    published_at: copy_opt(&item.published_at),
                    seen_at: times[i].clone(),
                    downloaded: false,
                    download_id: None,
                };
                assert(row@ =~= new_item(feed_id@, item@, stamps[i as int]));
                self.items.push(row);
                assert(self@.items =~= sofar.push(row@));
                assert(guids_still_differ(sofar, row@)) by {
                    assert forall|j: int| 0 <= j < sofar.len() implies (#[trigger] sofar[j]).guid
                        != item@.guid by {
                        if sofar[j].guid == item@.guid {
                            assert(item_has_guid(item@.guid)(sofar[j]));
                        }
                    }
                }
                let mut value: RssItem = item.clone();
                value.feed_id = feed_id.to_owned();
                inserted.push(value);
                assert(views(inserted@) =~= views(given).push(
                    (ItemView { feed_id: feed_id@, ..item@ }),
                ));
            }
            assert(self@ =~= old(self)@.items_put(feed_id@, all.take(i + 1), stamps));
        }
        assert(all.take(all.len() as int) =~= all);
        Ok(inserted)
    }

    /// Puts the items of a feed in, and gives those that were new. An item whose
    /// identifier is stored already is left out.
    pub fn insert_rss_items(&mut self, feed_id: &str, items: &Vec<RssItem>) -> (r: Result<
        Vec<RssItem>,
        String,
    >)
        requires
            old(self).wf(),
        ensures
            r is Ok,
            final(self).wf(),
            exists|times: Seq<Seq<char>>|
                {
                    &&& times.len() == items@.len()
                    &&& forall|i: int| 0 <= i < times.len() ==> is_clock_text(#[trigger] times[i])
                    &&& final(self)@ == #[trigger] old(self)@.items_put(
                        feed_id@,
                        views(items@),
                        times,
                    )
                    &&& views(r->Ok_0@) == items_inserted(
                        old(self)@.items,
                        feed_id@,
                        views(items@),
                        times,
                    )
                },
    {
        let mut times: Vec<String> = Vec::new();
        for i in 0..items.len()
            invariant
                times@.len() == i,
                forall|j: int| 0 <= j < i ==> is_clock_text((#[trigger] times@[j])@),
        {
            times.push(now_text());
        }
        assert forall|i: int| 0 <= i < texts(times@).len() implies is_clock_text(
            #[trigger] texts(times@)[i],
        ) by {
            assert(is_clock_text(times@[i]@));
        }
        self.insert_rss_items_at(feed_id, items, &times)
    }

    /// The download of an item as it is shown.
    fn status_of(&self, row: &ItemRow) -> (r: Option<RssDownloadStatus>)
        ensures
            crate::models::opt_status(r) == self@.item_shown(row@).download,
    {
        match &row.download_id {
            Some(id) => match self.download_index(id.as_str()) {
                Some(k) => Some(
                    RssDownloadStatus {
                        task_id: self.downloads[k].task.id.clone(),
                        state: self.downloads[k].task.state.clone(),
                        progress: self.downloads[k].task.progress,
                        active: false,
                    },
                ),
                None => None,
            },
            None => None,
        }
    }

    /// A stored item as it is shown, with its download.
    fn show_item(&self, row: &ItemRow) -> (item: RssItem)
        ensures
            item@ == self@.item_shown(row@),
    {
        let download = self.status_of(row);
        let downloaded: bool = download.is_some();
        let item = RssItem {
            guid: row.guid.clone(),
            feed_id: row.feed_id.clone(),
            title: row.title.clone(),
            link: row.link.clone(),
            torrent: copy_opt(&row.torrent),
            published_at: copy_opt(&row.published_at),
            downloaded,
            download,
            matches_rule: false,
        };
        assert(item@ =~= self@.item_shown(row@));
        item
    }

    /// The items of a feed, or of all feeds, that were seen last, the latest first.
    pub fn list_rss_items(&self, feed_id: Option<&str>, limit: u32) -> (r: Result<
        Vec<RssItem>,
        String,
    >)
        ensures
            r is Ok,
            views(r->Ok_0@) == self@.items_listed(opt_str(feed_id), limit as nat),
    {
        let ghost all = self@.items;
        let ghost p = item_in_feed(opt_str(feed_id));
        let mut picked: Vec<usize> = Vec::new();
        let mut times: Vec<String> = Vec::new();
        reveal(Seq::filter);
        assert(all.take(0).filter(p) =~= Seq::<ItemRowView>::empty());
        for i in 0..self.items.len()
            invariant
                all == views(self.items@),
                p == item_in_feed(opt_str(feed_id)),
                picked@.len() == all.take(i as int).filter(p).len(),
                times@.len() == picked@.len(),
                forall|k: int|
                    0 <= k < picked@.len() ==> #[trigger] picked@[k] < i
                        && all[picked@[k] as int] == all.take(i as int).filter(p)[k],
                forall|k: int|
                    0 <= k < times@.len() ==> (#[trigger] times@[k])@ == all.take(i as int).filter(
                        p,
                    )[k].seen_at,
        {
            reveal(Seq::filter);
            assert(all.take(i + 1).drop_last() =~= all.take(i as int));
            assert(all.take(i + 1).last() == self.items@[i as int]@);
            let wanted: bool = match feed_id {
                Some(id) => same(id, self.items[i].feed_id.as_str()),
                None => true,
            };
            if wanted {
                picked.push(i);
                times.push(self.items[i].seen_at.clone());
            }
        }
        assert(all.take(all.len() as int) =~= all);
        let ghost rows = all.filter(p);
        assert(texts(times@) =~= times_seen(rows));
        let order: Vec<usize> = order_by(&times, true);
        let ghost sorted = ordered(times_seen(rows), true);
        let ghost listed = sorted_rows(rows, times_seen(rows), true);
        let mut list: Vec<RssItem> = Vec::new();
        let count: usize = if (limit as u64) < (order.len() as u64) {
            limit as usize
        } else {
            order.len()
        };
        for q in 0..count
            invariant
                count <= order@.len(),
                order@.len() == rows.len(),
                picked@.len() == rows.len(),
                all == views(self.items@),
                listed == sorted_rows(rows, times_seen(rows), true),
                sorted == ordered(times_seen(rows), true),
                order@.map_values(|i: usize| i as int) == sorted,
                forall|k: int| 0 <= k < order@.len() ==> #[trigger] order@[k] < rows.len(),
                forall|k: int|
                    0 <= k < picked@.len() ==> #[trigger] picked@[k] < all.len()
                        && all[picked@[k] as int] == rows[k],
                list@.len() == q,
                forall|k: int| 0 <= k < q ==> (#[trigger] list@[k])@ == self@.item_shown(listed[k]),
        {
            assert(sorted[q as int] == order@[q as int]);
            assert(listed[q as int] == rows[order@[q as int] as int]);
            let row: &ItemRow = &self.items[picked[order[q]]];
            assert(row@ == listed[q as int]);
            list.push(self.show_item(row));
        }
        assert(listed.len() == sorted.len());
        assert(views(list@) =~= self@.items_listed(opt_str(feed_id), limit as nat));
        Ok(list)
    }

    /// The stored item with an identifier.
    pub fn rss_item(&self, guid: &str) -> (r: Result<RssItem, String>)
        ensures
            match r {
                Ok(item) => first(
                    self@.items_listed(None, 5000),
                    |i: ItemView| i.guid == guid@,
                ) == Some(item@),
                Err(e) => first(
                    self@.items_listed(None, 5000),
                    |i: ItemView| i.guid == guid@,
                ) is None && e@ == "RSS 条目不存在"@,
            },
    {
        let list: Vec<RssItem> = self.list_rss_items(None, 5000)?;
        let ghost all = views(list@);
        let ghost p = |i: ItemView| i.guid == guid@;
        for i in 0..list.len()
            invariant
                all == views(list@),
                p == |i: ItemView| i.guid == guid@,
                all == self@.items_listed(None, 5000),
                forall|j: int| 0 <= j < i ==> !p(#[trigger] all[j]),
        {
            if same(list[i].guid.as_str(), guid) {
                proof {
                    lemma_first_at(all, p, i as int);
                }
                return Ok(list[i].clone());
            }
        }
        proof {
            lemma_first_none(all, p);
        }
        Err("RSS 条目不存在".to_owned())
    }

    /// Notes that an item was downloaded by a task.
    pub fn mark_rss_downloaded(&mut self, guid: &str, task_id: &str) -> (r: Result<(), String>)
        requires
            old(self).wf(),
        ensures
            r is Ok,
            final(self).wf(),
            final(self)@ == old(self)@.item_changed(item_has_guid(guid@), downloaded_by(task_id@)),
    {
        let ghost expected = items_changed(
            old(self)@.items,
            item_has_guid(guid@),
            downloaded_by(task_id@),
        );
        let n: usize = self.items.len();
        for i in 0..n
            invariant
                n == self.items@.len(),
                n == old(self).items@.len(),
                *self == (Database { items: self.items, ..*old(self) }),
                expected == items_changed(
                    old(self)@.items,
                    item_has_guid(guid@),
                    downloaded_by(task_id@),
                ),
                forall|j: int| 0 <= j < i ==> (#[trigger] self.items@[j])@ == expected[j],
                forall|j: int|
                    i <= j < n ==> #[trigger] self.items@[j] == old(self).items@[j],
        {
            assert(old(self)@.items[i as int] == old(self).items@[i as int]@);
            if same(self.items[i].guid.as_str(), guid) {
                self.items[i].downloaded = true;
                self.items[i].download_id = Some(task_id.to_owned());
            }
        }
        proof {
            lemma_items_changed(*old(self), *self, item_has_guid(guid@), downloaded_by(task_id@));
        }
        Ok(())
    }

    /// Notes that nothing was downloaded by a task.
    pub fn reset_rss_download_for_task(&mut self, task_id: &str) -> (r: Result<(), String>)
        requires
            old(self).wf(),
        ensures
            r is Ok,
            final(self).wf(),
            final(self)@ == old(self)@.item_changed(item_of_task(task_id@), not_downloaded()),
    {
        let ghost expected = items_changed(
            old(self)@.items,
            item_of_task(task_id@),
            not_downloaded(),
        );
        let n: usize = self.items.len();
        for i in 0..n
            invariant
                n == self.items@.len(),
                n == old(self).items@.len(),
                *self == (Database { items: self.items, ..*old(self) }),
                expected == items_changed(
                    old(self)@.items,
                    item_of_task(task_id@),
                    not_downloaded(),
                ),
                forall|j: int| 0 <= j < i ==> (#[trigger] self.items@[j])@ == expected[j],
                forall|j: int|
                    i <= j < n ==> #[trigger] self.items@[j] == old(self).items@[j],
        {
            assert(old(self)@.items[i as int] == old(self).items@[i as int]@);
            let of_task: bool = match &self.items[i].download_id {
                Some(id) => same(id.as_str(), task_id),
                None => false,
            };
            if of_task {
                self.items[i].downloaded = false;
                self.items[i].download_id = None;
            }
        }
        proof {
            lemma_items_changed(*old(self), *self, item_of_task(task_id@), not_downloaded());
        }
        Ok(())
    }

    /// What the items of a feed say: whether some are being downloaded, some are
    /// complete, and some could be downloaded.
    fn feed_state(&self, k: usize) -> (state: SubjectRssState)
        requires
            k < self.feeds@.len(),
        ensures
            state.downloading == self@.feed_downloading(self@.feeds[k as int]),
            state.completed == self@.feed_completed(self@.feeds[k as int]),
            state.pending == self@.feed_pending(self@.feeds[k as int]),
    {
        let ghost db = self@;
        let ghost feed = db.feeds[k as int];
        assert(feed == self.feeds@[k as int]@);
        let rule = MatchRule::from(&self.feeds[k].rule);
        let mut state = SubjectRssState { downloading: false, completed: false, pending: false };
        for i in 0..self.items.len()
            invariant
                db == self@,
                k < self.feeds@.len(),
                feed == db.feeds[k as int],
                feed == self.feeds@[k as int]@,
                rule@ == feed.rule.matching(),
                state.downloading == (exists|j: int|
                    0 <= j < i && (#[trigger] db.items[j]).feed_id == feed.id
                        && db.item_downloading(db.items[j])),
                state.completed == (exists|j: int|
                    0 <= j < i && (#[trigger] db.items[j]).feed_id == feed.id
                        && db.item_completed(db.items[j])),
                state.pending == (exists|j: int|
                    0 <= j < i && (#[trigger] db.items[j]).feed_id == feed.id
                        && db.item_pending(feed, db.items[j])),
        {
            let row: &ItemRow = &self.items[i];
            assert(db.items[i as int] == row@);
            if same(row.feed_id.as_str(), self.feeds[k].id.as_str()) {
                match self.status_of(row) {
                    Some(status) => {
                        assert(db.download_of(row@) matches Some(d) && d.task.state
                            == status.state@);
                        if same(status.state.as_str(), "completed") {
                            state.completed = true;
                            assert(db.item_completed(db.items[i as int]));
                        } else if same(status.state.as_str(), "queued") || same(
                            status.state.as_str(),
                            "downloading",
                        ) {
                            proof {
                                reveal_strlit("completed");
                                reveal_strlit("queued");
                                reveal_strlit("downloading");
                            }
                            state.downloading = true;
                            assert(db.item_downloading(db.items[i as int]));
                        }
                        proof {
                            reveal_strlit("completed");
                            reveal_strlit("queued");
                            reveal_strlit("downloading");
                            if status.state@ == "completed"@ {
                                assert("completed"@[0] != "queued"@[0]);
                                assert("completed"@[0] != "downloading"@[0]);
                            }
                        }
                    },
                    None => {
                        if !row.downloaded && resource_matches(row.title.as_str(), &rule) {
                            state.pending = true;
                            assert(db.item_pending(feed, db.items[i as int]));
                        }
                    },
                }
            }
        }
        state
    }

    /// What the feeds of each subject hold. Paused and failed downloads count neither as
    /// running nor as complete.
    pub fn subject_rss_overview(&self) -> (r: Result<HashMap<i64, SubjectRssState>, String>)
        ensures
            r is Ok,
            forall|subject_id: i64| #[trigger]
                r->Ok_0@.dom().contains(subject_id) <==> self@.subject_has_feed(
                    subject_id,
                    self@.feeds.len() as int,
                ),
            forall|subject_id: i64|
                r->Ok_0@.dom().contains(subject_id) ==> #[trigger] r->Ok_0@[subject_id]
                    == self@.subject_state(subject_id, self@.feeds.len() as int),
    {
        broadcast use vstd::std_specs::hash::group_hash_axioms;

        let ghost db = self@;
        let mut overview: HashMap<i64, SubjectRssState> = HashMap::new();
        for k in 0..self.feeds.len()
            invariant
                db == self@,
                forall|s: i64| #[trigger]
                    overview@.dom().contains(s) <==> db.subject_has_feed(s, k as int),
                forall|s: i64|
                    overview@.dom().contains(s) ==> #[trigger] overview@[s] == db.subject_state(
                        s,
                        k as int,
                    ),
        {
            assert(db.feeds[k as int] == self.feeds@[k as int]@);
            let ghost before = overview@;
            if let Some(subject_id) = self.feeds[k].subject_id {
                let state = self.feed_state(k);
                let known: SubjectRssState = match overview.get(&subject_id) {
                    Some(s) => *s,
                    None => SubjectRssState {
                        downloading: false,
                        completed: false,
                        pending: false,
                    },
                };
                let merged = SubjectRssState {
                    downloading: known.downloading || state.downloading,
                    completed: known.completed || state.completed,
                    pending: known.pending || state.pending,
                };
                assert(known == db.subject_state(subject_id, k as int)) by {
                    if !before.dom().contains(subject_id) {
                        assert(!db.subject_has_feed(subject_id, k as int));
                    }
                }
                overview.insert(subject_id, merged);
                assert(db.subject_has_feed(subject_id, k + 1));
                assert(merged == db.subject_state(subject_id, k + 1)) by {
                    lemma_state_step(db, subject_id, k as int);
                }
            }
            assert forall|s: i64| #[trigger]
                overview@.dom().contains(s) <==> db.subject_has_feed(s, k + 1) by {
                if db.subject_has_feed(s, k as int) {
                    let j = choose|j: int|
                        0 <= j < k && (#[trigger] db.feeds[j]).subject_id == Some(s);
                    assert(db.feeds[j].subject_id == Some(s));
                }
            }
            assert forall|s: i64| overview@.dom().contains(s) implies #[trigger] overview@[s]
                == db.subject_state(s, k + 1) by {
                if db.feeds[k as int].subject_id != Some(s) {
                    assert(before.dom().contains(s));
                    lemma_state_step(db, s, k as int);
                }
            }
        }
        Ok(overview)
    }
}

/// Whether items still have different identifiers after another one.
spec fn guids_still_differ(rows: Seq<ItemRowView>, row: ItemRowView) -> bool {
    forall|j: int| 0 <= j < rows.len() ==> (#[trigger] rows[j]).guid != row.guid
}

/// What one more feed adds to the state of a subject.
proof fn lemma_state_step(db: DatabaseView, subject_id: i64, k: int)
    requires
        0 <= k < db.feeds.len(),
    ensures
        ({
            let before = db.subject_state(subject_id, k);
            let after = db.subject_state(subject_id, k + 1);
            let feed = db.feeds[k];
            let own = feed.subject_id == Some(subject_id);
            &&& after.downloading == (before.downloading || own && db.feed_downloading(feed))
            &&& after.completed == (before.completed || own && db.feed_completed(feed))
            &&& after.pending == (before.pending || own && db.feed_pending(feed))
        }),
{
    let before = db.subject_state(subject_id, k);
    let after = db.subject_state(subject_id, k + 1);
    if before.downloading {
        let j = choose|j: int|
            0 <= j < k && (#[trigger] db.feeds[j]).subject_id == Some(subject_id)
                && db.feed_downloading(db.feeds[j]);
        assert(db.feeds[j].subject_id == Some(subject_id));
    }
    if before.completed {
        let j = choose|j: int|
            0 <= j < k && (#[trigger] db.feeds[j]).subject_id == Some(subject_id)
                && db.feed_completed(db.feeds[j]);
        assert(db.feeds[j].subject_id == Some(subject_id));
    }
    if before.pending {
        let j = choose|j: int|
            0 <= j < k && (#[trigger] db.feeds[j]).subject_id == Some(subject_id)
                && db.feed_pending(db.feeds[j]);
        assert(db.feeds[j].subject_id == Some(subject_id));
    }
}

/// A change of items that keeps their identifiers.
proof fn lemma_items_changed(
    before: Database,
    after: Database,
    p: spec_fn(ItemRowView) -> bool,
    change: spec_fn(ItemRowView) -> ItemRowView,
)
    requires
        before.wf(),
        after == (Database { items: after.items, ..before }),
        after.items@.len() == before.items@.len(),
        forall|r: ItemRowView| (#[trigger] change(r)).guid == r.guid,
        forall|j: int|
            0 <= j < after.items@.len() ==> (#[trigger] after.items@[j])@ == items_changed(
                before@.items,
                p,
                change,
            )[j],
    ensures
        after@ == before@.item_changed(p, change),
        after.wf(),
{
    let expected = items_changed(before@.items, p, change);
    assert(after@.items =~= expected);
    assert(after@ =~= before@.item_changed(p, change));
    assert forall|j: int| 0 <= j < after@.items.len() implies (#[trigger] after@.items[j]).guid
        == before@.items[j].guid by {
        assert(after@.items[j] == expected[j]);
    }
}

/// Items that were put in stay as they are when more are put in, and putting the same
/// items in again changes nothing.
pub proof fn law_stored_items_stay(
    rows: Seq<ItemRowView>,
    feed_id: Seq<char>,
    items: Seq<ItemView>,
    times: Seq<Seq<char>>,
    later: Seq<Seq<char>>,
)
    ensures
        rows.is_prefix_of(items_after(rows, feed_id, items, times)),
        items_after(items_after(rows, feed_id, items, times), feed_id, items, later)
            == items_after(rows, feed_id, items, times),
        items_inserted(items_after(rows, feed_id, items, times), feed_id, items, later)
            == Seq::<ItemView>::empty(),
{
    let once = items_after(rows, feed_id, items, times);
    lemma_items_prefix(rows, feed_id, items, times);
    assert forall|i: int| 0 <= i < items.len() implies some_row(
        once,
        item_has_guid((#[trigger] items[i]).guid),
    ) by {
        lemma_item_stored(rows, feed_id, items, times, i);
    }
    lemma_all_known(once, feed_id, items, later);
}

proof fn lemma_items_prefix(
    rows: Seq<ItemRowView>,
    feed_id: Seq<char>,
    items: Seq<ItemView>,
    times: Seq<Seq<char>>,
)
    ensures
        rows.is_prefix_of(items_after(rows, feed_id, items, times)),
    decreases items.len(),
{
    if items.len() > 0 {
        lemma_items_prefix(rows, feed_id, items.drop_last(), times);
    }
}

proof fn lemma_item_stored(
    rows: Seq<ItemRowView>,
    feed_id: Seq<char>,
    items: Seq<ItemView>,
    times: Seq<Seq<char>>,
    i: int,
)
    requires
        0 <= i < items.len(),
    ensures
        some_row(items_after(rows, feed_id, items, times), item_has_guid(items[i].guid)),
    decreases items.len(),
{
    let rest = items.drop_last();
    let before = items_after(rows, feed_id, rest, times);
    let after = items_after(rows, feed_id, items, times);
    if i < rest.len() {
        lemma_item_stored(rows, feed_id, rest, times, i);
        let k = choose|k: int|
            0 <= k < before.len() && item_has_guid(items[i].guid)(#[trigger] before[k]);
        assert(after[k] == before[k]);
    } else if !some_row(before, item_has_guid(items.last().guid)) {
        assert(item_has_guid(items[i].guid)(after[after.len() - 1]));
    }
}

proof fn lemma_all_known(
    rows: Seq<ItemRowView>,
    feed_id: Seq<char>,
    items: Seq<ItemView>,
    times: Seq<Seq<char>>,
)
    requires
        forall|i: int|
            0 <= i < items.len() ==> some_row(rows, item_has_guid((#[trigger] items[i]).guid)),
    ensures
        items_after(rows, feed_id, items, times) == rows,
        items_inserted(rows, feed_id, items, times) == Seq::<ItemView>::empty(),
    decreases items.len(),
{
    if items.len() > 0 {
        let rest = items.drop_last();
        assert forall|i: int| 0 <= i < rest.len() implies some_row(
            rows,
            item_has_guid((#[trigger] rest[i]).guid),
        ) by {
            assert(rest[i] == items[i]);
        }
        lemma_all_known(rows, feed_id, rest, times);
        assert(items[items.len() - 1] == items.last());
    }
}

} // verus!
