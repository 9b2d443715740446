//! What holds of the records: their order, what opening them repairs, and how they are brought to
//! the present schema.

use crate::db::collection_table::{setting_of, watched_of};
use crate::db::download_table::{creation_times, tasks_latest_first};
use crate::db::feed_table::{feed_titles, feeds_by_title};
use crate::db::item_table::{item_in_feed, times_seen};
use crate::db::repair::{item_source, rekeyed, relinked};
use crate::db::schema::{added_columns, migrations_from, missing_columns, version_after};
use crate::db::{CollectionRowView, Database, DatabaseView, DownloadRowView, ItemRowView};
use crate::json::Json;
use crate::links::source_key;
use crate::models::{FeedView, TaskView};
use crate::order::{ordered, sorted_rows, text_lt};
use crate::downloads::waiting_ids;
use vstd::prelude::*;

verus! {

/// Texts are compared by their first difference, and a text stands before its continuations.
pub proof fn law_texts_are_compared_by_their_first_difference(
    head: Seq<char>,
    c: char,
    d: char,
    x: Seq<char>,
    y: Seq<char>,
)
    ensures
        c != d ==> (text_lt(head.push(c) + x, head.push(d) + y) <==> c < d),
        text_lt(head, head + x) <==> x.len() > 0,
        !text_lt(head + x, head),
    decreases head.len(),
{
    let a = head.push(c) + x;
    let b = head.push(d) + y;
    if head.len() == 0 {
        assert(a[0] == c && b[0] == d);
        assert(head + x =~= x);
    } else {
        let rest = head.drop_first();
        law_texts_are_compared_by_their_first_difference(rest, c, d, x, y);
        assert(a.drop_first() =~= rest.push(c) + x);
        assert(b.drop_first() =~= rest.push(d) + y);
        assert((head + x).drop_first() =~= rest + x);
        assert(a[0] == head[0] && b[0] == head[0]);
        assert((head + x)[0] == head[0]);
    }
}

/// Whether an order names each of some rows once.
pub open spec fn names_each_once(order: Seq<int>, n: nat) -> bool {
    &&& order.len() == n
    &&& forall|p: int| 0 <= p < n ==> 0 <= #[trigger] order[p] < n
    &&& forall|p: int, q: int| 0 <= p < q < n ==> #[trigger] order[p] != #[trigger] order[q]
}

pub proof fn lemma_arranged(keys: Seq<Seq<char>>, descending: bool)
    ensures
        names_each_once(ordered(keys, descending), keys.len()),
        forall|p: int, q: int|
            0 <= p < q < keys.len() ==> {
                let a = keys[#[trigger] ordered(keys, descending)[p]];
                let b = keys[#[trigger] ordered(keys, descending)[q]];
                if descending {
                    !text_lt(a, b)
                } else {
                    !text_lt(b, a)
                }
            },
{
    let order = ordered(keys, descending);
    crate::order::law_ordering_is_stable(keys, descending, keys.len());
    assert forall|p: int, q: int| 0 <= p < q < keys.len() implies {
        let i = #[trigger] order[p];
        let j = #[trigger] order[q];
        i != j && if descending {
            !text_lt(keys[i], keys[j])
        } else {
            !text_lt(keys[j], keys[i])
        }
    } by {
        let i = order[p];
        let j = order[q];
        let a = keys[i];
        let b = keys[j];
        crate::order::lemma_lt_irreflexive(a);
        crate::order::lemma_lt_irreflexive(b);
        if text_lt(a, b) && text_lt(b, a) {
            crate::order::lemma_lt_transitive(a, b, a);
        }
    }
}

/// Downloads are listed with all of them there once, and none before one that was added later.
pub proof fn law_downloads_are_listed_latest_first(rows: Seq<DownloadRowView>)
    ensures
        exists|order: Seq<int>| #[trigger]
            names_each_once(order, rows.len()) && tasks_latest_first(rows) == order.map_values(
                |i: int| rows[i].task,
            ) && forall|p: int, q: int|
                0 <= p < q < rows.len() ==> !text_lt(
                    rows[#[trigger] order[p]].created_at,
                    rows[#[trigger] order[q]].created_at,
                ),
{
    let keys = creation_times(rows);
    let order = ordered(keys, true);
    lemma_arranged(keys, true);
    assert(tasks_latest_first(rows) =~= order.map_values(|i: int| rows[i].task));
    assert forall|p: int, q: int| 0 <= p < q < rows.len() implies !text_lt(
        rows[#[trigger] order[p]].created_at,
        rows[#[trigger] order[q]].created_at,
    ) by {
        assert(keys[order[p]] == rows[order[p]].created_at);
        assert(keys[order[q]] == rows[order[q]].created_at);
    }
    assert(names_each_once(order, rows.len()));
}

/// A download stands in line exactly where it waits.
pub proof fn law_waiting_downloads_stand_in_line(db: DatabaseView, k: int)
    requires
        db.wf(),
        0 <= k < db.downloads.len(),
    ensures
        waiting_ids(db.downloads).contains(db.downloads[k].task.id) <==> db.downloads[k].task.state
            == "queued"@,
{
    let rows = db.downloads;
    let row = rows[k];
    let all = tasks_latest_first(rows);
    let p = |t: TaskView| t.state == "queued"@;
    if row.task.state == "queued"@ {
        crate::order::lemma_sorted_rows(rows, creation_times(rows), true);
        let sorted = sorted_rows(rows, creation_times(rows), true);
        assert(sorted.contains(row));
        let i = choose|i: int| 0 <= i < sorted.len() && sorted[i] == row;
        assert(all[i] == row.task);
        all.lemma_filter_contains(p, i);
        let kept = all.filter(p);
        assert(kept.contains(row.task));
        let j = choose|j: int| 0 <= j < kept.len() && kept[j] == row.task;
        assert(waiting_ids(rows)[j] == row.task.id);
    } else {
        crate::downloads::law_only_waiting_downloads_start(db, k);
    }
}

/// Feeds are listed with all of them there once, in the order of their titles.
pub proof fn law_feeds_are_listed_by_title(feeds: Seq<FeedView>)
    ensures
        exists|order: Seq<int>| #[trigger]
            names_each_once(order, feeds.len()) && feeds_by_title(feeds) == order.map_values(
                |i: int| feeds[i],
            ) && forall|p: int, q: int|
                0 <= p < q < feeds.len() ==> !text_lt(
                    feeds[#[trigger] order[q]].title,
                    feeds[#[trigger] order[p]].title,
                ),
{
    let keys = feed_titles(feeds);
    let order = ordered(keys, false);
    lemma_arranged(keys, false);
    assert(feeds_by_title(feeds) =~= order.map_values(|i: int| feeds[i]));
    assert forall|p: int, q: int| 0 <= p < q < feeds.len() implies !text_lt(
        feeds[#[trigger] order[q]].title,
        feeds[#[trigger] order[p]].title,
    ) by {
        assert(keys[order[p]] == feeds[order[p]].title);
        assert(keys[order[q]] == feeds[order[q]].title);
    }
    assert(names_each_once(order, feeds.len()));
}

/// Items are listed latest first: of the stored items of the feed, or of all, as many as asked for,
/// and none before one that was seen later.
pub proof fn law_items_are_listed_latest_first(
    db: DatabaseView,
    feed_id: Option<Seq<char>>,
    limit: nat,
)
    ensures
        ({
            let rows = db.items.filter(item_in_feed(feed_id));
            let listed = db.items_listed(feed_id, limit);
            &&& listed.len() == if limit < rows.len() {
                limit
            } else {
                rows.len()
            }
            &&& exists|order: Seq<int>| #[trigger]
                names_each_once(order, rows.len()) && (forall|p: int|
                    0 <= p < listed.len() ==> #[trigger] listed[p] == db.item_shown(
                        rows[order[p]],
                    )) && forall|p: int, q: int|
                    0 <= p < q < rows.len() ==> !text_lt(
                        rows[#[trigger] order[p]].seen_at,
                        rows[#[trigger] order[q]].seen_at,
                    )
        }),
{
    let rows = db.items.filter(item_in_feed(feed_id));
    let keys = times_seen(rows);
    let order = ordered(keys, true);
    let listed = db.items_listed(feed_id, limit);
    lemma_arranged(keys, true);
    assert forall|p: int, q: int| 0 <= p < q < rows.len() implies !text_lt(
        rows[#[trigger] order[p]].seen_at,
        rows[#[trigger] order[q]].seen_at,
    ) by {
        assert(keys[order[p]] == rows[order[p]].seen_at);
        assert(keys[order[q]] == rows[order[q]].seen_at);
    }
    assert(names_each_once(order, rows.len()));
    assert forall|p: int| 0 <= p < listed.len() implies #[trigger] listed[p] == db.item_shown(
        rows[order[p]],
    ) by {}
}

/// A deleted feed goes with its items, and nothing else goes.
pub proof fn law_deleted_feeds_go_with_their_items(
    db: DatabaseView,
    id: Seq<char>,
    feed: FeedView,
    row: ItemRowView,
)
    ensures
        ({
            let after = db.feed_deleted(id);
            &&& after.feeds.contains(feed) <==> db.feeds.contains(feed) && feed.id != id
            &&& after.items.contains(row) <==> db.items.contains(row) && row.feed_id != id
            &&& after == (DatabaseView { feeds: after.feeds, items: after.items, ..db })
        }),
{
    let keep_feed = |f: FeedView| f.id != id;
    let keep_item = |r: ItemRowView| r.feed_id != id;
    crate::rows::lemma_filter_pairs(db.feeds, keep_feed, |a: FeedView, b: FeedView| true);
    crate::rows::lemma_filter_pairs(db.items, keep_item, |a: ItemRowView, b: ItemRowView| true);
    let after = db.feed_deleted(id);
    if db.feeds.contains(feed) && feed.id != id {
        let i = choose|i: int| 0 <= i < db.feeds.len() && db.feeds[i] == feed;
        db.feeds.lemma_filter_contains(keep_feed, i);
    }
    if db.items.contains(row) && row.feed_id != id {
        let i = choose|i: int| 0 <= i < db.items.len() && db.items[i] == row;
        db.items.lemma_filter_contains(keep_item, i);
    }
    if after.feeds.contains(feed) {
        let i = choose|i: int| 0 <= i < after.feeds.len() && after.feeds[i] == feed;
        assert(keep_feed(after.feeds[i]) && db.feeds.contains(after.feeds[i]));
    }
    if after.items.contains(row) {
        let i = choose|i: int| 0 <= i < after.items.len() && after.items[i] == row;
        assert(keep_item(after.items[i]) && db.items.contains(after.items[i]));
    }
}

/// Documents and details that are stored are there afterwards, with their time, and no others
/// change.
pub proof fn law_documents_are_stored(
    db: DatabaseView,
    id: i64,
    payload: Json,
    now: Seq<char>,
    other: i64,
)
    requires
        other != id,
    ensures
        ({
            let cached = db.subject_cached(id, payload, now);
            let saved = db.detail_saved(id, payload, now);
            &&& cached.subjects.dom().contains(id) && cached.subjects[id] == (payload, now)
            &&& cached.subjects.dom().contains(other) == db.subjects.dom().contains(other)
            &&& cached.subjects[other] == db.subjects[other]
            &&& cached == (DatabaseView { subjects: cached.subjects, ..db })
            &&& saved.details.dom().contains(id) && saved.details[id] == (payload, now)
            &&& saved.details.dom().contains(other) == db.details.dom().contains(other)
            &&& saved.details[other] == db.details[other]
            &&& saved == (DatabaseView { details: saved.details, ..db })
        }),
{
}

/// A setting has the value that stands with its key; the episodes of a subject of which nothing is
/// known are none.
pub proof fn law_settings_and_episodes_are_found(
    settings: Seq<(Seq<char>, Seq<char>)>,
    k: int,
    collections: Map<i64, CollectionRowView>,
    id: i64,
    key: Seq<char>,
)
    requires
        crate::db::setting_keys_differ(settings),
    ensures
        0 <= k < settings.len() ==> setting_of(settings, settings[k].0) == Some(settings[k].1),
        (forall|i: int| 0 <= i < settings.len() ==> (#[trigger] settings[i]).0 != key)
            ==> setting_of(settings, key) is None,
        collections.dom().contains(id) ==> watched_of(collections, id) == collections[id].watched,
        !collections.dom().contains(id) ==> watched_of(collections, id) == 0,
{
    if 0 <= k < settings.len() {
        let p = crate::db::collection_table::setting_has_key(settings[k].0);
        assert forall|j: int| 0 <= j < k implies !p(#[trigger] settings[j]) by {
            assert(settings[j].0 != settings[k].0);
        }
        crate::rows::lemma_first_at(settings, p, k);
    }
    crate::rows::lemma_first_none(
        settings,
        crate::db::collection_table::setting_has_key(key),
    );
}

/// Opening the records gives each download the key of its source. An item that counts as downloaded
/// but names no download gets the latest one from its torrent or, without one, from its link, where
/// there is one, and otherwise does not count as downloaded. Items that are not downloaded, or that
/// name their download, keep that, and all else stays.
pub proof fn law_opening_links_items(db: DatabaseView, k: int, j: int)
    requires
        0 <= k < db.items.len(),
        0 <= j < db.downloads.len(),
    ensures
        ({
            let row = db.items[k];
            let after = db.repaired();
            let new = after.items[k];
            let source = if row.torrent is Some {
                row.torrent->0
            } else {
                row.link
            };
            &&& new == (ItemRowView {
                download_id: new.download_id,
                downloaded: new.downloaded,
                ..row
            })
            &&& !row.downloaded ==> !new.downloaded && new.download_id == row.download_id
            &&& row.download_id is Some ==> new == row
            &&& row.downloaded && row.download_id is None ==> (new.downloaded
                <==> new.download_id is Some)
            &&& row.downloaded && row.download_id is None && db.downloads[j].source == source
                ==> new.downloaded
            &&& row.downloaded && row.download_id is None && new.downloaded ==> exists|i: int|
                0 <= i < db.downloads.len() && new.download_id == Some(
                    (#[trigger] db.downloads[i]).task.id,
                ) && db.downloads[i].source == source && (db.downloads[j].source == source
                    ==> !text_lt(db.downloads[i].created_at, db.downloads[j].created_at))
            &&& after.downloads[j] == (DownloadRowView {
                source_key: source_key(db.downloads[j].source),
                ..db.downloads[j]
            })
            &&& after.feeds == db.feeds && after.collections == db.collections && after.sync
                == db.sync && after.settings == db.settings
        }),
{
    let row = db.items[k];
    let source = item_source(row);
    let p = crate::db::repair::download_from(source);
    crate::db::download_table::law_latest_is_last(db.downloads, p);
    if db.downloads[j].source == source {
        assert(p(db.downloads[j]));
    }
    if let Some(d) = crate::db::download_table::latest(db.downloads, p) {
        let i = choose|i: int| 0 <= i < db.downloads.len() && db.downloads[i] == d;
        assert(p(db.downloads[i]));
    }
    assert(db.repaired().items[k] == relinked(db.downloads, row));
    assert(db.repaired().downloads[j] == rekeyed(db.downloads[j]));
}

/// An old database is migrated step by step: the first step adds the subjects of feeds, the second
/// the details of subjects, each with its version in one transaction. Newer ones are left alone.
pub proof fn law_migrations_come_in_order(current: i64)
    ensures
        current <= 0 ==> migrations_from(current as int) == seq![
            "BEGIN; "@ + "ALTER TABLE rss_feeds ADD COLUMN subject_id INTEGER"@
                + "; PRAGMA user_version="@ + crate::numbers::decimal(1) + "; COMMIT;"@,
            "BEGIN; "@
                + "CREATE TABLE IF NOT EXISTS subject_details(subject_id INTEGER PRIMARY KEY,payload TEXT NOT NULL,updated_at TEXT NOT NULL)"@
                + "; PRAGMA user_version="@ + crate::numbers::decimal(2) + "; COMMIT;"@,
        ],
        current == 1 ==> migrations_from(current as int) == migrations_from(0).skip(1),
        current >= 2 ==> migrations_from(current as int).len() == 0,
        current < 2 ==> version_after(current) == 2,
        current >= 2 ==> version_after(current) == current,
{
    if current <= 0 {
        assert(migrations_from(current as int).len() == 2);
        assert(migrations_from(current as int) =~= seq![
            crate::db::schema::migration_batch(0),
            crate::db::schema::migration_batch(1),
        ]);
    }
    if current == 1 {
        assert(migrations_from(1) =~= migrations_from(0).skip(1));
    }
}

proof fn lemma_missing(columns: Seq<(Seq<char>, Seq<char>)>, n: int, k: int)
    requires
        0 <= k < n,
    ensures
        !columns.contains((added_columns()[k].0, added_columns()[k].1)) ==> missing_columns(
            columns,
            n,
        ).contains(added_columns()[k].2),
    decreases n,
{
    let all = missing_columns(columns, n);
    let before = missing_columns(columns, n - 1);
    if k < n - 1 {
        lemma_missing(columns, n - 1, k);
        if before.contains(added_columns()[k].2) {
            let i = choose|i: int| 0 <= i < before.len() && before[i] == added_columns()[k].2;
            assert(all[i] == before[i]);
        }
    } else if !columns.contains((added_columns()[k].0, added_columns()[k].1)) {
        assert(all[all.len() - 1] == added_columns()[k].2);
    }
}

/// Each column that later versions added and that a stored database lacks is added.
pub proof fn law_missing_columns_are_added(columns: Seq<(Seq<char>, Seq<char>)>)
    ensures
        ({
            let plan = missing_columns(columns, added_columns().len() as int);
            &&& !columns.contains(("rss_items"@, "download_id"@)) ==> plan.contains(
                "ALTER TABLE rss_items ADD COLUMN download_id TEXT"@,
            )
            &&& !columns.contains(("downloads"@, "source_key"@)) ==> plan.contains(
                "ALTER TABLE downloads ADD COLUMN source_key TEXT"@,
            )
            &&& !columns.contains(("rss_feeds"@, "rule_json"@)) ==> plan.contains(
                "ALTER TABLE rss_feeds ADD COLUMN rule_json TEXT"@,
            )
            &&& !columns.contains(("downloads"@, "playback_path"@)) ==> plan.contains(
                "ALTER TABLE downloads ADD COLUMN playback_path TEXT"@,
            )
            &&& !columns.contains(("downloads"@, "files_json"@)) ==> plan.contains(
                "ALTER TABLE downloads ADD COLUMN files_json TEXT"@,
            )
            &&& !columns.contains(("sync_queue"@, "version"@)) ==> plan.contains(
                "ALTER TABLE sync_queue ADD COLUMN version INTEGER NOT NULL DEFAULT 1"@,
            )
            &&& plan.len() <= 6
            &&& (forall|k: int|
                0 <= k < 6 ==> columns.contains(
                    ((#[trigger] added_columns()[k]).0, added_columns()[k].1),
                )) ==> plan.len() == 0
        }),
{
    lemma_missing(columns, 6, 0);
    lemma_missing(columns, 6, 1);
    lemma_missing(columns, 6, 2);
    lemma_missing(columns, 6, 3);
    lemma_missing(columns, 6, 4);
    lemma_missing(columns, 6, 5);
    lemma_few(columns, 6);
}

proof fn lemma_few(columns: Seq<(Seq<char>, Seq<char>)>, n: int)
    requires
        0 <= n <= 6,
    ensures
        missing_columns(columns, n).len() <= n,
        (forall|k: int|
            0 <= k < 6 ==> columns.contains(
                ((#[trigger] added_columns()[k]).0, added_columns()[k].1),
            )) ==> missing_columns(columns, n).len() == 0,
    decreases n,
{
    if n > 0 {
        lemma_few(columns, n - 1);
        let a = added_columns()[n - 1];
    }
}

/// New records hold nothing.
pub proof fn law_new_records_hold_nothing(db: Database, id: i64)
    requires
        db.is_empty(),
    ensures
        db@.feeds.len() == 0,
        db@.items.len() == 0,
        db@.downloads.len() == 0,
        db@.settings.len() == 0,
        db@.sync.len() == 0,
        db@.calendar is None,
        !db@.collections.dom().contains(id),
        !db@.subjects.dom().contains(id),
        !db@.details.dom().contains(id),
        db@.last_sync_id == 0,
        db@.user_version == 2,
{
}

/// An import counts the entries whose subjects have no change that waits, one by one.
pub proof fn law_imports_count_what_they_take(
    db: DatabaseView,
    list: Seq<(i64, Seq<char>, i64)>,
    entry: (i64, Seq<char>, i64),
)
    ensures
        db.import_count(Seq::empty()) == 0,
        db.import_count(list.push(entry)) == db.import_count(list) + if db.sync_waits(entry.0) {
            0int
        } else {
            1int
        },
{
    assert(list.push(entry).drop_last() =~= list);
}

/// When a subject is unsubscribed its feeds go, and with them exactly the items that one of them
/// brought; all other feeds, items and downloads stay.
pub proof fn law_unsubscribed_feeds_go_with_their_items(
    db: DatabaseView,
    subject_id: i64,
    feed: FeedView,
    row: ItemRowView,
)
    ensures
        ({
            let after = db.subject_unsubscribed(subject_id);
            let served = exists|k: int|
                0 <= k < db.feeds.len() && (#[trigger] db.feeds[k]).id == row.feed_id
                    && db.feeds[k].subject_id == Some(subject_id);
            &&& after.feeds.contains(feed) <==> db.feeds.contains(feed) && feed.subject_id != Some(
                subject_id,
            )
            &&& after.items.contains(row) <==> db.items.contains(row) && !served
            &&& after.downloads == db.downloads
            &&& after.collections == db.collections
        }),
{
    let after = db.subject_unsubscribed(subject_id);
    let keep = |f: FeedView| f.subject_id != Some(subject_id);
    let stays = |r: ItemRowView| !db.feed_serves(r.feed_id, subject_id);
    assert(after.feeds =~= db.feeds.filter(keep));
    assert(after.items =~= db.items.filter(stays));
    if after.feeds.contains(feed) {
        db.feeds.lemma_filter_contains_rev(keep, feed);
        let i = choose|i: int| 0 <= i < after.feeds.len() && after.feeds[i] == feed;
        db.feeds.lemma_filter_pred(keep, i);
    }
    if db.feeds.contains(feed) && keep(feed) {
        let i = choose|i: int| 0 <= i < db.feeds.len() && db.feeds[i] == feed;
        db.feeds.lemma_filter_contains(keep, i);
    }
    if after.items.contains(row) {
        db.items.lemma_filter_contains_rev(stays, row);
        let i = choose|i: int| 0 <= i < after.items.len() && after.items[i] == row;
        db.items.lemma_filter_pred(stays, i);
    }
    if db.items.contains(row) && stays(row) {
        let i = choose|i: int| 0 <= i < db.items.len() && db.items[i] == row;
        db.items.lemma_filter_contains(stays, i);
    }
}

} // verus!
