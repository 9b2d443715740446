//! What holds of subscriptions: what a refresh stores and picks, what is listed, and what a batch
//! and a refresh of all feeds tell.

use crate::db::feed_table::{adopted, checked, enabled, feeds_by_title, ruled};
use crate::db::item_table::{
    downloaded_by, item_has_guid, item_in_feed, items_after, items_inserted, new_item,
    not_downloaded,
};
use crate::db::{DatabaseView, ItemRowView};
use crate::matcher::rule_accepts;
use crate::models::{FeedRuleView, FeedView, ItemView, SubjectRssState};
use crate::rss::{
    BatchView, ItemOutcome, accepted_by_feed, automatic_picks, download_settled, download_source,
    feed_refreshed, is_enabled, item_annotated, items_limit, new_item_count, noted, picks_among,
    plain_feed, refresh_failures, subject_feed, subscription_title,
};
use crate::subscriptions::{mikan_url, update_state};
use crate::text::{ascii_lower, trimmed};
use vstd::prelude::*;

verus! {

proof fn lemma_picks_in_turn(a: Seq<ItemView>, b: Seq<ItemView>, rule: crate::matcher::RuleView)
    ensures
        picks_among(a + b, rule) == picks_among(a, rule) + picks_among(b, rule),
    decreases b.len(),
{
    if b.len() == 0 {
        assert(a + b =~= a);
        assert(picks_among(a, rule) + picks_among(b, rule) =~= picks_among(a, rule));
    } else {
        assert((a + b).drop_last() =~= a + b.drop_last());
        assert((a + b).last() == b.last());
        lemma_picks_in_turn(a, b.drop_last(), rule);
        let x = picks_among(a, rule);
        let y = picks_among(b.drop_last(), rule);
        assert forall|p: (Seq<char>, Seq<char>, Seq<char>)| (x + y).push(p) =~= x + #[trigger] y.push(p) by {}
        assert(picks_among(a + b, rule) =~= x + picks_among(b, rule));
    }
}

/// What is picked of new items is picked item by item, in their order: of some items and others
/// behind them what is picked of each, and of one item that item, with its own identifier, source
/// and title, where downloads are automatic, the rule accepts its title and it can be downloaded.
pub proof fn law_new_items_are_picked_one_by_one(
    some: Seq<ItemView>,
    others: Seq<ItemView>,
    item: ItemView,
    rule: FeedRuleView,
)
    ensures
        automatic_picks(some + others, rule) == automatic_picks(some, rule) + automatic_picks(
            others,
            rule,
        ),
        rule.auto_download && rule_accepts(item.title, rule.matching()) && download_source(
            item,
        ) is Some ==> automatic_picks(seq![item], rule) == seq![
            (item.guid, download_source(item)->0, item.title),
        ],
        !(rule.auto_download && rule_accepts(item.title, rule.matching()) && download_source(
            item,
        ) is Some) ==> automatic_picks(seq![item], rule).len() == 0,
{
    lemma_picks_in_turn(some, others, rule.matching());
    let none = Seq::<ItemView>::empty();
    assert(seq![item].drop_last() =~= none);
    assert(seq![item].last() == item);
    assert(picks_among(none, rule.matching()).len() == 0);
    if rule.auto_download {
        if rule_accepts(item.title, rule.matching()) && download_source(item) is Some {
            assert(automatic_picks(seq![item], rule) =~= seq![
                (item.guid, download_source(item)->0, item.title),
            ]);
        }
    } else {
        assert(automatic_picks(some + others, rule) =~= automatic_picks(some, rule)
            + automatic_picks(others, rule));
    }
}

/// Where downloads are automatic, every new item that the rule accepts and that can be
/// downloaded is among the picks.
pub proof fn law_every_accepted_item_is_picked(items: Seq<ItemView>, rule: FeedRuleView, k: int)
    requires
        0 <= k < items.len(),
        rule.auto_download,
        rule_accepts(items[k].title, rule.matching()),
        download_source(items[k]) is Some,
    ensures
        automatic_picks(items, rule).contains(
            (items[k].guid, download_source(items[k])->0, items[k].title),
        ),
{
    let item = items[k];
    let pick = (item.guid, download_source(item)->0, item.title);
    let a = items.take(k);
    let b = items.skip(k + 1);
    assert(items =~= a + seq![item] + b);
    law_new_items_are_picked_one_by_one(a + seq![item], b, item, rule);
    law_new_items_are_picked_one_by_one(a, seq![item], item, rule);
    let at = automatic_picks(a, rule).len() as int;
    assert(automatic_picks(items, rule)[at] == pick);
}

/// An item is downloaded from its torrent; without one, from its link where that is a magnet link
/// or names a torrent file, in whatever case.
pub proof fn law_items_are_downloaded_from_torrents_and_links(item: ItemView, rest: Seq<char>)
    ensures
        item.torrent is Some ==> download_source(item) == item.torrent,
        item.torrent is None && item.link == "magnet:"@ + rest ==> download_source(item) == Some(
            item.link,
        ),
        item.torrent is None && ascii_lower(item.link) == rest + ".torrent"@ ==> download_source(
            item,
        ) == Some(item.link),
        item.torrent is None && !"magnet:"@.is_prefix_of(item.link) && !".torrent"@.is_suffix_of(
            ascii_lower(item.link),
        ) ==> download_source(item) is None,
{
    assert(("magnet:"@ + rest).subrange(0, "magnet:"@.len() as int) =~= "magnet:"@);
    let whole = rest + ".torrent"@;
    assert(whole.subrange(rest.len() as int, whole.len() as int) =~= ".torrent"@);
}

/// A feed that the user adds is enabled, was checked when it was added, belongs to no subject and
/// downloads nothing on its own.
pub proof fn law_added_feeds_are_plain(
    id: Seq<char>,
    title: Seq<char>,
    url: Seq<char>,
    now: Seq<char>,
)
    ensures
        ({
            let feed = plain_feed(id, title, url, now);
            &&& feed.id == id
            &&& feed.title == title
            &&& feed.url == url
            &&& feed.enabled
            &&& feed.last_checked_at == Some(now)
            &&& feed.subject_id is None
            &&& !feed.rule.auto_download
            &&& feed.rule.includes.len() == 0
            &&& feed.rule.excludes.len() == 0
            &&& feed.rule.resolution is None
            &&& feed.rule.subtitle_group is None
        }),
{
}

/// A subscription to a subject is enabled, reads the feed of the subject, and downloads all that
/// is new of the subtitle group, where one is given that is not blank, and of all otherwise.
pub proof fn law_subscriptions_download_what_is_new(
    id: Seq<char>,
    title: Seq<char>,
    subject_id: i64,
    group: Option<Seq<char>>,
    now: Seq<char>,
)
    ensures
        ({
            let feed = subject_feed(id, title, subject_id, group, now);
            &&& feed.id == id
            &&& feed.title == title
            &&& feed.url == mikan_url(subject_id)
            &&& feed.enabled
            &&& feed.last_checked_at == Some(now)
            &&& feed.subject_id == Some(subject_id)
            &&& feed.rule.auto_download
            &&& feed.rule.includes.len() == 0
            &&& feed.rule.excludes.len() == 0
            &&& feed.rule.resolution is None
            &&& group is None ==> feed.rule.subtitle_group is None
            &&& group is Some && trimmed(group->0).len() == 0 ==> feed.rule.subtitle_group is None
            &&& group is Some && trimmed(group->0).len() > 0 ==> feed.rule.subtitle_group == Some(
                trimmed(group->0),
            )
        }),
{
}

/// A subscription is named after its feed; where that has no name, after the subject in Chinese,
/// and where there is none either, after the subject.
pub proof fn law_subscriptions_are_named(title: Seq<char>, name: Seq<char>, name_cn: Seq<char>)
    ensures
        ({
            let named = subscription_title(title, name, name_cn);
            &&& trimmed(title).len() > 0 ==> named == trimmed(title)
            &&& trimmed(title).len() == 0 && trimmed(name_cn).len() > 0 ==> named == trimmed(
                name_cn,
            )
            &&& trimmed(title).len() == 0 && trimmed(name_cn).len() == 0 ==> named == trimmed(name)
        }),
{
}

/// Changes of a feed change what they say and nothing else of it.
pub proof fn law_feed_changes_touch_what_they_say(
    feed: FeedView,
    subject_id: i64,
    title: Seq<char>,
    now: Seq<char>,
    on: bool,
    rule: FeedRuleView,
)
    ensures
        adopted(subject_id)(feed).subject_id == Some(subject_id),
        adopted(subject_id)(feed).enabled,
        adopted(subject_id)(feed).rule == feed.rule,
        adopted(subject_id)(feed).title == feed.title,
        checked(title, now)(feed).title == title,
        checked(title, now)(feed).last_checked_at == Some(now),
        checked(title, now)(feed).rule == feed.rule,
        checked(title, now)(feed).enabled == feed.enabled,
        checked(title, now)(feed).subject_id == feed.subject_id,
        enabled(on)(feed).enabled == on,
        enabled(on)(feed).rule == feed.rule,
        enabled(on)(feed).title == feed.title,
        ruled(rule)(feed).rule == rule,
        ruled(rule)(feed).enabled == feed.enabled,
        ruled(rule)(feed).subject_id == feed.subject_id,
        ruled(rule)(feed).title == feed.title,
        adopted(subject_id)(feed).id == feed.id && adopted(subject_id)(feed).url == feed.url,
        checked(title, now)(feed).id == feed.id && checked(title, now)(feed).url == feed.url,
        enabled(on)(feed).id == feed.id && enabled(on)(feed).url == feed.url,
        ruled(rule)(feed).id == feed.id && ruled(rule)(feed).url == feed.url,
{
}

/// A refresh notes the title and the time of the check with its feed, and leaves all other feeds
/// and all downloads and collections as they were.
pub proof fn law_a_refresh_notes_the_check(
    db: DatabaseView,
    id: Seq<char>,
    title: Seq<char>,
    items: Seq<ItemView>,
    now: Seq<char>,
    times: Seq<Seq<char>>,
    k: int,
)
    requires
        0 <= k < db.feeds.len(),
    ensures
        ({
            let after = feed_refreshed(db, id, title, items, now, times);
            let old = db.feeds[k];
            let new = after.feeds[k];
            &&& after.feeds.len() == db.feeds.len()
            &&& old.id != id ==> new == old
            &&& old.id == id ==> new.title == title && new.last_checked_at == Some(now)
                && new.rule == old.rule && new.enabled == old.enabled && new.url == old.url
                && new.subject_id == old.subject_id && new.id == old.id
            &&& after.downloads == db.downloads
            &&& after.collections == db.collections
            &&& after.sync == db.sync
        }),
{
}

proof fn lemma_rows_stay(
    rows: Seq<ItemRowView>,
    feed_id: Seq<char>,
    items: Seq<ItemView>,
    times: Seq<Seq<char>>,
)
    ensures
        items_after(rows, feed_id, items, times).len() >= rows.len(),
        forall|i: int|
            0 <= i < rows.len() ==> #[trigger] items_after(rows, feed_id, items, times)[i]
                == rows[i],
        forall|i: int|
            rows.len() <= i < items_after(rows, feed_id, items, times).len() ==> exists|j: int|
                0 <= j < items.len() && (#[trigger] items[j]).guid == (#[trigger] items_after(
                    rows,
                    feed_id,
                    items,
                    times,
                )[i]).guid,
    decreases items.len(),
{
    if items.len() > 0 {
        let rest = items.drop_last();
        lemma_rows_stay(rows, feed_id, rest, times);
        let before = items_after(rows, feed_id, rest, times);
        let after = items_after(rows, feed_id, items, times);
        assert forall|i: int| rows.len() <= i < after.len() implies exists|j: int|
            0 <= j < items.len() && (#[trigger] items[j]).guid == (#[trigger] after[i]).guid by {
            if i < before.len() {
                assert(after[i] == before[i]);
                let j = choose|j: int|
                    0 <= j < rest.len() && (#[trigger] rest[j]).guid == before[i].guid;
                assert(items[j] == rest[j]);
            } else {
                assert(items[items.len() - 1].guid == after[i].guid);
            }
        }
    }
}

proof fn lemma_kept_behind(
    rows: Seq<ItemRowView>,
    feed_id: Seq<char>,
    items: Seq<ItemView>,
    times: Seq<Seq<char>>,
    n: int,
)
    requires
        0 <= n <= items.len(),
    ensures
        forall|row: ItemRowView|
            items_after(rows, feed_id, items.take(n), times).contains(row)
                ==> #[trigger] items_after(rows, feed_id, items, times).contains(row),
        forall|item: ItemView|
            items_inserted(rows, feed_id, items.take(n), times).contains(item)
                ==> #[trigger] items_inserted(rows, feed_id, items, times).contains(item),
    decreases items.len(),
{
    if n == items.len() {
        assert(items.take(n) =~= items);
    } else {
        let rest = items.drop_last();
        lemma_kept_behind(rows, feed_id, rest, times, n);
        assert(rest.take(n) =~= items.take(n));
        let a = items_after(rows, feed_id, rest, times);
        let b = items_after(rows, feed_id, items, times);
        assert forall|row: ItemRowView| a.contains(row) implies #[trigger] b.contains(row) by {
            let i = choose|i: int| 0 <= i < a.len() && a[i] == row;
            assert(b[i] == row);
        }
        let x = items_inserted(rows, feed_id, rest, times);
        let y = items_inserted(rows, feed_id, items, times);
        assert forall|item: ItemView| x.contains(item) implies #[trigger] y.contains(item) by {
            let i = choose|i: int| 0 <= i < x.len() && x[i] == item;
            assert(y[i] == item);
        }
    }
}

/// An item that is new, because neither a stored item nor an earlier one of the same feed has its
/// identifier, is stored as it is, as first seen at its time and not downloaded, and it counts as
/// new.
pub proof fn law_new_items_are_stored(
    rows: Seq<ItemRowView>,
    feed_id: Seq<char>,
    items: Seq<ItemView>,
    times: Seq<Seq<char>>,
    k: int,
)
    requires
        0 <= k < items.len(),
        forall|i: int| 0 <= i < rows.len() ==> (#[trigger] rows[i]).guid != items[k].guid,
        forall|j: int| 0 <= j < k ==> (#[trigger] items[j]).guid != items[k].guid,
    ensures
        items_inserted(rows, feed_id, items, times).contains(ItemView { feed_id, ..items[k] }),
        exists|row: ItemRowView| #[trigger]
            items_after(rows, feed_id, items, times).contains(row) && row.guid == items[k].guid
                && row.feed_id == feed_id && row.title == items[k].title && row.link
                == items[k].link && row.torrent == items[k].torrent && row.published_at
                == items[k].published_at && row.seen_at == times[k] && !row.downloaded
                && row.download_id is None,
{
    let first = items.take(k);
    let more = items.take(k + 1);
    assert(more.drop_last() =~= first);
    assert(more.last() == items[k]);
    lemma_rows_stay(rows, feed_id, first, times);
    let before = items_after(rows, feed_id, first, times);
    let p = item_has_guid(items[k].guid);
    assert forall|i: int| 0 <= i < before.len() implies !p(#[trigger] before[i]) by {
        if i < rows.len() {
            assert(before[i] == rows[i]);
        } else {
            let j = choose|j: int|
                0 <= j < first.len() && (#[trigger] first[j]).guid == before[i].guid;
            assert(items[j] == first[j]);
        }
    }
    let row = new_item(feed_id, items[k], times[k]);
    let after = items_after(rows, feed_id, more, times);
    assert(after == before.push(row));
    assert(after[before.len() as int] == row);
    let found = items_inserted(rows, feed_id, more, times);
    let old = items_inserted(rows, feed_id, first, times);
    assert(found == old.push(ItemView { feed_id, ..items[k] }));
    assert(found[old.len() as int] == (ItemView { feed_id, ..items[k] }));
    lemma_kept_behind(rows, feed_id, items, times, k + 1);
    assert(items_after(rows, feed_id, items, times).contains(row));
}

/// A hundred items are listed unless another number is asked for, and five hundred at most.
pub proof fn law_lists_are_bounded(n: u32)
    ensures
        items_limit(None) == 100,
        n <= 500 ==> items_limit(Some(n)) == n,
        n > 500 ==> items_limit(Some(n)) == 500,
{
}

/// An item is listed as accepted exactly where the rule of its own feed accepts its title, and its
/// download as active exactly where the engine has it. All else is listed as it is stored.
pub proof fn law_listed_items_are_annotated(
    db: DatabaseView,
    item: ItemView,
    handles: Seq<Seq<char>>,
    k: int,
)
    requires
        db.wf(),
    ensures
        ({
            let listed = item_annotated(db, item, handles);
            &&& 0 <= k < db.feeds.len() && db.feeds[k].id == item.feed_id ==> (listed.matches_rule
                <==> rule_accepts(item.title, db.feeds[k].rule.matching()))
            &&& (forall|j: int| 0 <= j < db.feeds.len() ==> (#[trigger] db.feeds[j]).id
                != item.feed_id) ==> !listed.matches_rule
            &&& listed.download is Some <==> item.download is Some
            &&& item.download matches Some(d) ==> (listed.download->0).active == handles.contains(
                d.task_id,
            ) && (listed.download->0).state == d.state && (listed.download->0).task_id == d.task_id
                && (listed.download->0).progress == d.progress
            &&& listed.guid == item.guid
            &&& listed.feed_id == item.feed_id
            &&& listed.title == item.title
            &&& listed.link == item.link
            &&& listed.torrent == item.torrent
            &&& listed.published_at == item.published_at
            &&& listed.downloaded == item.downloaded
        }),
{
    if 0 <= k < db.feeds.len() && db.feeds[k].id == item.feed_id {
        assert forall|j: int| 0 <= j < db.feeds.len() && j != k implies (#[trigger] db.feeds[j]).id
            != item.feed_id by {
            if j < k {
                assert(db.feeds[j].id != db.feeds[k].id);
            } else {
                assert(db.feeds[k].id != db.feeds[j].id);
            }
        }
        if accepted_by_feed(db, item.feed_id, item.title) {
            let j = choose|j: int|
                0 <= j < db.feeds.len() && (#[trigger] db.feeds[j]).id == item.feed_id
                    && rule_accepts(item.title, db.feeds[j].rule.matching());
            assert(j == k);
        }
    }
}

/// A stored item is shown with all that was read of it. It counts as downloaded exactly where its
/// download is still there, whose state and progress are shown.
pub proof fn law_stored_items_are_shown(db: DatabaseView, row: ItemRowView)
    ensures
        ({
            let shown = db.item_shown(row);
            let download = db.download_of(row);
            &&& shown.guid == row.guid
            &&& shown.feed_id == row.feed_id
            &&& shown.title == row.title
            &&& shown.link == row.link
            &&& shown.torrent == row.torrent
            &&& shown.published_at == row.published_at
            &&& shown.downloaded <==> download is Some
            &&& shown.download is Some <==> download is Some
            &&& download matches Some(d) ==> row.download_id == Some(d.task.id)
                && db.downloads.contains(d) && (shown.download->0).task_id == d.task.id
                && (shown.download->0).state == d.task.state && (shown.download->0).progress
                == d.task.progress
            &&& download is None && row.download_id is Some ==> forall|i: int|
                0 <= i < db.downloads.len() ==> (#[trigger] db.downloads[i]).task.id
                    != row.download_id->0
        }),
{
    if let Some(id) = row.download_id {
        let p = crate::db::download_table::download_has_id(id);
        crate::rows::lemma_first_none(db.downloads, p);
        if db.download_of(row) is None {
            assert forall|i: int| 0 <= i < db.downloads.len() implies (
            #[trigger] db.downloads[i]).task.id != id by {
                assert(!p(db.downloads[i]));
            }
        }
    }
}

/// Marking an item notes the download that it has, unmarking it that it has none; all else of it
/// stays.
pub proof fn law_items_are_marked(row: ItemRowView, task_id: Seq<char>)
    ensures
        downloaded_by(task_id)(row).downloaded,
        downloaded_by(task_id)(row).download_id == Some(task_id),
        !not_downloaded()(row).downloaded,
        not_downloaded()(row).download_id is None,
        downloaded_by(task_id)(row).guid == row.guid && not_downloaded()(row).guid == row.guid,
        downloaded_by(task_id)(row).feed_id == row.feed_id && not_downloaded()(row).feed_id
            == row.feed_id,
        downloaded_by(task_id)(row).title == row.title && not_downloaded()(row).title == row.title,
        downloaded_by(task_id)(row).link == row.link && not_downloaded()(row).link == row.link,
        downloaded_by(task_id)(row).torrent == row.torrent && not_downloaded()(row).torrent
            == row.torrent,
        downloaded_by(task_id)(row).seen_at == row.seen_at && not_downloaded()(row).seen_at
            == row.seen_at,
        item_in_feed(None)(row),
        item_in_feed(Some(task_id))(row) <==> row.feed_id == task_id,
{
}

/// Feeds are refreshed together exactly where they are enabled.
pub proof fn law_enabled_feeds_are_refreshed(feeds: Seq<FeedView>, feed: FeedView)
    ensures
        feeds_by_title(feeds).filter(is_enabled()).contains(feed) <==> feeds.contains(feed)
            && feed.enabled,
{
    let sorted = feeds_by_title(feeds);
    crate::order::lemma_sorted_rows(
        feeds,
        crate::db::feed_table::feed_titles(feeds),
        false,
    );
    broadcast use vstd::seq_lib::group_filter_ensures;

    assert(sorted.contains(feed) <==> feeds.contains(feed));
    if sorted.contains(feed) && feed.enabled {
        let i = choose|i: int| 0 <= i < sorted.len() && sorted[i] == feed;
        assert(is_enabled()(sorted[i]));
    }
    let kept = sorted.filter(is_enabled());
    crate::rows::lemma_filter_pairs(sorted, is_enabled(), |a: FeedView, b: FeedView| true);
    if kept.contains(feed) {
        let i = choose|i: int| 0 <= i < kept.len() && kept[i] == feed;
        assert(is_enabled()(kept[i]) && sorted.contains(kept[i]));
    }
}

/// The refresh of all feeds adds the new items of each feed that could be read, and tells the
/// failure of each that could not, with its title, in their order.
pub proof fn law_every_feed_counts(
    outcomes: Seq<(String, Result<usize, String>)>,
    title: String,
    found: usize,
    error: String,
)
    ensures
        ({
            let good = outcomes.push((title, Ok(found)));
            let bad = outcomes.push((title, Err(error)));
            &&& new_item_count(Seq::empty()) == 0
            &&& refresh_failures(Seq::empty()).len() == 0
            &&& new_item_count(good) == new_item_count(outcomes) + found
            &&& new_item_count(bad) == new_item_count(outcomes)
            &&& refresh_failures(good) == refresh_failures(outcomes)
            &&& refresh_failures(bad) == refresh_failures(outcomes).push(
                title@ + "："@ + error@,
            )
        }),
{
    let good = outcomes.push((title, Ok::<usize, String>(found)));
    let bad = outcomes.push((title, Err::<usize, String>(error)));
    assert(good.drop_last() =~= outcomes);
    assert(bad.drop_last() =~= outcomes);
}

/// Each outcome of a batch is noted once, and nothing else with it.
pub proof fn law_outcomes_are_noted_once(run: BatchView, line: Seq<char>)
    ensures
        noted(run, ItemOutcome::Added).added == run.added + 1,
        noted(run, ItemOutcome::Added).reused == run.reused,
        noted(run, ItemOutcome::Added).errors == run.errors,
        noted(run, ItemOutcome::Reused).reused == run.reused + 1,
        noted(run, ItemOutcome::Reused).added == run.added,
        noted(run, ItemOutcome::Reused).errors == run.errors,
        noted(run, ItemOutcome::Failed(line)).errors == run.errors + seq![line],
        noted(run, ItemOutcome::Failed(line)).added == run.added,
        noted(run, ItemOutcome::Failed(line)).reused == run.reused,
{
    assert(run.errors.push(line) =~= run.errors + seq![line]);
}

/// The download of an item is used as it is where it is complete, or the engine has it and it did
/// not fail.
pub proof fn law_settled_downloads_are_reused(item: ItemView)
    ensures
        item.download is None ==> !download_settled(item),
        item.download matches Some(d) ==> {
            &&& d.state == "failed"@ ==> !download_settled(item)
            &&& d.state == "completed"@ ==> download_settled(item)
            &&& d.state != "failed"@ && d.state != "completed"@ ==> (download_settled(item)
                <==> d.active)
        },
{
    reveal_strlit("failed");
    reveal_strlit("completed");
    assert("failed"@[0] == 'f' && "completed"@[0] == 'c');
}

/// The badge of a subject tells of a running download first, then of resources that wait, then of
/// finished downloads; without any of them it tells of an episode that airs today, where the
/// subject is being watched and episodes are left.
pub proof fn law_badges_tell_the_most_urgent(
    collection: Option<Seq<char>>,
    watched: i64,
    episodes: i64,
    day: i64,
    today: i64,
    rss: SubjectRssState,
)
    ensures
        rss.downloading ==> update_state(collection, watched, episodes, day, today, Some(rss))
            == "downloading"@,
        !rss.downloading && rss.pending ==> update_state(
            collection,
            watched,
            episodes,
            day,
            today,
            Some(rss),
        ) == "published"@,
        !rss.downloading && !rss.pending && rss.completed ==> update_state(
            collection,
            watched,
            episodes,
            day,
            today,
            Some(rss),
        ) == "completed"@,
        !rss.downloading && !rss.pending && !rss.completed ==> update_state(
            collection,
            watched,
            episodes,
            day,
            today,
            Some(rss),
        ) == update_state(collection, watched, episodes, day, today, None),
        collection == Some("doing"@) && watched < episodes && 0 < episodes && day == today
            ==> update_state(collection, watched, episodes, day, today, None) == "published"@,
        collection != Some("doing"@) || watched >= episodes || episodes <= 0 || day != today
            ==> update_state(collection, watched, episodes, day, today, None) == "none"@,
{
}

/// What counts for the badge of a subject: a download of its feed that is complete, one that runs
/// or waits, and an item that its rule accepts and that has no download.
pub proof fn law_what_feeds_hold(db: DatabaseView, feed: FeedView, row: ItemRowView)
    ensures
        ({
            let download = db.download_of(row);
            &&& db.item_completed(row) <==> download is Some && download->0.task.state
                == "completed"@
            &&& db.item_downloading(row) <==> download is Some && (download->0.task.state
                == "queued"@ || download->0.task.state == "downloading"@)
            &&& db.item_pending(feed, row) <==> download is None && !row.downloaded
                && rule_accepts(row.title, feed.rule.matching())
        }),
{
}

} // verus!
