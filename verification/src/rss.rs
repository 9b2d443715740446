//! Feeds and their items: subscribing, refreshing, rules, and what is downloaded from them.

use crate::clock::{is_clock_text, now_text};
use crate::db::feed_table::{
    adopted, checked, feed_has_id, feed_has_subject, feed_has_url, feeds_by_title, ruled,
};
use crate::db::item_table::{downloaded_by, item_has_guid, items_after, items_inserted};
use crate::db::{Database, DatabaseView, ItemRowView};
use crate::downloads::existing_download;
use crate::ids::{fresh_id, is_random_id};
use crate::links::canonical_download_source_key;
use crate::matcher::{MatchRule, RuleView, resource_matches, rule_accepts};
use crate::models::{
    BatchDownloadResult, FeedRule, FeedRuleView, FeedView, ItemView, RssFeed, RssItem, StatusView,
    default_feed_rule,
};
use crate::numbers::{decimal, decimal_u64};
use crate::rows::{first, opt_view, some_row, views};
use crate::subscriptions::{
    build_mikan_rss_url, default_subscription_rule, mikan_url, subscription_rule,
};
use crate::text::{
    append, ascii_lower, ascii_lower_chars, chars_of, ends_with_chars, join, joined, list_has,
    opt_str, same, starts_with, texts, trim, trimmed,
};
use vstd::prelude::*;

verus! {

/// The records after a feed was added with its items.
pub open spec fn feed_stored(
    db: DatabaseView,
    feed: FeedView,
    items: Seq<ItemView>,
    times: Seq<Seq<char>>,
) -> DatabaseView {
    db.feed_added(feed).items_put(feed.id, items, times)
}

/// Whether a feed can be added: neither its id nor its address is taken.
pub open spec fn feed_is_new(db: DatabaseView, feed: FeedView) -> bool {
    !some_row(db.feeds, feed_has_id(feed.id)) && !some_row(db.feeds, feed_has_url(feed.url))
}

/// What is told of a feed that cannot be added.
pub open spec fn feed_conflict(db: DatabaseView, feed: FeedView) -> Seq<char> {
    if some_row(db.feeds, feed_has_id(feed.id)) {
        "UNIQUE constraint failed: rss_feeds.id"@
    } else {
        "UNIQUE constraint failed: rss_feeds.url"@
    }
}

/// Adds a feed with its items, each at its time.
fn store_feed(db: &mut Database, feed: RssFeed, items: &Vec<RssItem>, times: &Vec<String>) -> (r:
    Result<RssFeed, String>)
    requires
        old(db).wf(),
        times@.len() == items@.len(),
    ensures
        final(db).wf(),
        match r {
            Ok(stored) => stored == feed && feed_is_new(old(db)@, feed@) && final(db)@
                == feed_stored(old(db)@, feed@, views(items@), texts(times@)),
            Err(e) => !feed_is_new(old(db)@, feed@) && *final(db) == *old(db) && e@
                == feed_conflict(old(db)@, feed@),
        },
{
    db.add_feed(&feed)?;
    let _ = db.insert_rss_items_at(feed.id.as_str(), items, times);
    Ok(feed)
}

/// A feed that the user added.
pub open spec fn plain_feed(
    id: Seq<char>,
    title: Seq<char>,
    url: Seq<char>,
    now: Seq<char>,
) -> FeedView {
    FeedView {
        id,
        title,
        url,
        enabled: true,
        last_checked_at: Some(now),
        rule: default_feed_rule(),
        subject_id: None,
    }
}

/// What comes of a feed that is to be added: it is stored with its items, or the conflict is told
/// and nothing changes.
pub open spec fn feed_answered(
    before: DatabaseView,
    after: DatabaseView,
    feed: FeedView,
    items: Seq<ItemView>,
    times: Seq<Seq<char>>,
    r: Result<RssFeed, String>,
) -> bool {
    match r {
        Ok(stored) => stored@ == feed && feed_is_new(before, feed) && after == feed_stored(
            before,
            feed,
            items,
            times,
        ),
        Err(e) => !feed_is_new(before, feed) && after == before && e@ == feed_conflict(
            before,
            feed,
        ),
    }
}

/// Adds a feed that the user gave, with the title and the items that were read from it, at
/// the time `now`; each item is first seen at its own time.
pub fn add_rss_feed_at(
    db: &mut Database,
    id: String,
    url: String,
    title: String,
    items: &Vec<RssItem>,
    now: &str,
    times: &Vec<String>,
) -> (r: Result<RssFeed, String>)
    requires
        old(db).wf(),
        times@.len() == items@.len(),
    ensures
        final(db).wf(),
        r is Err ==> *final(db) == *old(db),
        ({
            let feed = plain_feed(id@, title@, url@, now@);
            feed_answered(old(db)@, final(db)@, feed, views(items@), texts(times@), r)
        }),
{
    let feed = RssFeed {
        id,
        title,
        url,
        enabled: true,
        last_checked_at: Some(now.to_owned()),
        rule: FeedRule::default(),
        subject_id: None,
    };
    assert(feed@ =~= plain_feed(id@, title@, url@, now@));
    store_feed(db, feed, items, times)
}

/// Time stamps of the present moment, one after the other.
fn stamps(n: usize) -> (times: Vec<String>)
    ensures
        times@.len() == n,
        forall|i: int| 0 <= i < n ==> is_clock_text(#[trigger] texts(times@)[i]),
{
    let mut times: Vec<String> = Vec::new();
    for i in 0..n
        invariant
            times@.len() == i,
            forall|j: int| 0 <= j < i ==> is_clock_text((#[trigger] times@[j])@),
    {
        times.push(now_text());
    }
    assert forall|i: int| 0 <= i < n implies is_clock_text(#[trigger] texts(times@)[i]) by {
        assert(is_clock_text(times@[i]@));
    }
    times
}

/// Whether texts are time stamps.
pub open spec fn all_clock(times: Seq<Seq<char>>) -> bool {
    forall|i: int| 0 <= i < times.len() ==> is_clock_text(#[trigger] times[i])
}

/// Whether no stored feed has an id of the form that new ids have.
pub open spec fn no_random_id(db: DatabaseView) -> bool {
    forall|i: int| 0 <= i < db.feeds.len() ==> !is_random_id((#[trigger] db.feeds[i]).id)
}

/// Adds a feed that the user gave, with the title and the items that were read from it, under
/// a new id. It fails where the address is taken or, by chance, the new id.
pub fn add_rss_feed(db: &mut Database, url: String, title: String, items: &Vec<RssItem>) -> (r:
    Result<RssFeed, String>)
    requires
        old(db).wf(),
    ensures
        final(db).wf(),
        match r {
            Ok(stored) => {
                &&& exists|now: Seq<char>|
                    is_clock_text(now) && stored@ == #[trigger] plain_feed(
                        stored@.id,
                        title@,
                        url@,
                        now,
                    )
                &&& is_random_id(stored@.id)
                &&& feed_is_new(old(db)@, stored@)
                &&& exists|times: Seq<Seq<char>>|
                    times.len() == items@.len() && all_clock(times) && final(db)@
                        == #[trigger] feed_stored(old(db)@, stored@, views(items@), times)
            },
            Err(e) => *final(db) == *old(db) && exists|id: Seq<char>, now: Seq<char>|
                {
                    let feed = #[trigger] plain_feed(id, title@, url@, now);
                    &&& is_random_id(id)
                    &&& is_clock_text(now)
                    &&& !feed_is_new(old(db)@, feed)
                    &&& e@ == feed_conflict(old(db)@, feed)
                },
        },
        some_row(old(db)@.feeds, feed_has_url(url@)) ==> r is Err,
        no_random_id(old(db)@) && !some_row(old(db)@.feeds, feed_has_url(url@)) ==> r is Ok,
{
    let now: String = now_text();
    let times: Vec<String> = stamps(items.len());
    let id: String = fresh_id();
    add_rss_feed_at(db, id, url, title, items, now.as_str(), &times)
}

/// The feed of a subject that needs no fetching: the one that was made for it, or one with
/// the same address, which becomes its subscription.
pub open spec fn known_subscription(db: DatabaseView, subject_id: i64) -> Option<FeedView> {
    match first(feeds_by_title(db.feeds), feed_has_subject(subject_id)) {
        Some(feed) => Some(feed),
        None => match first(feeds_by_title(db.feeds), feed_has_url(mikan_url(subject_id))) {
            Some(feed) => Some(adopted(subject_id)(feed)),
            None => None,
        },
    }
}

/// The records after a subscription that needs no fetching.
pub open spec fn known_subscription_stored(db: DatabaseView, subject_id: i64) -> DatabaseView {
    match first(feeds_by_title(db.feeds), feed_has_subject(subject_id)) {
        Some(_) => db,
        None => match first(feeds_by_title(db.feeds), feed_has_url(mikan_url(subject_id))) {
            Some(feed) => db.feed_changed(feed.id, adopted(subject_id)),
            None => db,
        },
    }
}

/// Subscribes to a subject where no fetching is needed.
pub fn subscribe_known(db: &mut Database, subject_id: i64) -> (r: Result<Option<RssFeed>, String>)
    requires
        old(db).wf(),
    ensures
        final(db).wf(),
        r is Ok,
        opt_view(r->Ok_0) == known_subscription(old(db)@, subject_id),
        final(db)@ == known_subscription_stored(old(db)@, subject_id),
{
    if let Some(existing) = db.feed_for_subject(subject_id)? {
        return Ok(Some(existing));
    }
    let url: String = build_mikan_rss_url(subject_id);
    if let Some(mut existing) = db.feed_by_url(url.as_str())? {
        let ghost found = existing@;
        let _ = db.adopt_feed_as_subscription(existing.id.as_str(), subject_id);
        existing.subject_id = Some(subject_id);
        existing.enabled = true;
        assert(existing@ =~= adopted(subject_id)(found));
        return Ok(Some(existing));
    }
    Ok(None)
}

/// The title of a new subscription: that of the feed, or else the Chinese name, or else the
/// name of the subject; without the white space around it.
pub open spec fn subscription_title(
    title: Seq<char>,
    name: Seq<char>,
    name_cn: Seq<char>,
) -> Seq<char> {
    if trimmed(title).len() > 0 {
        trimmed(title)
    } else if trimmed(name_cn).len() > 0 {
        trimmed(name_cn)
    } else {
        trimmed(name)
    }
}

/// The title of a new subscription.
fn title_of_subscription(title: &str, name: &str, name_cn: &str) -> (r: String)
    ensures
        r@ == subscription_title(title@, name@, name_cn@),
{
    let title: String = trim(title);
    if !title.as_str().is_empty() {
        return title;
    }
    let name_cn: String = trim(name_cn);
    if !name_cn.as_str().is_empty() {
        return name_cn;
    }
    trim(name)
}

/// A feed that was made for a subject.
pub open spec fn subject_feed(
    id: Seq<char>,
    title: Seq<char>,
    subject_id: i64,
    group: Option<Seq<char>>,
    now: Seq<char>,
) -> FeedView {
    FeedView {
        id,
        title,
        url: mikan_url(subject_id),
        enabled: true,
        last_checked_at: Some(now),
        rule: subscription_rule(group),
        subject_id: Some(subject_id),
    }
}

/// Subscribes to a subject with the title and the items that were read from its feed. The
/// items that are there already are listed, not downloaded.
pub fn subscribe_subject_at(
    db: &mut Database,
    id: String,
    subject_id: i64,
    name: &str,
    name_cn: &str,
    subtitle_group: Option<&str>,
    title: &str,
    items: &Vec<RssItem>,
    now: &str,
    times: &Vec<String>,
) -> (r: Result<RssFeed, String>)
    requires
        old(db).wf(),
        times@.len() == items@.len(),
    ensures
        final(db).wf(),
        r is Err ==> *final(db) == *old(db),
        ({
            let feed = subject_feed(
                id@,
                subscription_title(title@, name@, name_cn@),
                subject_id,
                opt_str(subtitle_group),
                now@,
            );
            feed_answered(old(db)@, final(db)@, feed, views(items@), texts(times@), r)
        }),
{
    let feed = RssFeed {
        id,
        title: title_of_subscription(title, name, name_cn),
        url: build_mikan_rss_url(subject_id),
        enabled: true,
        last_checked_at: Some(now.to_owned()),
        rule: default_subscription_rule(subtitle_group),
        subject_id: Some(subject_id),
    };
    assert(feed@ =~= subject_feed(
        id@,
        subscription_title(title@, name@, name_cn@),
        subject_id,
        opt_str(subtitle_group),
        now@,
    ));
    store_feed(db, feed, items, times)
}

/// Subscribes to a subject with the title and the items that were read from its feed just
/// now, under a new id. It fails where the address is taken or, by chance, the new id.
pub fn subscribe_subject(
    db: &mut Database,
    subject_id: i64,
    name: &str,
    name_cn: &str,
    subtitle_group: Option<&str>,
    title: &str,
    items: &Vec<RssItem>,
) -> (r: Result<RssFeed, String>)
    requires
        old(db).wf(),
    ensures
        final(db).wf(),
        match r {
            Ok(stored) => {
                &&& exists|now: Seq<char>|
                    is_clock_text(now) && stored@ == #[trigger] subject_feed(
                        stored@.id,
                        subscription_title(title@, name@, name_cn@),
                        subject_id,
                        opt_str(subtitle_group),
                        now,
                    )
                &&& is_random_id(stored@.id)
                &&& feed_is_new(old(db)@, stored@)
                &&& exists|times: Seq<Seq<char>>|
                    times.len() == items@.len() && all_clock(times) && final(db)@
                        == #[trigger] feed_stored(old(db)@, stored@, views(items@), times)
            },
            Err(e) => *final(db) == *old(db) && exists|id: Seq<char>, now: Seq<char>|
                {
                    let feed = #[trigger] subject_feed(
                        id,
                        subscription_title(title@, name@, name_cn@),
                        subject_id,
                        opt_str(subtitle_group),
                        now,
                    );
                    &&& is_random_id(id)
                    &&& is_clock_text(now)
                    &&& !feed_is_new(old(db)@, feed)
                    &&& e@ == feed_conflict(old(db)@, feed)
                },
        },
        some_row(old(db)@.feeds, feed_has_url(mikan_url(subject_id))) ==> r is Err,
        no_random_id(old(db)@) && !some_row(old(db)@.feeds, feed_has_url(mikan_url(subject_id)))
            ==> r is Ok,
{
    let now: String = now_text();
    let times: Vec<String> = stamps(items.len());
    let id: String = fresh_id();
    subscribe_subject_at(
        db,
        id,
        subject_id,
        name,
        name_cn,
        subtitle_group,
        title,
        items,
        now.as_str(),
        &times,
    )
}

/// Subscribing to a subject whose feed is known never adds a feed, and the subject has a
/// feed afterwards.
pub proof fn law_subscribing_twice_adds_nothing(db: DatabaseView, subject_id: i64)
    requires
        db.wf(),
        known_subscription(db, subject_id) is Some,
    ensures
        known_subscription_stored(db, subject_id).feeds.len() == db.feeds.len(),
        some_row(
            known_subscription_stored(db, subject_id).feeds,
            feed_has_subject(subject_id),
        ),
{
    crate::db::feed_table::law_feed_lookup(db.feeds, feed_has_subject(subject_id));
    crate::db::feed_table::law_feed_lookup(db.feeds, feed_has_url(mikan_url(subject_id)));
    if first(feeds_by_title(db.feeds), feed_has_subject(subject_id)) is None {
        let feed = first(feeds_by_title(db.feeds), feed_has_url(mikan_url(subject_id)))->0;
        let after = known_subscription_stored(db, subject_id);
        assert(db.feeds.contains(feed));
        let k = choose|k: int| 0 <= k < db.feeds.len() && db.feeds[k] == feed;
        assert(after.feeds[k] == adopted(subject_id)(feed));
        assert(feed_has_subject(subject_id)(after.feeds[k]));
    }
}

/// Whether a rule is short enough.
pub open spec fn rule_fits(rule: FeedRuleView) -> bool {
    rule.includes.len() <= 20 && rule.excludes.len() <= 20
}

/// Gives a feed another rule, of at most twenty keywords of each kind.
pub fn set_rss_feed_rules(db: &mut Database, id: &str, rule: &FeedRule) -> (r: Result<(), String>)
    requires
        old(db).wf(),
    ensures
        final(db).wf(),
        match r {
            Ok(_) => rule_fits(rule@) && final(db)@ == old(db)@.feed_changed(
                id@,
                ruled(rule@),
            ),
            Err(e) => !rule_fits(rule@) && *final(db) == *old(db) && e@
                == "规则关键词过多（最多 20 个）"@,
        },
{
    if rule.includes.len() > 20 || rule.excludes.len() > 20 {
        return Err("规则关键词过多（最多 20 个）".to_owned());
    }
    db.update_feed_rule(id, rule)
}

/// At most how many items are listed.
pub open spec fn items_limit(limit: Option<u32>) -> nat {
    match limit {
        Some(n) => if n < 500 {
            n as nat
        } else {
            500
        },
        None => 100,
    }
}

/// Whether the rule of the feed with an id accepts a title. A feed that does not exist
/// accepts nothing.
pub open spec fn accepted_by_feed(db: DatabaseView, feed_id: Seq<char>, title: Seq<char>) -> bool {
    exists|k: int|
        0 <= k < db.feeds.len() && (#[trigger] db.feeds[k]).id == feed_id && rule_accepts(
            title,
            db.feeds[k].rule.matching(),
        )
}

/// An item as it is listed: with whether the engine has its download, and whether the rule of
/// its feed accepts it.
pub open spec fn item_annotated(
    db: DatabaseView,
    item: ItemView,
    handles: Seq<Seq<char>>,
) -> ItemView {
    ItemView {
        download: match item.download {
            Some(d) => Some(StatusView { active: handles.contains(d.task_id), ..d }),
            None => None,
        },
        matches_rule: accepted_by_feed(db, item.feed_id, item.title),
        ..item
    }
}

/// Whether the rule of the feed with an id accepts a title.
fn feed_accepts(db: &Database, feed_id: &str, title: &str) -> (r: bool)
    requires
        db.wf(),
    ensures
        r == accepted_by_feed(db@, feed_id@, title@),
{
    match db.feed_index(feed_id) {
        Some(k) => {
            let rule = MatchRule::from(&db.feeds[k].rule);
            let r: bool = resource_matches(title, &rule);
            proof {
                assert(db@.feeds[k as int] == db.feeds@[k as int]@);
                assert(r == rule_accepts(title@, db@.feeds[k as int].rule.matching()));
                assert forall|j: int| 0 <= j < db@.feeds.len() && j != k implies (
                #[trigger] db@.feeds[j]).id != feed_id@ by {
                    if j < k {
                        assert(db@.feeds[j].id != db@.feeds[k as int].id);
                    } else {
                        assert(db@.feeds[k as int].id != db@.feeds[j].id);
                    }
                }
            }
            r
        },
        None => {
            assert forall|j: int| 0 <= j < db@.feeds.len() implies (#[trigger] db@.feeds[j]).id
                != feed_id@ by {
                assert(db@.feeds[j] == db.feeds@[j]@);
            }
            false
        },
    }
}

/// The items that are shown of a feed, or of all, each with what is known of its download and
/// whether the rule of its feed accepts it.
pub open spec fn items_shown(
    db: DatabaseView,
    feed_id: Option<Seq<char>>,
    limit: Option<u32>,
    handles: Seq<Seq<char>>,
) -> Seq<ItemView> {
    db.items_listed(feed_id, items_limit(limit)).map_values(
        |i: ItemView| item_annotated(db, i, handles),
    )
}

/// The items of a feed, or of all feeds, as they are listed: a hundred, or as many as asked
/// for, at most five hundred.
pub fn list_rss_items(
    db: &Database,
    feed_id: Option<&str>,
    limit: Option<u32>,
    handles: &Vec<String>,
) -> (r: Result<Vec<RssItem>, String>)
    requires
        db.wf(),
    ensures
        r is Ok,
        views(r->Ok_0@) == items_shown(db@, opt_str(feed_id), limit, texts(handles@)),
{
    let most: u32 = match limit {
        Some(n) => if n < 500 {
            n
        } else {
            500
        },
        None => 100,
    };
    let mut items: Vec<RssItem> = db.list_rss_items(feed_id, most)?;
    let ghost base = views(items@);
    let ghost has = texts(handles@);
    let n: usize = items.len();
    for i in 0..n
        invariant
            db.wf(),
            n == items@.len(),
            n == base.len(),
            has == texts(handles@),
            forall|j: int|
                0 <= j < i ==> (#[trigger] items@[j])@ == item_annotated(db@, base[j], has),
            forall|j: int| i <= j < n ==> (#[trigger] items@[j])@ == base[j],
    {
        let mut item: RssItem = items[i].clone();
        assert(item@ == base[i as int]);
        item.download = match &item.download {
            Some(d) => {
                let mut d = d.clone();
                d.active = list_has(handles, d.task_id.as_str());
                Some(d)
            },
            None => None,
        };
        item.matches_rule = feed_accepts(db, item.feed_id.as_str(), item.title.as_str());
        assert(item@ =~= item_annotated(db@, base[i as int], has));
        items[i] = item;
    }
    assert(views(items@) =~= base.map_values(|i: ItemView| item_annotated(db@, i, has)));
    Ok(items)
}

/// Where an item is downloaded from: its torrent, or its link where that is a magnet link or
/// names a torrent file.
pub open spec fn download_source(item: ItemView) -> Option<Seq<char>> {
    match item.torrent {
        Some(torrent) => Some(torrent),
        None => if "magnet:"@.is_prefix_of(item.link) || ".torrent"@.is_suffix_of(
            ascii_lower(item.link),
        ) {
            Some(item.link)
        } else {
            None
        },
    }
}

/// Where an item is downloaded from.
pub fn rss_download_source(item: &RssItem) -> (source: Option<&str>)
    ensures
        opt_str(source) == download_source(item@),
{
    match &item.torrent {
        Some(torrent) => Some(torrent.as_str()),
        None => {
            let lower: Vec<char> = ascii_lower_chars(&chars_of(item.link.as_str()));
            let suffix: Vec<char> = chars_of(".torrent");
            if starts_with(item.link.as_str(), "magnet:") || ends_with_chars(&lower, &suffix) {
                Some(item.link.as_str())
            } else {
                None
            }
        },
    }
}

/// An item that is downloaded on its own: its identifier, its source and its title.
#[derive(Debug)]
pub struct Pick {
    pub guid: String,
    pub source: String,
    pub title: String,
}

impl View for Pick {
    type V = (Seq<char>, Seq<char>, Seq<char>);

    open spec fn view(&self) -> (Seq<char>, Seq<char>, Seq<char>) {
        (self.guid@, self.source@, self.title@)
    }
}

/// The new items that the rule accepts and that can be downloaded.
pub open spec fn picks_among(items: Seq<ItemView>, rule: RuleView) -> Seq<
    (Seq<char>, Seq<char>, Seq<char>),
>
    decreases items.len(),
{
    if items.len() == 0 {
        Seq::empty()
    } else {
        let before = picks_among(items.drop_last(), rule);
        let item = items.last();
        match download_source(item) {
            Some(source) if rule_accepts(item.title, rule) => before.push(
                (item.guid, source, item.title),
            ),
            _ => before,
        }
    }
}

/// The new items that are downloaded on their own: where the rule of the feed says so, those
/// that it accepts and that can be downloaded.
pub open spec fn automatic_picks(items: Seq<ItemView>, rule: FeedRuleView) -> Seq<
    (Seq<char>, Seq<char>, Seq<char>),
> {
    if rule.auto_download {
        picks_among(items, rule.matching())
    } else {
        Seq::empty()
    }
}

/// The new items that are downloaded on their own.
pub fn pick_automatic(items: &Vec<RssItem>, rule: &FeedRule) -> (picks: Vec<Pick>)
    ensures
        views(picks@) == automatic_picks(views(items@), rule@),
{
    let mut picks: Vec<Pick> = Vec::new();
    if !rule.auto_download {
        assert(views(picks@) =~= Seq::<(Seq<char>, Seq<char>, Seq<char>)>::empty());
        return picks;
    }
    let matching = MatchRule::from(rule);
    let ghost all = views(items@);
    assert(views(picks@) =~= picks_among(all.take(0), matching@));
    for i in 0..items.len()
        invariant
            all == views(items@),
            views(picks@) == picks_among(all.take(i as int), matching@),
    {
        let item: &RssItem = &items[i];
        assert(all.take(i + 1).drop_last() =~= all.take(i as int));
        assert(all.take(i + 1).last() == item@);
        let ghost before = picks@;
        if resource_matches(item.title.as_str(), &matching) {
            if let Some(source) = rss_download_source(item) {
                let pick = Pick {
                    guid: item.guid.clone(),
                    source: source.to_owned(),
                    title: item.title.clone(),
                };
                picks.push(pick);
                assert(views(picks@) =~= views(before).push(pick@));
            }
        }
    }
    assert(all.take(all.len() as int) =~= all);
    picks
}

/// The records after a feed was refreshed.
pub open spec fn feed_refreshed(
    db: DatabaseView,
    id: Seq<char>,
    title: Seq<char>,
    items: Seq<ItemView>,
    now: Seq<char>,
    times: Seq<Seq<char>>,
) -> DatabaseView {
    db.items_put(id, items, times).feed_changed(id, checked(title, now))
}

/// Notes what was read from a feed: the new items are stored, each at its time, and the title
/// and the time of the check are noted. Gives the new items, and those that are downloaded on
/// their own.
pub fn refresh_feed_at(
    db: &mut Database,
    feed: &RssFeed,
    title: &str,
    items: &Vec<RssItem>,
    now: &str,
    times: &Vec<String>,
) -> (r: Result<(Vec<RssItem>, Vec<Pick>), String>)
    requires
        old(db).wf(),
        times@.len() == items@.len(),
    ensures
        r is Ok,
        final(db).wf(),
        final(db)@ == feed_refreshed(
            old(db)@,
            feed@.id,
            title@,
            views(items@),
            now@,
            texts(times@),
        ),
        views(r->Ok_0.0@) == items_inserted(
            old(db)@.items,
            feed@.id,
            views(items@),
            texts(times@),
        ),
        views(r->Ok_0.1@) == automatic_picks(views(r->Ok_0.0@), feed@.rule),
{
    let inserted: Vec<RssItem> = db.insert_rss_items_at(feed.id.as_str(), items, times)?;
    let _ = db.update_feed(feed.id.as_str(), title, now);
    let picks: Vec<Pick> = pick_automatic(&inserted, &feed.rule);
    Ok((inserted, picks))
}

/// Notes what was read from a feed, now.
pub fn refresh_feed(db: &mut Database, feed: &RssFeed, title: &str, items: &Vec<RssItem>) -> (r:
    Result<(Vec<RssItem>, Vec<Pick>), String>)
    requires
        old(db).wf(),
    ensures
        r is Ok,
        final(db).wf(),
        exists|now: Seq<char>, times: Seq<Seq<char>>|
            {
                &&& is_clock_text(now)
                &&& times.len() == items@.len()
                &&& all_clock(times)
                &&& final(db)@ == #[trigger] feed_refreshed(
                    old(db)@,
                    feed@.id,
                    title@,
                    views(items@),
                    now,
                    times,
                )
                &&& views(r->Ok_0.0@) == items_inserted(
                    old(db)@.items,
                    feed@.id,
                    views(items@),
                    times,
                )
            },
        views(r->Ok_0.1@) == automatic_picks(views(r->Ok_0.0@), feed@.rule),
{
    let now: String = now_text();
    let times: Vec<String> = stamps(items.len());
    refresh_feed_at(db, feed, title, items, now.as_str(), &times)
}

/// What was stored before a refresh is never downloaded on its own, and what is was accepted
/// by the rule of the feed.
pub proof fn law_only_new_items_are_picked(
    rows: Seq<ItemRowView>,
    feed_id: Seq<char>,
    items: Seq<ItemView>,
    times: Seq<Seq<char>>,
    rule: FeedRuleView,
)
    ensures
        forall|i: int|
            0 <= i < automatic_picks(items_inserted(rows, feed_id, items, times), rule).len() ==> {
                let pick = #[trigger] automatic_picks(
                    items_inserted(rows, feed_id, items, times),
                    rule,
                )[i];
                &&& rule.auto_download
                &&& !some_row(rows, item_has_guid(pick.0))
                &&& rule_accepts(pick.2, rule.matching())
            },
{
    let fresh = items_inserted(rows, feed_id, items, times);
    lemma_inserted_are_new(rows, feed_id, items, times);
    if rule.auto_download {
        lemma_picks_are_items(fresh, rule.matching());
        let picks = picks_among(fresh, rule.matching());
        assert forall|i: int| 0 <= i < picks.len() implies !some_row(
            rows,
            item_has_guid((#[trigger] picks[i]).0),
        ) && rule_accepts(picks[i].2, rule.matching()) by {
            let k = choose|k: int|
                0 <= k < fresh.len() && (#[trigger] fresh[k]).guid == picks[i].0;
            assert(!some_row(rows, item_has_guid(fresh[k].guid)));
        }
    }
}

/// Every pick is one of the items, and the rule accepts its title.
proof fn lemma_picks_are_items(items: Seq<ItemView>, rule: RuleView)
    ensures
        forall|i: int|
            0 <= i < picks_among(items, rule).len() ==> rule_accepts(
                (#[trigger] picks_among(items, rule)[i]).2,
                rule,
            ) && exists|k: int|
                0 <= k < items.len() && (#[trigger] items[k]).guid == picks_among(items, rule)[i].0,
    decreases items.len(),
{
    if items.len() > 0 {
        let rest = items.drop_last();
        lemma_picks_are_items(rest, rule);
        let all = picks_among(items, rule);
        let before = picks_among(rest, rule);
        assert forall|i: int| 0 <= i < all.len() implies rule_accepts((#[trigger] all[i]).2, rule)
            && exists|k: int| 0 <= k < items.len() && (#[trigger] items[k]).guid == all[i].0 by {
            if i < before.len() {
                assert(all[i] == before[i]);
                let k = choose|k: int|
                    0 <= k < rest.len() && (#[trigger] rest[k]).guid == before[i].0;
                assert(items[k].guid == all[i].0);
            } else {
                assert(items[items.len() - 1].guid == all[i].0);
            }
        }
    }
}

/// What counts as new was not stored.
proof fn lemma_inserted_are_new(
    rows: Seq<ItemRowView>,
    feed_id: Seq<char>,
    items: Seq<ItemView>,
    times: Seq<Seq<char>>,
)
    ensures
        forall|i: int|
            0 <= i < items_inserted(rows, feed_id, items, times).len() ==> !some_row(
                rows,
                item_has_guid((#[trigger] items_inserted(rows, feed_id, items, times)[i]).guid),
            ),
    decreases items.len(),
{
    if items.len() > 0 {
        let rest = items.drop_last();
        lemma_inserted_are_new(rows, feed_id, rest, times);
        crate::db::item_table::law_stored_items_stay(rows, feed_id, rest, times, times);
        let before = items_inserted(rows, feed_id, rest, times);
        let all = items_inserted(rows, feed_id, items, times);
        let stored = items_after(rows, feed_id, rest, times);
        let p = item_has_guid(items.last().guid);
        if some_row(rows, p) {
            let k = choose|k: int| 0 <= k < rows.len() && p(#[trigger] rows[k]);
            assert(stored[k] == rows[k]);
        }
        assert forall|i: int| 0 <= i < all.len() implies !some_row(
            rows,
            item_has_guid((#[trigger] all[i]).guid),
        ) by {
            if i < before.len() {
                assert(all[i] == before[i]);
            }
        }
    }
}

/// A feed that the user added downloads nothing on its own until its rule is changed.
pub proof fn law_plain_feeds_pick_nothing(
    id: Seq<char>,
    title: Seq<char>,
    url: Seq<char>,
    now: Seq<char>,
    items: Seq<ItemView>,
)
    ensures
        automatic_picks(items, plain_feed(id, title, url, now).rule).len() == 0,
{
}

/// Refreshing a feed again with the same items finds nothing new.
pub proof fn law_refreshing_twice_finds_nothing_new(
    db: DatabaseView,
    id: Seq<char>,
    title: Seq<char>,
    items: Seq<ItemView>,
    now: Seq<char>,
    times: Seq<Seq<char>>,
    later: Seq<Seq<char>>,
)
    ensures
        items_inserted(
            feed_refreshed(db, id, title, items, now, times).items,
            id,
            items,
            later,
        ) == Seq::<ItemView>::empty(),
{
    crate::db::item_table::law_stored_items_stay(db.items, id, items, times, later);
}

/// The line that tells why a feed could not be refreshed.
pub open spec fn failure_line(title: Seq<char>, error: Seq<char>) -> Seq<char> {
    title + "："@ + error
}

/// How the failure of a feed is told.
pub fn refresh_error(title: &str, error: &str) -> (line: String)
    ensures
        line@ == failure_line(title@, error@),
{
    let mut line: String = title.to_owned();
    append(&mut line, "：");
    append(&mut line, error);
    line
}

/// What is said once feeds were refreshed: how many items are new, or with it what failed.
pub open spec fn refresh_told(
    count: nat,
    errors: Seq<Seq<char>>,
    r: Result<usize, String>,
) -> bool {
    match r {
        Ok(n) => errors.len() == 0 && n == count,
        Err(e) => errors.len() > 0 && e@ == "刷新完成，新增 "@ + decimal(count as int)
            + " 条；失败："@ + joined(errors, "；"@),
    }
}

/// What is told after all feeds were refreshed: the number of new items, or which feeds
/// failed.
pub fn refresh_summary(count: usize, errors: &Vec<String>) -> (r: Result<usize, String>)
    ensures
        refresh_told(count as nat, texts(errors@), r),
{
    if errors.len() == 0 {
        return Ok(count);
    }
    let mut e: String = "刷新完成，新增 ".to_owned();
    append(&mut e, decimal_u64(count as u64).as_str());
    append(&mut e, " 条；失败：");
    append(&mut e, join(errors, "；").as_str());
    Err(e)
}

/// Whether a feed is refreshed: the user has not switched it off.
pub open spec fn is_enabled() -> spec_fn(FeedView) -> bool {
    |f: FeedView| f.enabled
}

/// The feeds that are refreshed when all are, in the order of their titles.
pub fn feeds_to_refresh(db: &Database) -> (r: Result<Vec<RssFeed>, String>)
    ensures
        r is Ok,
        views(r->Ok_0@) == feeds_by_title(db@.feeds).filter(is_enabled()),
{
    let list: Vec<RssFeed> = db.list_feeds()?;
    let ghost all = views(list@);
    let ghost p = is_enabled();
    let mut feeds: Vec<RssFeed> = Vec::new();
    reveal(Seq::filter);
    assert(views(feeds@) =~= all.take(0).filter(p));
    for i in 0..list.len()
        invariant
            all == views(list@),
            p == is_enabled(),
            views(feeds@) == all.take(i as int).filter(p),
    {
        reveal(Seq::filter);
        assert(all.take(i + 1).drop_last() =~= all.take(i as int));
        assert(all.take(i + 1).last() == list@[i as int]@);
        let ghost before = feeds@;
        if list[i].enabled {
            feeds.push(list[i].clone());
            assert(views(feeds@) =~= views(before).push(list@[i as int]@));
        }
    }
    assert(all.take(all.len() as int) =~= all);
    Ok(feeds)
}

/// Which feed is refreshed: the one with the number, where it is enabled.
pub open spec fn refresh_found(
    db: DatabaseView,
    id: Seq<char>,
    r: Result<Option<RssFeed>, String>,
) -> bool {
    match (first(feeds_by_title(db.feeds), feed_has_id(id)), r) {
        (Some(feed), Ok(found)) => opt_view(found) == if feed.enabled {
            Some(feed)
        } else {
            None
        },
        (None, Err(e)) => e@ == "订阅源不存在"@,
        _ => false,
    }
}

/// The feed that is refreshed where one is; nothing where it is switched off.
pub fn feed_to_refresh(db: &Database, id: &str) -> (r: Result<Option<RssFeed>, String>)
    ensures
        refresh_found(db@, id@, r),
{
    let feed: RssFeed = db.feed(id)?;
    if feed.enabled {
        Ok(Some(feed))
    } else {
        Ok(None)
    }
}

/// How many new items feeds had, given the title of each feed and what came of it.
pub open spec fn new_item_count(outcomes: Seq<(String, Result<usize, String>)>) -> nat
    decreases outcomes.len(),
{
    if outcomes.len() == 0 {
        0
    } else {
        new_item_count(outcomes.drop_last()) + match outcomes.last().1 {
            Ok(n) => n as nat,
            Err(_) => 0,
        }
    }
}

/// The failures of feeds as they are told.
pub open spec fn refresh_failures(outcomes: Seq<(String, Result<usize, String>)>) -> Seq<
    Seq<char>,
>
    decreases outcomes.len(),
{
    if outcomes.len() == 0 {
        Seq::empty()
    } else {
        let before = refresh_failures(outcomes.drop_last());
        match outcomes.last().1 {
            Ok(_) => before,
            Err(error) => before.push(outcomes.last().0@ + "："@ + error@),
        }
    }
}

proof fn lemma_count_grows(outcomes: Seq<(String, Result<usize, String>)>, n: int)
    requires
        0 <= n <= outcomes.len(),
    ensures
        new_item_count(outcomes.take(n)) <= new_item_count(outcomes),
    decreases outcomes.len(),
{
    if n < outcomes.len() {
        lemma_count_grows(outcomes.drop_last(), n);
        assert(outcomes.drop_last().take(n) =~= outcomes.take(n));
    } else {
        assert(outcomes.take(n) =~= outcomes);
    }
}

/// What is told after all feeds were refreshed, given the title of each and what came of it:
/// the number of new items, or which feeds failed. The failure of one feed does not hide what
/// the others brought.
pub fn refresh_all_rss_feeds(outcomes: &Vec<(String, Result<usize, String>)>) -> (r: Result<
    usize,
    String,
>)
    requires
        new_item_count(outcomes@) <= usize::MAX,
    ensures
        refresh_told(new_item_count(outcomes@), refresh_failures(outcomes@), r),
{
    let mut count: usize = 0;
    let mut errors: Vec<String> = Vec::new();
    assert(outcomes@.take(0) =~= Seq::<(String, Result<usize, String>)>::empty());
    assert(texts(errors@) =~= Seq::<Seq<char>>::empty());
    for i in 0..outcomes.len()
        invariant
            new_item_count(outcomes@) <= usize::MAX,
            count == new_item_count(outcomes@.take(i as int)),
            texts(errors@) == refresh_failures(outcomes@.take(i as int)),
    {
        assert(outcomes@.take(i + 1).drop_last() =~= outcomes@.take(i as int));
        assert(outcomes@.take(i + 1).last() == outcomes@[i as int]);
        proof {
            lemma_count_grows(outcomes@, i + 1);
        }
        let ghost before = errors@;
        match &outcomes[i].1 {
            Ok(n) => {
                count = count + *n;
            },
            Err(error) => {
                let line: String = refresh_error(outcomes[i].0.as_str(), error.as_str());
                errors.push(line);
                assert(texts(errors@) =~= texts(before).push(line@));
            },
        }
    }
    assert(outcomes@.take(outcomes@.len() as int) =~= outcomes@);
    refresh_summary(count, &errors)
}

/// What is downloaded by hand: the stored item with the address that it has, or a refusal.
pub open spec fn chosen_by_hand(
    db: DatabaseView,
    guid: Seq<char>,
    r: Result<(RssItem, String), String>,
) -> bool {
    let found = first(db.items_listed(None, 5000), |i: ItemView| i.guid == guid);
    match r {
        Ok(chosen) => found == Some(chosen.0@) && download_source(chosen.0@) == Some(
            chosen.1@,
        ),
        Err(e) => if found is None {
            e@ == "RSS 条目不存在"@
        } else {
            download_source(found->0) is None && e@ == "该 RSS 条目没有可下载地址"@
        },
    }
}

/// The item that the user wants to download, and its source.
pub fn manual_download(db: &Database, guid: &str) -> (r: Result<(RssItem, String), String>)
    ensures
        chosen_by_hand(db@, guid@, r),
{
    let item: RssItem = db.rss_item(guid)?;
    let source: String = match rss_download_source(&item) {
        Some(source) => source.to_owned(),
        None => {
            return Err("该 RSS 条目没有可下载地址".to_owned());
        },
    };
    Ok((item, source))
}

/// A batch of downloads: what became of those that were handled so far.
#[derive(Debug)]
pub struct BatchRun {
    pub added: usize,
    pub reused: usize,
    pub errors: Vec<String>,
}

/// What a batch has noted: two counts and the lines that tell of failures.
#[verifier::ext_equal]
pub struct BatchView {
    pub added: int,
    pub reused: int,
    pub errors: Seq<Seq<char>>,
}

impl View for BatchRun {
    type V = BatchView;

    open spec fn view(&self) -> BatchView {
        BatchView {
            added: self.added as int,
            reused: self.reused as int,
            errors: texts(self.errors@),
        }
    }
}

/// What came of an item of a batch: a new download, one that was there, or a line that tells of
/// the failure.
pub enum ItemOutcome {
    Added,
    Reused,
    Failed(Seq<char>),
}

/// A batch with one more outcome.
pub open spec fn noted(run: BatchView, outcome: ItemOutcome) -> BatchView {
    match outcome {
        ItemOutcome::Added => BatchView { added: run.added + 1, ..run },
        ItemOutcome::Reused => BatchView { reused: run.reused + 1, ..run },
        ItemOutcome::Failed(line) => BatchView { errors: run.errors.push(line), ..run },
    }
}

/// A batch before its first item.
pub open spec fn nothing_noted() -> BatchView {
    BatchView { added: 0, reused: 0, errors: Seq::empty() }
}

/// A batch after some items: the outcome of each, and the line that tells, where the item could
/// not be linked to its download.
pub open spec fn after_items(items: Seq<(ItemOutcome, Option<Seq<char>>)>) -> BatchView
    decreases items.len(),
{
    if items.len() == 0 {
        nothing_noted()
    } else {
        let (outcome, unlinked) = items.last();
        let run = noted(after_items(items.drop_last()), outcome);
        match unlinked {
            Some(line) => noted(run, ItemOutcome::Failed(line)),
            None => run,
        }
    }
}

/// The numbers of a batch account for each of its items: the downloads that were added, those
/// that were reused and the failures are together at least as many as the items, and just as
/// many where every item could be linked to its download.
pub proof fn law_a_batch_accounts_for_every_item(items: Seq<(ItemOutcome, Option<Seq<char>>)>)
    ensures
        ({
            let run = after_items(items);
            let total = run.added + run.reused + run.errors.len();
            &&& run.added >= 0
            &&& run.reused >= 0
            &&& total >= items.len()
            &&& total == items.len() <==> forall|i: int|
                0 <= i < items.len() ==> (#[trigger] items[i]).1 is None
        }),
    decreases items.len(),
{
    if items.len() > 0 {
        let before = items.drop_last();
        law_a_batch_accounts_for_every_item(before);
        assert(items.last() == items[items.len() - 1]);
        if forall|i: int| 0 <= i < before.len() ==> (#[trigger] before[i]).1 is None {
            assert forall|i: int| 0 <= i < items.len() - 1 implies (
            #[trigger] items[i]).1 is None by {
                assert(before[i] == items[i]);
            }
        } else {
            let i = choose|i: int| 0 <= i < before.len() && (#[trigger] before[i]).1 is Some;
            assert(items[i] == before[i]);
        }
    }
}

/// How many outcomes of a batch were noted.
pub open spec fn handled(run: BatchRun) -> int {
    run.added + run.reused + run.errors@.len()
}

/// Whether a batch is small enough.
pub open spec fn batch_fits(count: nat) -> bool {
    count <= 100
}

/// Begins a batch: of at most a hundred items.
pub fn batch_begin(guids: &Vec<String>) -> (r: Result<BatchRun, String>)
    ensures
        match r {
            Ok(run) => batch_fits(guids@.len()) && run@ == nothing_noted(),
            Err(e) => !batch_fits(guids@.len()) && e@ == "单次最多选择 100 个资源"@,
        },
{
    if guids.len() > 100 {
        return Err("单次最多选择 100 个资源".to_owned());
    }
    Ok(BatchRun { added: 0, reused: 0, errors: Vec::new() })
}

/// What is done with an item of a batch: it was handled, or its download is started.
/// `existed` says whether its source was known before.
#[derive(Debug)]
pub enum BatchStep {
    Handled,
    Start { source: String, title: String, existed: bool },
}

/// Whether the download of an item is used as it is.
pub open spec fn download_settled(item: ItemView) -> bool {
    item.download matches Some(d) && d.state != "failed"@ && (d.active || d.state
        == "completed"@)
}

/// What comes of one of the chosen items: its download is started, or what is known of it is noted.
pub open spec fn item_handled(
    db: DatabaseView,
    before: BatchRun,
    after: BatchRun,
    guid: Seq<char>,
    step: BatchStep,
) -> bool {
    let found = first(db.items_listed(None, 5000), |i: ItemView| i.guid == guid);
    match step {
        BatchStep::Start { source, title, existed } => {
            &&& after == before
            &&& found is Some
            &&& !download_settled(found->0)
            &&& download_source(found->0) == Some(source@)
            &&& title@ == (found->0).title
            &&& existed == existing_download(db, source@) is Some
        },
        BatchStep::Handled => {
            &&& handled(after) == handled(before) + 1
            &&& found is Some && !download_settled(found->0) ==> download_source(
                found->0,
            ) is None
            &&& after@ == noted(
                before@,
                if found is None {
                    ItemOutcome::Failed("RSS 条目不存在"@)
                } else if download_settled(found->0) {
                    ItemOutcome::Reused
                } else {
                    ItemOutcome::Failed((found->0).title + "：没有可下载地址"@)
                },
            )
        },
    }
}

/// The first step for an item of a batch. An item that does not exist or cannot be downloaded
/// is told of; one whose download is complete counts as reused; any other is started.
pub fn batch_item(db: &Database, run: &mut BatchRun, guid: &str) -> (step: BatchStep)
    requires
        handled(*old(run)) < usize::MAX,
    ensures
        item_handled(db@, *old(run), *final(run), guid@, step),
{
    let ghost told = texts(run.errors@);
    let item: RssItem = match db.rss_item(guid) {
        Ok(item) => item,
        Err(error) => {
            run.errors.push(error);
            assert(texts(run.errors@) =~= told.push(error@));
            return BatchStep::Handled;
        },
    };
    let settled: bool = match &item.download {
        Some(d) => !same(d.state.as_str(), "failed") && (d.active || same(
            d.state.as_str(),
            "completed",
        )),
        None => false,
    };
    if settled {
        run.reused = run.reused + 1;
        return BatchStep::Handled;
    }
    let source: String = match rss_download_source(&item) {
        Some(source) => source.to_owned(),
        None => {
            let mut line: String = item.title.clone();
            append(&mut line, "：没有可下载地址");
            run.errors.push(line);
            assert(texts(run.errors@) =~= told.push(line@));
            return BatchStep::Handled;
        },
    };
    let key: String = canonical_download_source_key(source.as_str());
    let existed: bool = match db.download_by_source_key(key.as_str()) {
        Ok(task) => task.is_some(),
        Err(_) => false,
    };
    BatchStep::Start { source, title: item.title, existed }
}

/// What comes of the download of a chosen item: once it is there the item is linked to it and counts
/// as added, or as reused where it existed; else the error is told with the title.
pub open spec fn outcome_noted(
    before: DatabaseView,
    after: DatabaseView,
    run: BatchView,
    next: BatchView,
    guid: Seq<char>,
    title: Seq<char>,
    existed: bool,
    outcome: Result<String, String>,
) -> bool {
    match outcome {
        Ok(task_id) => {
            &&& after == before.item_changed(
                item_has_guid(guid),
                downloaded_by(task_id@),
            )
            &&& next == noted(
                run,
                if existed {
                    ItemOutcome::Reused
                } else {
                    ItemOutcome::Added
                },
            )
        },
        Err(error) => {
            &&& after == before
            &&& next == noted(
                run,
                ItemOutcome::Failed(title + "："@ + error@),
            )
        },
    }
}

/// Notes what became of a download that a batch started: the item is linked to its task, or
/// the failure is told.
pub fn batch_done(
    db: &mut Database,
    run: &mut BatchRun,
    guid: &str,
    title: &str,
    existed: bool,
    outcome: Result<String, String>,
)
    requires
        old(db).wf(),
        handled(*old(run)) < usize::MAX,
    ensures
        final(db).wf(),
        handled(*final(run)) == handled(*old(run)) + 1,
        outcome is Err ==> *final(db) == *old(db),
        outcome_noted(
            old(db)@,
            final(db)@,
            old(run)@,
            final(run)@,
            guid@,
            title@,
            existed,
            outcome,
        ),
{
    let ghost told = texts(run.errors@);
    match outcome {
        Ok(task_id) => {
            if existed {
                run.reused = run.reused + 1;
            } else {
                run.added = run.added + 1;
            }
            let _ = db.mark_rss_downloaded(guid, task_id.as_str());
        },
        Err(error) => {
            let line: String = refresh_error(title, error.as_str());
            run.errors.push(line);
            assert(texts(run.errors@) =~= told.push(line@));
        },
    }
}

/// The line that tells why an item could not be linked to its download.
pub open spec fn unlinked_line(title: Seq<char>, error: Seq<char>) -> Seq<char> {
    title + "：任务已添加，但关联 RSS 失败："@ + error
}

/// Notes that a download of a batch was started but its item could not be linked to it. The
/// download counts all the same.
pub fn batch_unlinked(run: &mut BatchRun, title: &str, error: &str)
    ensures
        final(run)@ == noted(
            old(run)@,
            ItemOutcome::Failed(unlinked_line(title@, error@)),
        ),
{
    let ghost told = texts(run.errors@);
    let mut line: String = title.to_owned();
    append(&mut line, "：任务已添加，但关联 RSS 失败：");
    append(&mut line, error);
    run.errors.push(line);
    assert(texts(run.errors@) =~= told.push(line@));
}

/// The result of a batch.
pub fn batch_result(run: BatchRun) -> (r: BatchDownloadResult)
    ensures
        r.added == run.added,
        r.reused == run.reused,
        r.failed == run.errors@.len(),
        r.errors == run.errors,
        r.added + r.reused + r.failed == handled(run),
{
    let failed: usize = run.errors.len();
    BatchDownloadResult { added: run.added, reused: run.reused, failed, errors: run.errors }
}

/// Whether a rule accepts a title.
pub fn preview_rule_match(title: &str, rule: &MatchRule) -> (r: bool)
    ensures
        r == rule_accepts(title@, rule@),
{
    resource_matches(title, rule)
}

} // verus!
