//! The feeds of the database.

use super::{Database, DatabaseView, ItemRowView};
use crate::models::{FeedRule, FeedRuleView, FeedView, RssFeed};
use crate::order::{lemma_sorted_rows, order_by, ordered, sorted_rows};
use crate::rows::{
    first, lemma_filter_pairs, lemma_first_at, lemma_first_none, opt_view, retain, some_row, views,
};
use crate::text::{same, texts};
use vstd::prelude::*;

verus! {

/// The titles of feeds.
pub open spec fn feed_titles(feeds: Seq<FeedView>) -> Seq<Seq<char>> {
    feeds.map_values(|f: FeedView| f.title)
}

/// The feeds in the order of their titles.
pub open spec fn feeds_by_title(feeds: Seq<FeedView>) -> Seq<FeedView> {
    sorted_rows(feeds, feed_titles(feeds), false)
}

/// Whether a feed has the id.
pub open spec fn feed_has_id(id: Seq<char>) -> spec_fn(FeedView) -> bool {
    |f: FeedView| f.id == id
}

/// Whether a feed has the address.
pub open spec fn feed_has_url(url: Seq<char>) -> spec_fn(FeedView) -> bool {
    |f: FeedView| f.url == url
}

/// Whether a feed was made for the subject.
pub open spec fn feed_has_subject(subject_id: i64) -> spec_fn(FeedView) -> bool {
    |f: FeedView| f.subject_id == Some(subject_id)
}

/// The feeds with a change made to the one with the id.
pub open spec fn feeds_changed(
    feeds: Seq<FeedView>,
    id: Seq<char>,
    change: spec_fn(FeedView) -> FeedView,
) -> Seq<FeedView> {
    feeds.map_values(
        |f: FeedView|
            if f.id == id {
                change(f)
            } else {
                f
            },
    )
}

impl DatabaseView {
    /// The records after a feed was put in.
    pub open spec fn feed_added(self, feed: FeedView) -> DatabaseView {
        DatabaseView { feeds: self.feeds.push(feed), ..self }
    }

    /// The records after a change of the feed with the id.
    pub open spec fn feed_changed(
        self,
        id: Seq<char>,
        change: spec_fn(FeedView) -> FeedView,
    ) -> DatabaseView {
        DatabaseView { feeds: feeds_changed(self.feeds, id, change), ..self }
    }

    /// The records without the feed with the id and its items.
    pub open spec fn feed_deleted(self, id: Seq<char>) -> DatabaseView {
        DatabaseView {
            feeds: self.feeds.filter(|f: FeedView| f.id != id),
            items: self.items.filter(|r: ItemRowView| r.feed_id != id),
            ..self
        }
    }

    /// Whether a feed with the id was made for the subject.
    pub open spec fn feed_serves(self, feed_id: Seq<char>, subject_id: i64) -> bool {
        exists|k: int|
            0 <= k < self.feeds.len() && (#[trigger] self.feeds[k]).id == feed_id
                && self.feeds[k].subject_id == Some(subject_id)
    }

    /// The records without the feeds made for the subject and their items.
    pub open spec fn subject_unsubscribed(self, subject_id: i64) -> DatabaseView {
        DatabaseView {
            feeds: self.feeds.filter(|f: FeedView| f.subject_id != Some(subject_id)),
            items: self.items.filter(|r: ItemRowView| !self.feed_serves(r.feed_id, subject_id)),
            ..self
        }
    }
}

/// A change of a feed: it belongs to the subject and is enabled.
pub open spec fn adopted(subject_id: i64) -> spec_fn(FeedView) -> FeedView {
    |f: FeedView| FeedView { subject_id: Some(subject_id), enabled: true, ..f }
}

/// A change of a feed: its title and when it was last checked.
pub open spec fn checked(title: Seq<char>, at: Seq<char>) -> spec_fn(FeedView) -> FeedView {
    |f: FeedView| FeedView { title, last_checked_at: Some(at), ..f }
}

/// A change of a feed: whether it is enabled.
pub open spec fn enabled(on: bool) -> spec_fn(FeedView) -> FeedView {
    |f: FeedView| FeedView { enabled: on, ..f }
}

/// A change of a feed: its rule.
pub open spec fn ruled(rule: FeedRuleView) -> spec_fn(FeedView) -> FeedView {
    |f: FeedView| FeedView { rule, ..f }
}

/// Rows that are taken out leave the others different from each other.
proof fn lemma_feeds_filtered(
    db: DatabaseView,
    keep_feed: spec_fn(FeedView) -> bool,
    keep_item: spec_fn(ItemRowView) -> bool,
)
    requires
        db.wf(),
    ensures
        (DatabaseView {
            feeds: db.feeds.filter(keep_feed),
            items: db.items.filter(keep_item),
            ..db
        }).wf(),
{
    lemma_filter_pairs(db.feeds, keep_feed, |a: FeedView, b: FeedView| a.id != b.id);
    lemma_filter_pairs(db.feeds, keep_feed, |a: FeedView, b: FeedView| a.url != b.url);
    lemma_filter_pairs(db.items, keep_item, |a: ItemRowView, b: ItemRowView| a.guid != b.guid);
}

impl Database {
    /// Puts a feed in. Its id and its address must be new.
    pub fn add_feed(&mut self, feed: &RssFeed) -> (r: Result<(), String>)
        requires
            old(self).wf(),
        ensures
            final(self).wf(),
            match r {
                Ok(_) => !some_row(old(self)@.feeds, feed_has_id(feed@.id)) && !some_row(
                    old(self)@.feeds,
                    feed_has_url(feed@.url),
                ) && final(self)@ == old(self)@.feed_added(feed@),
                Err(e) => *final(self) == *old(self) && if some_row(
                    old(self)@.feeds,
                    feed_has_id(feed@.id),
                ) {
                    e@ == "UNIQUE constraint failed: rss_feeds.id"@
                } else {
                    some_row(old(self)@.feeds, feed_has_url(feed@.url)) && e@
                        == "UNIQUE constraint failed: rss_feeds.url"@
                },
            },
    {
        let ghost all = self@.feeds;
        for i in 0..self.feeds.len()
            invariant
                self == old(self),
                self.wf(),
                all == views(self.feeds@),
                forall|j: int| 0 <= j < i ==> (#[trigger] all[j]).id != feed@.id,
        {
            if same(self.feeds[i].id.as_str(), feed.id.as_str()) {
                assert(feed_has_id(feed@.id)(all[i as int]));
                return Err("UNIQUE constraint failed: rss_feeds.id".to_owned());
            }
        }
        for i in 0..self.feeds.len()
            invariant
                self == old(self),
                self.wf(),
                all == views(self.feeds@),
                forall|j: int| 0 <= j < all.len() ==> (#[trigger] all[j]).id != feed@.id,
                forall|j: int| 0 <= j < i ==> (#[trigger] all[j]).url != feed@.url,
        {
            if same(self.feeds[i].url.as_str(), feed.url.as_str()) {
                assert(feed_has_url(feed@.url)(all[i as int]));
                return Err("UNIQUE constraint failed: rss_feeds.url".to_owned());
            }
        }
        self.feeds.push(feed.clone());
        assert(self@.feeds =~= all.push(feed@));
        assert(self@ =~= old(self)@.feed_added(feed@));
        Ok(())
    }

    /// The feeds in the order of their titles.
    pub fn list_feeds(&self) -> (r: Result<Vec<RssFeed>, String>)
        ensures
            r is Ok,
            views(r->Ok_0@) == feeds_by_title(self@.feeds),
    {
        let ghost all = self@.feeds;
        let mut titles: Vec<String> = Vec::new();
        for i in 0..self.feeds.len()
            invariant
                all == views(self.feeds@),
                titles@.len() == i,
                forall|j: int| 0 <= j < i ==> (#[trigger] titles@[j])@ == all[j].title,
        {
            titles.push(self.feeds[i].title.clone());
        }
        assert(texts(titles@) =~= feed_titles(all));
        let order: Vec<usize> = order_by(&titles, false);
        let ghost sorted = ordered(feed_titles(all), false);
        let mut list: Vec<RssFeed> = Vec::new();
        for p in 0..order.len()
            invariant
                all == views(self.feeds@),
                order@.map_values(|i: usize| i as int) == sorted,
                forall|q: int| 0 <= q < order@.len() ==> #[trigger] order@[q] < all.len(),
                list@.len() == p,
                forall|q: int| 0 <= q < p ==> (#[trigger] list@[q])@ == all[sorted[q]],
        {
            list.push(self.feeds[order[p]].clone());
            assert(sorted[p as int] == order@[p as int]);
        }
        assert(views(list@) =~= feeds_by_title(all));
        Ok(list)
    }

    /// The feed that was made for a subject.
    pub fn feed_for_subject(&self, subject_id: i64) -> (r: Result<Option<RssFeed>, String>)
        ensures
            r is Ok,
            opt_view(r->Ok_0) == first(
                feeds_by_title(self@.feeds),
                feed_has_subject(subject_id),
            ),
    {
        let list: Vec<RssFeed> = self.list_feeds()?;
        let ghost all = views(list@);
        for i in 0..list.len()
            invariant
                all == views(list@),
                all == feeds_by_title(self@.feeds),
                forall|j: int| 0 <= j < i ==> !feed_has_subject(subject_id)(#[trigger] all[j]),
        {
            if list[i].subject_id == Some(subject_id) {
                proof {
                    lemma_first_at(all, feed_has_subject(subject_id), i as int);
                }
                return Ok(Some(list[i].clone()));
            }
        }
        proof {
            lemma_first_none(all, feed_has_subject(subject_id));
        }
        Ok(None)
    }

    /// The feed with an address.
    pub fn feed_by_url(&self, url: &str) -> (r: Result<Option<RssFeed>, String>)
        ensures
            r is Ok,
            opt_view(r->Ok_0) == first(feeds_by_title(self@.feeds), feed_has_url(url@)),
    {
        let list: Vec<RssFeed> = self.list_feeds()?;
        let ghost all = views(list@);
        for i in 0..list.len()
            invariant
                all == views(list@),
                all == feeds_by_title(self@.feeds),
                forall|j: int| 0 <= j < i ==> !feed_has_url(url@)(#[trigger] all[j]),
        {
            if same(list[i].url.as_str(), url) {
                proof {
                    lemma_first_at(all, feed_has_url(url@), i as int);
                }
                return Ok(Some(list[i].clone()));
            }
        }
        proof {
            lemma_first_none(all, feed_has_url(url@));
        }
        Ok(None)
    }

    /// The feed with an id.
    pub fn feed(&self, id: &str) -> (r: Result<RssFeed, String>)
        ensures
            match r {
                Ok(feed) => first(feeds_by_title(self@.feeds), feed_has_id(id@)) == Some(feed@),
                Err(e) => first(feeds_by_title(self@.feeds), feed_has_id(id@)) is None && e@
                    == "订阅源不存在"@,
            },
    {
        let list: Vec<RssFeed> = self.list_feeds()?;
        let ghost all = views(list@);
        for i in 0..list.len()
            invariant
                all == views(list@),
                all == feeds_by_title(self@.feeds),
                forall|j: int| 0 <= j < i ==> !feed_has_id(id@)(#[trigger] all[j]),
        {
            if same(list[i].id.as_str(), id) {
                proof {
                    lemma_first_at(all, feed_has_id(id@), i as int);
                }
                return Ok(list[i].clone());
            }
        }
        proof {
            lemma_first_none(all, feed_has_id(id@));
        }
        Err("订阅源不存在".to_owned())
    }

    /// Where the feed with an id stands.
    pub(crate) fn feed_index(&self, id: &str) -> (r: Option<usize>)
        ensures
            match r {
                Some(i) => i < self.feeds@.len() && self.feeds@[i as int].id@ == id@,
                None => forall|j: int|
                    0 <= j < self.feeds@.len() ==> (#[trigger] self.feeds@[j]).id@ != id@,
            },
    {
        for i in 0..self.feeds.len()
            invariant
                forall|j: int| 0 <= j < i ==> (#[trigger] self.feeds@[j]).id@ != id@,
        {
            if same(self.feeds[i].id.as_str(), id) {
                return Some(i);
            }
        }
        None
    }

    /// Makes a feed the subscription of a subject, and enables it.
    pub fn adopt_feed_as_subscription(&mut self, id: &str, subject_id: i64) -> (r: Result<
        (),
        String,
    >)
        requires
            old(self).wf(),
        ensures
            r is Ok,
            final(self).wf(),
            final(self)@ == old(self)@.feed_changed(id@, adopted(subject_id)),
    {
        let at: Option<usize> = self.feed_index(id);
        if let Some(i) = at {
            self.feeds[i].subject_id = Some(subject_id);
            self.feeds[i].enabled = true;
        }
        proof {
            lemma_feed_changed(*old(self), *self, at, id@, adopted(subject_id));
        }
        Ok(())
    }

    /// Notes the title of a feed and when it was checked.
    pub fn update_feed(&mut self, id: &str, title: &str, checked_at: &str) -> (r: Result<
        (),
        String,
    >)
        requires
            old(self).wf(),
        ensures
            r is Ok,
            final(self).wf(),
            final(self)@ == old(self)@.feed_changed(id@, checked(title@, checked_at@)),
    {
        let at: Option<usize> = self.feed_index(id);
        if let Some(i) = at {
            self.feeds[i].title = title.to_owned();
            self.feeds[i].last_checked_at = Some(checked_at.to_owned());
        }
        proof {
            lemma_feed_changed(*old(self), *self, at, id@, checked(title@, checked_at@));
        }
        Ok(())
    }

    /// Enables or disables a feed.
    pub fn set_feed_enabled(&mut self, id: &str, on: bool) -> (r: Result<(), String>)
        requires
            old(self).wf(),
        ensures
            r is Ok,
            final(self).wf(),
            final(self)@ == old(self)@.feed_changed(id@, enabled(on)),
    {
        let at: Option<usize> = self.feed_index(id);
        if let Some(i) = at {
            self.feeds[i].enabled = on;
        }
        proof {
            lemma_feed_changed(*old(self), *self, at, id@, enabled(on));
        }
        Ok(())
    }

    /// Gives a feed another rule.
    pub fn update_feed_rule(&mut self, id: &str, rule: &FeedRule) -> (r: Result<(), String>)
        requires
            old(self).wf(),
        ensures
            r is Ok,
            final(self).wf(),
            final(self)@ == old(self)@.feed_changed(id@, ruled(rule@)),
    {
        let at: Option<usize> = self.feed_index(id);
        if let Some(i) = at {
            self.feeds[i].rule = rule.clone();
        }
        proof {
            lemma_feed_changed(*old(self), *self, at, id@, ruled(rule@));
        }
        Ok(())
    }

    /// Takes out a feed and its items.
    pub fn delete_feed(&mut self, id: &str) -> (r: Result<(), String>)
        requires
            old(self).wf(),
        ensures
            r is Ok,
            final(self).wf(),
            final(self)@ == old(self)@.feed_deleted(id@),
    {
        let ghost keep_item = |r: ItemRowView| r.feed_id != id@;
        let ghost keep_feed = |f: FeedView| f.id != id@;
        let mut keep: Vec<bool> = Vec::new();
        for i in 0..self.items.len()
            invariant
                keep_item == |r: ItemRowView| r.feed_id != id@,
                keep@.len() == i,
                forall|j: int| 0 <= j < i ==> #[trigger] keep@[j] == keep_item(self.items@[j]@),
        {
            keep.push(!same(self.items[i].feed_id.as_str(), id));
        }
        retain(&mut self.items, &keep, Ghost(keep_item));
        let mut keep: Vec<bool> = Vec::new();
        for i in 0..self.feeds.len()
            invariant
                keep_feed == |f: FeedView| f.id != id@,
                keep@.len() == i,
                forall|j: int| 0 <= j < i ==> #[trigger] keep@[j] == keep_feed(self.feeds@[j]@),
        {
            keep.push(!same(self.feeds[i].id.as_str(), id));
        }
        retain(&mut self.feeds, &keep, Ghost(keep_feed));
        proof {
            lemma_feeds_filtered(old(self)@, keep_feed, keep_item);
        }
        assert(self@ =~= old(self)@.feed_deleted(id@));
        Ok(())
    }

    /// Whether a feed with the id was made for the subject.
    fn serves(&self, feed_id: &str, subject_id: i64) -> (r: bool)
        ensures
            r == self@.feed_serves(feed_id@, subject_id),
    {
        for i in 0..self.feeds.len()
            invariant
                forall|j: int|
                    0 <= j < i ==> !((#[trigger] self@.feeds[j]).id == feed_id@
                        && self@.feeds[j].subject_id == Some(subject_id)),
        {
            if same(self.feeds[i].id.as_str(), feed_id) && self.feeds[i].subject_id == Some(
                subject_id,
            ) {
                assert(self@.feeds[i as int].id == feed_id@);
                return true;
            }
            assert(self@.feeds[i as int] == self.feeds@[i as int]@);
        }
        false
    }

    /// Takes out the feeds that were made for a subject, and their items. Downloads that
    /// they started stay.
    pub fn delete_feeds_for_subject(&mut self, subject_id: i64) -> (r: Result<(), String>)
        requires
            old(self).wf(),
        ensures
            r is Ok,
            final(self).wf(),
            final(self)@ == old(self)@.subject_unsubscribed(subject_id),
    {
        let ghost db = self@;
        let ghost keep_item = |r: ItemRowView| !db.feed_serves(r.feed_id, subject_id);
        let ghost keep_feed = |f: FeedView| f.subject_id != Some(subject_id);
        let mut keep: Vec<bool> = Vec::new();
        for i in 0..self.items.len()
            invariant
                db == self@,
                keep_item == |r: ItemRowView| !db.feed_serves(r.feed_id, subject_id),
                keep@.len() == i,
                forall|j: int| 0 <= j < i ==> #[trigger] keep@[j] == keep_item(self.items@[j]@),
        {
            keep.push(!self.serves(self.items[i].feed_id.as_str(), subject_id));
        }
        retain(&mut self.items, &keep, Ghost(keep_item));
        let mut keep: Vec<bool> = Vec::new();
        for i in 0..self.feeds.len()
            invariant
                keep_feed == |f: FeedView| f.subject_id != Some(subject_id),
                keep@.len() == i,
                forall|j: int| 0 <= j < i ==> #[trigger] keep@[j] == keep_feed(self.feeds@[j]@),
        {
            let other: bool = match self.feeds[i].subject_id {
                Some(s) => s != subject_id,
                None => true,
            };
            keep.push(other);
        }
        retain(&mut self.feeds, &keep, Ghost(keep_feed));
        proof {
            lemma_feeds_filtered(old(self)@, keep_feed, keep_item);
        }
        assert(self@ =~= old(self)@.subject_unsubscribed(subject_id));
        Ok(())
    }
}

/// A change that keeps the id and the address of the one feed with an id.
proof fn lemma_feed_changed(
    before: Database,
    after: Database,
    at: Option<usize>,
    id: Seq<char>,
    change: spec_fn(FeedView) -> FeedView,
)
    requires
        before.wf(),
        after == (Database { feeds: after.feeds, ..before }),
        after.feeds@.len() == before.feeds@.len(),
        forall|f: FeedView| (#[trigger] change(f)).id == f.id && change(f).url == f.url,
        match at {
            Some(i) => {
                &&& i < before.feeds@.len()
                &&& before.feeds@[i as int].id@ == id
                &&& after.feeds@ =~= before.feeds@.update(i as int, after.feeds@[i as int])
                &&& after.feeds@[i as int]@ == change(before.feeds@[i as int]@)
            },
            None => after.feeds == before.feeds && forall|j: int|
                0 <= j < before.feeds@.len() ==> (#[trigger] before.feeds@[j]).id@ != id,
        },
    ensures
        after@ == before@.feed_changed(id, change),
        after.wf(),
{
    let expected = feeds_changed(before@.feeds, id, change);
    assert forall|j: int| 0 <= j < expected.len() implies after@.feeds[j] == #[trigger] expected[j] by {
        assert(before@.feeds[j] == before.feeds@[j]@);
        assert(after@.feeds[j] == after.feeds@[j]@);
        if let Some(i) = at {
            assert(before@.feeds[i as int] == before.feeds@[i as int]@);
        }
    }
    assert(after@.feeds =~= expected);
    assert(after@ =~= before@.feed_changed(id, change));
    assert forall|j: int| 0 <= j < after@.feeds.len() implies (#[trigger] after@.feeds[j]).id
        == before@.feeds[j].id && after@.feeds[j].url == before@.feeds[j].url by {
        assert(after@.feeds[j] == after.feeds@[j]@);
        assert(before@.feeds[j] == before.feeds@[j]@);
    }
}

/// Looking a feed up in the order of titles finds one where there is one.
pub proof fn law_feed_lookup(feeds: Seq<FeedView>, p: spec_fn(FeedView) -> bool)
    ensures
        first(feeds_by_title(feeds), p) is Some <==> some_row(feeds, p),
        first(feeds_by_title(feeds), p) matches Some(f) ==> feeds.contains(f) && p(f),
{
    let sorted = feeds_by_title(feeds);
    lemma_sorted_rows(feeds, feed_titles(feeds), false);
    lemma_first_none(sorted, p);
    if some_row(feeds, p) {
        let i = choose|i: int| 0 <= i < feeds.len() && p(#[trigger] feeds[i]);
        assert(sorted.contains(feeds[i]));
        let k = choose|k: int| 0 <= k < sorted.len() && sorted[k] == feeds[i];
        assert(p(sorted[k]));
    }
    if let Some(f) = first(sorted, p) {
        assert(feeds.contains(f));
        let i = choose|i: int| 0 <= i < feeds.len() && feeds[i] == f;
        assert(p(feeds[i]));
    }
}

/// After a subject was unsubscribed no feed was made for it, the feeds that were not
/// made for it are as they were, and so are their items and all downloads.
pub proof fn law_unsubscribing_keeps_the_rest(db: DatabaseView, subject_id: i64)
    requires
        db.wf(),
    ensures
        !some_row(db.subject_unsubscribed(subject_id).feeds, feed_has_subject(subject_id)),
        forall|f: FeedView|
            db.feeds.contains(f) && f.subject_id != Some(subject_id)
                ==> #[trigger] db.subject_unsubscribed(subject_id).feeds.contains(f),
        forall|r: ItemRowView|
            db.items.contains(r) && !db.feed_serves(r.feed_id, subject_id)
                ==> #[trigger] db.subject_unsubscribed(subject_id).items.contains(r),
        db.subject_unsubscribed(subject_id).downloads == db.downloads,
        db.subject_unsubscribed(subject_id).wf(),
{
    let keep_feed = |f: FeedView| f.subject_id != Some(subject_id);
    let keep_item = |r: ItemRowView| !db.feed_serves(r.feed_id, subject_id);
    lemma_feeds_filtered(db, keep_feed, keep_item);
    lemma_filter_pairs(db.feeds, keep_feed, |a: FeedView, b: FeedView| true);
    broadcast use vstd::seq_lib::group_filter_ensures;

    assert forall|f: FeedView|
        db.feeds.contains(f) && f.subject_id != Some(
            subject_id,
        ) implies #[trigger] db.subject_unsubscribed(subject_id).feeds.contains(f) by {
        let i = choose|i: int| 0 <= i < db.feeds.len() && db.feeds[i] == f;
        assert(keep_feed(db.feeds[i]));
    }
    assert forall|r: ItemRowView|
        db.items.contains(r) && !db.feed_serves(
            r.feed_id,
            subject_id,
        ) implies #[trigger] db.subject_unsubscribed(subject_id).items.contains(r) by {
        let i = choose|i: int| 0 <= i < db.items.len() && db.items[i] == r;
        assert(keep_item(db.items[i]));
    }
}

} // verus!
