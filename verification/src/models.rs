//! The records that the application keeps and shows.

use crate::matcher::{MatchRule, RuleView};
use crate::text::{copy_opt, copy_texts, opt_text, texts};
use vstd::prelude::*;

verus! {

/// A rating: the bits of a finite double-precision number.
#[derive(Debug, Clone, Copy, PartialEq, Eq, Structural)]
pub struct Score {
    pub bits: u64,
}

/// A place on the number line for the bits of a finite double-precision number:
/// the order of these integers is the order of the numbers.
pub open spec fn score_rank(bits: u64) -> int {
    if bits < 0x8000_0000_0000_0000 {
        bits as int
    } else {
        0x8000_0000_0000_0000 - bits
    }
}

/// The greater of two ratings; the first of two equal ones.
pub open spec fn greater_score(a: Score, b: Score) -> Score {
    if score_rank(a.bits) < score_rank(b.bits) {
        b
    } else {
        a
    }
}

impl Score {
    /// The greater of two ratings; the first of two equal ones.
    pub fn greater(self, other: Score) -> (r: Score)
        ensures
            r == greater_score(self, other),
    {
        let a: i128 = if self.bits < 0x8000_0000_0000_0000 {
            self.bits as i128
        } else {
            0x8000_0000_0000_0000 - self.bits as i128
        };
        let b: i128 = if other.bits < 0x8000_0000_0000_0000 {
            other.bits as i128
        } else {
            0x8000_0000_0000_0000 - other.bits as i128
        };
        if a < b {
            other
        } else {
            self
        }
    }
}

/// How much of a whole is done: the fraction `done / total`, and nothing where the
/// total is zero.
#[derive(Debug, Clone, Copy, PartialEq, Eq, Structural)]
pub struct Progress {
    pub done: u64,
    pub total: u64,
}

/// Nothing done yet.
pub open spec fn nothing_done() -> Progress {
    Progress { done: 0, total: 0 }
}

/// All done.
pub open spec fn all_done() -> Progress {
    Progress { done: 1, total: 1 }
}

impl Progress {
    /// Nothing done yet.
    pub fn none() -> (r: Progress)
        ensures
            r == nothing_done(),
    {
        Progress { done: 0, total: 0 }
    }

    /// All done.
    pub fn full() -> (r: Progress)
        ensures
            r == all_done(),
    {
        Progress { done: 1, total: 1 }
    }
}

/// An anime as the calendar and the collection show it. Weekdays run from 0 for
/// Monday to 6 for Sunday; -1 stands for no weekday.
#[derive(Debug)]
pub struct Subject {
    pub id: i64,
    pub name: String,
    pub name_cn: String,
    pub summary: String,
    pub image: Option<String>,
    pub score: Score,
    pub rank: Option<i64>,
    pub air_weekday: i64,
    pub collection: Option<String>,
    pub episodes: i64,
    pub watched: i64,
    pub update_state: String,
}

/// A subject as plain values.
#[verifier::ext_equal]
pub struct SubjectView {
    pub id: i64,
    pub name: Seq<char>,
    pub name_cn: Seq<char>,
    pub summary: Seq<char>,
    pub image: Option<Seq<char>>,
    pub score: Score,
    pub rank: Option<i64>,
    pub air_weekday: i64,
    pub collection: Option<Seq<char>>,
    pub episodes: i64,
    pub watched: i64,
    pub update_state: Seq<char>,
}

impl View for Subject {
    type V = SubjectView;

    open spec fn view(&self) -> SubjectView {
        SubjectView {
            id: self.id,
            name: self.name@,
            name_cn: self.name_cn@,
            summary: self.summary@,
            image: opt_text(self.image),
            score: self.score,
            rank: self.rank,
            air_weekday: self.air_weekday,
            collection: opt_text(self.collection),
            episodes: self.episodes,
            watched: self.watched,
            update_state: self.update_state@,
        }
    }
}

impl Clone for Subject {
    fn clone(&self) -> (copy: Self)
        ensures
            copy == *self,
    {
        Subject {
            id: self.id,
            name: self.name.clone(),
            name_cn: self.name_cn.clone(),
            summary: self.summary.clone(),
            image: copy_opt(&self.image),
            score: self.score,
            rank: self.rank,
            air_weekday: self.air_weekday,
            collection: copy_opt(&self.collection),
            episodes: self.episodes,
            watched: self.watched,
            update_state: self.update_state.clone(),
        }
    }
}

/// The rule of a feed: which titles match, and whether they are downloaded as soon
/// as they are discovered.
#[derive(Debug)]
pub struct FeedRule {
    pub includes: Vec<String>,
    pub excludes: Vec<String>,
    pub resolution: Option<String>,
    pub subtitle_group: Option<String>,
    pub auto_download: bool,
}

/// The rule of a feed as plain values.
#[verifier::ext_equal]
pub struct FeedRuleView {
    pub includes: Seq<Seq<char>>,
    pub excludes: Seq<Seq<char>>,
    pub resolution: Option<Seq<char>>,
    pub subtitle_group: Option<Seq<char>>,
    pub auto_download: bool,
}

impl FeedRuleView {
    /// The part of the rule that titles are held against.
    pub open spec fn matching(self) -> RuleView {
        RuleView {
            includes: self.includes,
            excludes: self.excludes,
            resolution: self.resolution,
            subtitle_group: self.subtitle_group,
        }
    }
}

/// The rule of a feed that was given none.
pub open spec fn default_feed_rule() -> FeedRuleView {
    FeedRuleView {
        includes: Seq::empty(),
        excludes: Seq::empty(),
        resolution: None,
        subtitle_group: None,
        auto_download: false,
    }
}

impl View for FeedRule {
    type V = FeedRuleView;

    open spec fn view(&self) -> FeedRuleView {
        FeedRuleView {
            includes: texts(self.includes@),
            excludes: texts(self.excludes@),
            resolution: opt_text(self.resolution),
            subtitle_group: opt_text(self.subtitle_group),
            auto_download: self.auto_download,
        }
    }
}

impl Clone for FeedRule {
    fn clone(&self) -> (copy: Self)
        ensures
            copy@ == self@,
    {
        FeedRule {
            includes: copy_texts(&self.includes),
            excludes: copy_texts(&self.excludes),
            resolution: copy_opt(&self.resolution),
            subtitle_group: copy_opt(&self.subtitle_group),
            auto_download: self.auto_download,
        }
    }
}

impl Default for FeedRule {
    fn default() -> (rule: Self)
        ensures
            rule@ == default_feed_rule(),
    {
        let rule = FeedRule {
            includes: Vec::new(),
            excludes: Vec::new(),
            resolution: None,
            subtitle_group: None,
            auto_download: false,
        };
        assert(rule@ =~= default_feed_rule());
        rule
    }
}

impl vstd::std_specs::convert::FromSpecImpl<&FeedRule> for MatchRule {
    open spec fn obeys_from_spec() -> bool {
        false
    }

    open spec fn from_spec(rule: &FeedRule) -> MatchRule {
        arbitrary()
    }
}

impl From<&FeedRule> for MatchRule {
    fn from(rule: &FeedRule) -> (r: Self)
        ensures
            r@ == rule@.matching(),
    {
        MatchRule {
            includes: copy_texts(&rule.includes),
            excludes: copy_texts(&rule.excludes),
            resolution: copy_opt(&rule.resolution),
            subtitle_group: copy_opt(&rule.subtitle_group),
        }
    }
}

/// A subscribed feed. One that was made for a subject carries the subject's id.
#[derive(Debug)]
pub struct RssFeed {
    pub id: String,
    pub title: String,
    pub url: String,
    pub enabled: bool,
    pub last_checked_at: Option<String>,
    pub rule: FeedRule,
    pub subject_id: Option<i64>,
}

/// A feed as plain values.
#[verifier::ext_equal]
pub struct FeedView {
    pub id: Seq<char>,
    pub title: Seq<char>,
    pub url: Seq<char>,
    pub enabled: bool,
    pub last_checked_at: Option<Seq<char>>,
    pub rule: FeedRuleView,
    pub subject_id: Option<i64>,
}

impl View for RssFeed {
    type V = FeedView;

    open spec fn view(&self) -> FeedView {
        FeedView {
            id: self.id@,
            title: self.title@,
            url: self.url@,
            enabled: self.enabled,
            last_checked_at: opt_text(self.last_checked_at),
            rule: self.rule@,
            subject_id: self.subject_id,
        }
    }
}

impl Clone for RssFeed {
    fn clone(&self) -> (copy: Self)
        ensures
            copy@ == self@,
    {
        RssFeed {
            id: self.id.clone(),
            title: self.title.clone(),
            url: self.url.clone(),
            enabled: self.enabled,
            last_checked_at: copy_opt(&self.last_checked_at),
            rule: self.rule.clone(),
            subject_id: self.subject_id,
        }
    }
}

/// A download task.
#[derive(Debug)]
pub struct DownloadTask {
    pub id: String,
    pub title: String,
    pub episode: String,
    pub progress: Progress,
    pub down_speed: u64,
    pub up_speed: u64,
    pub state: String,
    pub output_path: String,
    pub playback_path: Option<String>,
}

/// A download task as plain values.
#[verifier::ext_equal]
pub struct TaskView {
    pub id: Seq<char>,
    pub title: Seq<char>,
    pub episode: Seq<char>,
    pub progress: Progress,
    pub down_speed: u64,
    pub up_speed: u64,
    pub state: Seq<char>,
    pub output_path: Seq<char>,
    pub playback_path: Option<Seq<char>>,
}

impl View for DownloadTask {
    type V = TaskView;

    open spec fn view(&self) -> TaskView {
        TaskView {
            id: self.id@,
            title: self.title@,
            episode: self.episode@,
            progress: self.progress,
            down_speed: self.down_speed,
            up_speed: self.up_speed,
            state: self.state@,
            output_path: self.output_path@,
            playback_path: opt_text(self.playback_path),
        }
    }
}

impl Clone for DownloadTask {
    fn clone(&self) -> (copy: Self)
        ensures
            copy == *self,
    {
        DownloadTask {
            id: self.id.clone(),
            title: self.title.clone(),
            episode: self.episode.clone(),
            progress: self.progress,
            down_speed: self.down_speed,
            up_speed: self.up_speed,
            state: self.state.clone(),
            output_path: self.output_path.clone(),
            playback_path: copy_opt(&self.playback_path),
        }
    }
}

/// Where the download of a feed item stands.
#[derive(Debug)]
pub struct RssDownloadStatus {
    pub task_id: String,
    pub state: String,
    pub progress: Progress,
    pub active: bool,
}

/// The download of a feed item as plain values.
#[verifier::ext_equal]
pub struct StatusView {
    pub task_id: Seq<char>,
    pub state: Seq<char>,
    pub progress: Progress,
    pub active: bool,
}

impl View for RssDownloadStatus {
    type V = StatusView;

    open spec fn view(&self) -> StatusView {
        StatusView {
            task_id: self.task_id@,
            state: self.state@,
            progress: self.progress,
            active: self.active,
        }
    }
}

impl Clone for RssDownloadStatus {
    fn clone(&self) -> (copy: Self)
        ensures
            copy == *self,
    {
        RssDownloadStatus {
            task_id: self.task_id.clone(),
            state: self.state.clone(),
            progress: self.progress,
            active: self.active,
        }
    }
}

/// An item of a feed.
#[derive(Debug)]
pub struct RssItem {
    pub guid: String,
    pub feed_id: String,
    pub title: String,
    pub link: String,
    pub torrent: Option<String>,
    pub published_at: Option<String>,
    pub downloaded: bool,
    pub download: Option<RssDownloadStatus>,
    pub matches_rule: bool,
}

/// An item of a feed as plain values.
#[verifier::ext_equal]
pub struct ItemView {
    pub guid: Seq<char>,
    pub feed_id: Seq<char>,
    pub title: Seq<char>,
    pub link: Seq<char>,
    pub torrent: Option<Seq<char>>,
    pub published_at: Option<Seq<char>>,
    pub downloaded: bool,
    pub download: Option<StatusView>,
    pub matches_rule: bool,
}

/// The download of an item, if any, as plain values.
pub open spec fn opt_status(value: Option<RssDownloadStatus>) -> Option<StatusView> {
    match value {
        Some(s) => Some(s@),
        None => None,
    }
}

impl View for RssItem {
    type V = ItemView;

    open spec fn view(&self) -> ItemView {
        ItemView {
            guid: self.guid@,
            feed_id: self.feed_id@,
            title: self.title@,
            link: self.link@,
            torrent: opt_text(self.torrent),
            published_at: opt_text(self.published_at),
            downloaded: self.downloaded,
            download: opt_status(self.download),
            matches_rule: self.matches_rule,
        }
    }
}

impl Clone for RssItem {
    fn clone(&self) -> (copy: Self)
        ensures
            copy == *self,
    {
        RssItem {
            guid: self.guid.clone(),
            feed_id: self.feed_id.clone(),
            title: self.title.clone(),
            link: self.link.clone(),
            torrent: copy_opt(&self.torrent),
            published_at: copy_opt(&self.published_at),
            downloaded: self.downloaded,
            download: match &self.download {
                Some(s) => Some(s.clone()),
                None => None,
            },
            matches_rule: self.matches_rule,
        }
    }
}

/// What became of a batch of downloads.
#[derive(Debug)]
pub struct BatchDownloadResult {
    pub added: usize,
    pub reused: usize,
    pub failed: usize,
    pub errors: Vec<String>,
}

/// A file of a task: its path below the output directory, and its size.
#[derive(Debug)]
pub struct StoredFileInfo {
    pub relative_path: String,
    pub len: u64,
}

impl Clone for StoredFileInfo {
    fn clone(&self) -> (copy: Self)
        ensures
            copy == *self,
    {
        StoredFileInfo { relative_path: self.relative_path.clone(), len: self.len }
    }
}

/// The files of a list as pairs of path and size.
pub open spec fn stored_files(list: Seq<StoredFileInfo>) -> Seq<(Seq<char>, u64)> {
    list.map_values(|f: StoredFileInfo| (f.relative_path@, f.len))
}

/// A copy of a list of files.
pub fn copy_files(list: &Vec<StoredFileInfo>) -> (copy: Vec<StoredFileInfo>)
    ensures
        copy@ == list@,
{
    let mut copy: Vec<StoredFileInfo> = Vec::new();
    for i in 0..list.len()
        invariant
            copy@ == list@.take(i as int),
    {
        copy.push(list[i].clone());
        assert(list@.take(i + 1) =~= list@.take(i as int).push(list@[i as int]));
    }
    assert(list@.take(list@.len() as int) =~= list@);
    copy
}

/// What the feeds of a subject hold: resources being downloaded, downloaded ones,
/// and matching ones that are not downloaded yet.
#[derive(Debug, Clone, Copy, PartialEq, Eq, Structural)]
pub struct SubjectRssState {
    pub downloading: bool,
    pub completed: bool,
    pub pending: bool,
}

} // verus!
