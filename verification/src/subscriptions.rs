//! Following a subject: the feed of its resources, the rule of that feed, and the badge that
//! tells of news.

use crate::models::{FeedRule, FeedRuleView, SubjectRssState};
use crate::numbers::{decimal, decimal_i64};
use crate::text::{append, opt_str, same_opt, trim, trimmed};
use vstd::prelude::*;

verus! {

/// The address of the feed of a subject on Mikan.
pub open spec fn mikan_url(mikan_id: i64) -> Seq<char> {
    "https://mikanani.me/RSS/Bangumi?bangumiId="@ + decimal(mikan_id as int)
}

/// The address of the feed of a subject on Mikan.
pub fn build_mikan_rss_url(mikan_id: i64) -> (url: String)
    ensures
        url@ == mikan_url(mikan_id),
{
    let mut url = "https://mikanani.me/RSS/Bangumi?bangumiId=".to_owned();
    append(&mut url, decimal_i64(mikan_id).as_str());
    url
}

/// Different subjects have different feeds.
pub proof fn law_feeds_of_subjects_differ(a: i64, b: i64)
    requires
        mikan_url(a) == mikan_url(b),
    ensures
        a == b,
{
    let head = "https://mikanani.me/RSS/Bangumi?bangumiId="@;
    let x = decimal(a as int);
    let y = decimal(b as int);
    assert((head + x).skip(head.len() as int) =~= x);
    assert((head + y).skip(head.len() as int) =~= y);
    crate::numbers::law_decimal_is_injective(a, b);
}

/// The rule of a new subscription: everything new is downloaded. A subtitle group may be
/// preferred; a blank one counts as none.
pub open spec fn subscription_rule(subtitle_group: Option<Seq<char>>) -> FeedRuleView {
    FeedRuleView {
        includes: Seq::empty(),
        excludes: Seq::empty(),
        resolution: None,
        subtitle_group: match subtitle_group {
            Some(group) => if trimmed(group).len() > 0 {
                Some(trimmed(group))
            } else {
                None
            },
            None => None,
        },
        auto_download: true,
    }
}

/// The rule of a new subscription.
pub fn default_subscription_rule(subtitle_group: Option<&str>) -> (rule: FeedRule)
    ensures
        rule@ == subscription_rule(opt_str(subtitle_group)),
{
    let group: Option<String> = match subtitle_group {
        Some(group) => {
            let group: String = trim(group);
            if group.as_str().is_empty() {
                None
            } else {
                Some(group)
            }
        },
        None => None,
    };
    let rule = FeedRule {
        includes: Vec::new(),
        excludes: Vec::new(),
        resolution: None,
        subtitle_group: group,
        auto_download: true,
    };
    assert(rule@ =~= subscription_rule(opt_str(subtitle_group)));
    rule
}

/// The badge of a subject. What its feeds hold counts first: a running download, then
/// resources that wait, then finished downloads. Otherwise a subject that is being watched,
/// has episodes left and airs today has news.
pub open spec fn update_state(
    collection: Option<Seq<char>>,
    watched: i64,
    episodes: i64,
    air_weekday: i64,
    today_weekday: i64,
    rss: Option<SubjectRssState>,
) -> Seq<char> {
    if rss matches Some(r) && r.downloading {
        "downloading"@
    } else if rss matches Some(r) && r.pending {
        "published"@
    } else if rss matches Some(r) && r.completed {
        "completed"@
    } else if collection == Some("doing"@) && episodes > 0 && watched < episodes && air_weekday
        == today_weekday {
        "published"@
    } else {
        "none"@
    }
}

/// What an optional reference to the state of feeds refers to.
pub open spec fn opt_state(rss: Option<&SubjectRssState>) -> Option<SubjectRssState> {
    match rss {
        Some(r) => Some(*r),
        None => None,
    }
}

/// The badge of a subject.
pub fn compute_update_state(
    collection: Option<&str>,
    watched: i64,
    episodes: i64,
    air_weekday: i64,
    today_weekday: i64,
    rss: Option<&SubjectRssState>,
) -> (state: &'static str)
    ensures
        state@ == update_state(
            opt_str(collection),
            watched,
            episodes,
            air_weekday,
            today_weekday,
            opt_state(rss),
        ),
{
    if let Some(rss) = rss {
        if rss.downloading {
            return "downloading";
        }
        if rss.pending {
            return "published";
        }
        if rss.completed {
            return "completed";
        }
    }
    if same_opt(collection, "doing") && episodes > 0 && watched < episodes && air_weekday
        == today_weekday {
        return "published";
    }
    "none"
}

/// Where a resource waits to be downloaded and none is being downloaded, the badge tells of
/// news, whatever else is known.
pub proof fn law_waiting_resources_are_shown(
    collection: Option<Seq<char>>,
    watched: i64,
    episodes: i64,
    air_weekday: i64,
    today_weekday: i64,
    rss: SubjectRssState,
)
    requires
        rss.pending,
        !rss.downloading,
    ensures
        update_state(collection, watched, episodes, air_weekday, today_weekday, Some(rss))
            == "published"@,
{
}

} // verus!
