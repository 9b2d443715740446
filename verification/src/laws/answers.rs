//! What holds of requests and answers: what is asked for, what an operation answers and leaves
//! behind, and what is said where it cannot.

use crate::bangumi::{
    asks_for, changes_collection, collection_url, collections_address, comments_address,
    detail_address, found_subjects, remote_limit, username_in, v0_subject,
};
use crate::broker::asks_for_token;
use crate::bt::{AddPlan, added_with, file_name_of};
use crate::calendar::{
    CalendarPayload, SearchPayload, calendar_answers, kept_detail, local_limit, local_subjects,
    matches_among, search_answers,
};
use crate::clock::rfc3339_text;
use crate::collection::{collection_fault, watch_fault, watched_fits};
use crate::db::collection_table::setting_of;
use crate::db::feed_table::{feed_has_id, feed_has_subject, feed_has_url, law_feed_lookup};
use crate::db::item_table::items_after;
use crate::db::{DatabaseView, DownloadRowView, SyncEntryView, SyncRowView};
use crate::downloads::{
    AddOutcome, DeleteStep, StartPlan, StartStep, after_checking, after_start, deletion_begins,
    download_finished, download_planned, download_starts, existing_download, new_task,
};
use crate::feeds::{feed_items, feed_of, feed_url_fault, lossy_text, nested_dates, rss_channel};
use crate::files::{
    PlaybackFile, fallback_told, playback_told, removal_told, stored_playback_told, videos_by_name,
};
use crate::json::{Json, elements_of, field, field2, int_of, member_names, text_of};
use crate::links::{parsed_url, source_key};
use crate::markup::extension_depth;
use crate::models::{
    DownloadTask, FeedRuleView, FeedView, ItemView, RssFeed, RssItem, StoredFileInfo, Subject,
    TaskView, stored_files,
};
use crate::numbers::decimal;
use crate::rows::{first, lemma_first_at, lemma_first_none, views};
use crate::rss::{
    BatchRun, BatchStep, BatchView, batch_fits, chosen_by_hand, download_source, failure_line,
    feed_answered, feed_conflict, feed_is_new, feed_stored, item_annotated, item_handled,
    items_limit, items_shown, known_subscription, known_subscription_stored, outcome_noted,
    refresh_found, refresh_told, rule_fits, unlinked_line,
};
use crate::sync_pass::{
    SyncPass, SyncReplyView, SyncStep, all_due, due_with, goes_on, reply_noted,
};
use crate::text::{joined, opt_text};
use vstd::prelude::*;

verus! {

/// A search asks for the keyword, for the best matches, and only for anime that are fit for
/// everyone: the kind with the number two.
pub proof fn law_searches_ask_for_anime(body: Json, keyword: Seq<char>, limit: u32)
    requires
        asks_for(body, keyword),
    ensures
        text_of(field(body, "keyword"@)) == Some(keyword),
        text_of(field(body, "sort"@)) == Some("match"@),
        elements_of(field2(body, "filter"@, "type"@)).len() == 1,
        int_of(Some(elements_of(field2(body, "filter"@, "type"@))[0])) == Some(2i64),
        field2(body, "filter"@, "nsfw"@) == Some(Json::Bool(false)),
        member_names(Some(body)) == seq!["keyword"@, "sort"@, "filter"@],
        member_names(field(body, "filter"@)) == seq!["type"@, "nsfw"@],
        limit <= 30 ==> remote_limit(limit) == limit,
        limit >= 30 ==> remote_limit(limit) == 30,
{
}

/// Each element of a page of results is a subject, in the order of the page, without a collection
/// and without watched episodes.
pub proof fn law_found_subjects_are_read(page: Json, k: int)
    ensures
        found_subjects(page).len() == elements_of(field(page, "data"@)).len(),
        0 <= k < found_subjects(page).len() ==> found_subjects(page)[k] == v0_subject(
            elements_of(field(page, "data"@))[k],
            None,
            0,
        ),
{
}

/// A change of a collection is sent with the kind, with the episodes exactly where they are given,
/// and with nothing else.
pub proof fn law_changes_say_kind_and_episodes(body: Json, kind: i64, n: i64, ep: Option<i64>)
    requires
        changes_collection(body, kind, ep),
    ensures
        int_of(field(body, "type"@)) == Some(kind),
        ep is None ==> int_of(field(body, "ep"@)) is None && member_names(Some(body)).len() == 1,
        ep == Some(n) ==> int_of(field(body, "ep"@)) == Some(n) && member_names(Some(body)).len()
            == 2,
{
}

/// A token is asked for with the code and all else that belongs to the sign-in, each under its
/// name.
pub proof fn law_tokens_are_asked_for_with_codes(
    body: Json,
    id: Seq<char>,
    secret: Seq<char>,
    code: Seq<char>,
    uri: Seq<char>,
    state: Seq<char>,
)
    requires
        asks_for_token(body, id, secret, code, uri, state),
    ensures
        text_of(field(body, "grant_type"@)) == Some("authorization_code"@),
        text_of(field(body, "client_id"@)) == Some(id),
        text_of(field(body, "client_secret"@)) == Some(secret),
        text_of(field(body, "code"@)) == Some(code),
        text_of(field(body, "redirect_uri"@)) == Some(uri),
        text_of(field(body, "state"@)) == Some(state),
        body is Object && body->Object_0@.len() == 6,
{
}

/// What is read of a subject or of a user, or changed, has the address that the service gives it.
pub proof fn law_services_have_their_addresses(id: i64, user: Seq<char>)
    ensures
        collection_url(id) == "https://api.bgm.tv/v0/users/-/collections/"@ + decimal(id as int),
        detail_address(id) == "https://api.bgm.tv/v0/subjects/"@ + decimal(id as int),
        comments_address(id) == "https://next.bgm.tv/p1/subjects/"@ + decimal(id as int)
            + "/comments"@,
        collections_address(user) == "https://api.bgm.tv/v0/users/"@ + user + "/collections"@,
{
}

/// A profile names its user, and it is told where it does not.
pub proof fn law_profiles_name_their_users(profile: Json, name: Seq<char>)
    ensures
        text_of(field(profile, "username"@)) == Some(name) <==> username_in(profile) == Ok::<
            Seq<char>,
            Seq<char>,
        >(name),
        text_of(field(profile, "username"@)) is None <==> username_in(profile) == Err::<
            Seq<char>,
            Seq<char>,
        >("无法识别 Bangumi 用户"@),
{
}

/// The address of a feed is a URL of the web, plain or secure; anything else is refused, and it is
/// told which of the two is wrong.
pub proof fn law_feeds_have_addresses_of_the_web(
    url: Seq<char>,
    scheme: Seq<char>,
    pairs: Seq<(Seq<char>, Seq<char>)>,
)
    ensures
        parsed_url(url) is None ==> feed_url_fault(url) == Some("RSS 地址无效"@),
        parsed_url(url) == Some((scheme, pairs)) && scheme == "http"@ ==> feed_url_fault(
            url,
        ) is None,
        parsed_url(url) == Some((scheme, pairs)) && scheme == "https"@ ==> feed_url_fault(
            url,
        ) is None,
        parsed_url(url) == Some((scheme, pairs)) && scheme != "http"@ && scheme != "https"@
            ==> feed_url_fault(url) == Some("RSS 地址必须使用 HTTP 或 HTTPS"@),
{
}

/// A feed has the title of its channel and the items of its channel, dated by its own bytes. Bytes
/// that hold no channel are refused with the reason, and so are bytes that are nested more than
/// 512 deep.
pub proof fn law_feeds_are_read_from_their_bytes(bytes: Seq<u8>)
    ensures
        extension_depth(bytes) > 512 ==> feed_of(bytes) is Err && feed_of(bytes)->Err_0
            == "无法解析 RSS: 嵌套层级过深"@,
        extension_depth(bytes) <= 512 ==> match rss_channel(bytes) {
            Ok(channel) => feed_of(bytes) is Ok && (feed_of(bytes)->Ok_0).0 == channel.0 && (
            feed_of(bytes)->Ok_0).1 == feed_items(channel.1, nested_dates(lossy_text(bytes))),
            Err(reason) => feed_of(bytes) is Err && feed_of(bytes)->Err_0 == "无法解析 RSS: "@
                + reason,
        },
{
}

/// A calendar that was fetched is shown as it came and is kept with the time; no other record and
/// no other setting changes.
pub proof fn law_fetched_calendars_are_kept(
    before: DatabaseView,
    after: DatabaseView,
    fresh: Vec<Subject>,
    now: Seq<char>,
    r: Result<CalendarPayload, String>,
    other: Seq<char>,
)
    requires
        calendar_answers(before, after, Ok(fresh), now, r),
    ensures
        r is Ok,
        views((r->Ok_0).subjects@) == views(fresh@),
        opt_text((r->Ok_0).refreshed_at) == Some(now),
        !(r->Ok_0).stale,
        (r->Ok_0).warning is None,
        after.calendar == Some(views(fresh@)),
        setting_of(after.settings, "calendar_refreshed_at"@) == Some(now),
        other != "calendar_refreshed_at"@ ==> setting_of(after.settings, other) == setting_of(
            before.settings,
            other,
        ),
        after.feeds == before.feeds,
        after.items == before.items,
        after.downloads == before.downloads,
        after.sync == before.sync,
        after.collections == before.collections,
        after.subjects == before.subjects,
        after.details == before.details,
{
}

/// Where no calendar could be fetched, the kept one is shown as stale, with its time and a warning
/// that ends the error; where none is kept, or an empty one, the error is told. Nothing changes.
pub proof fn law_without_a_calendar_the_kept_one_is_shown(
    before: DatabaseView,
    after: DatabaseView,
    error: String,
    now: Seq<char>,
    r: Result<CalendarPayload, String>,
)
    requires
        calendar_answers(before, after, Err(error), now, r),
    ensures
        after == before,
        r is Ok <==> before.calendar is Some && (before.calendar->0).len() > 0,
        r is Ok ==> {
            let p = r->Ok_0;
            &&& Some(views(p.subjects@)) == before.calendar
            &&& opt_text(p.refreshed_at) == setting_of(before.settings, "calendar_refreshed_at"@)
            &&& p.stale
            &&& opt_text(p.warning) == Some(error@ + "，已显示上次缓存"@)
        },
        r is Err ==> (r->Err_0)@ == error@,
{
    if let Ok(p) = r {
        assert(views(p.subjects@).len() == p.subjects@.len());
    }
}

/// A search shows what was found remotely, all of it in order, each with the collection that is
/// known of it; without a reply it shows what is found among the known subjects, with a warning
/// that begins with the error.
pub proof fn law_searches_show_what_was_found(
    db: DatabaseView,
    documents: Seq<Json>,
    keyword: Seq<char>,
    limit: Option<u32>,
    remote: Result<Vec<Subject>, String>,
    p: SearchPayload,
    k: int,
)
    requires
        search_answers(db, documents, keyword, limit, remote, p),
    ensures
        ({
            let found = match remote {
                Ok(subjects) => views(subjects@),
                Err(_) => matches_among(
                    local_subjects(documents, db.calendar),
                    keyword,
                    local_limit(limit),
                ),
            };
            let shown = views(p.subjects@);
            let known = db.collections;
            &&& p.local_only <==> remote is Err
            &&& remote is Ok ==> p.warning is None
            &&& remote matches Err(error) ==> opt_text(p.warning) == Some(
                error@ + "，当前显示本地匹配结果"@,
            )
            &&& shown.len() == found.len()
            &&& 0 <= k < found.len() ==> {
                &&& shown[k].id == found[k].id
                &&& shown[k].name == found[k].name
                &&& shown[k].name_cn == found[k].name_cn
                &&& known.dom().contains(found[k].id) ==> shown[k].collection == Some(
                    known[found[k].id].collection,
                ) && shown[k].watched == known[found[k].id].watched
                &&& !known.dom().contains(found[k].id) ==> shown[k] == found[k]
            }
        }),
{
}

/// Where details cannot be fetched, those that are kept of the subject are shown.
pub proof fn law_kept_details_are_shown(db: DatabaseView, id: i64)
    ensures
        kept_detail(db, id) is Some <==> db.details.dom().contains(id),
        db.details.dom().contains(id) ==> kept_detail(db, id) == Some(db.details[id].0),
{
}

/// A source that is no link is refused. One that a running or complete download has is answered
/// with that download; any other is prepared.
pub proof fn law_links_are_downloaded_once(
    db: DatabaseView,
    source: Seq<char>,
    handles: Seq<Seq<char>>,
    r: Result<StartStep, String>,
)
    requires
        download_starts(db, source, handles, r),
    ensures
        ({
            let link = "magnet:"@.is_prefix_of(source) || "http://"@.is_prefix_of(source)
                || "https://"@.is_prefix_of(source);
            let known = existing_download(db, source);
            let taken = known is Some && (handles.contains(known->0.task.id)
                || known->0.task.state == "completed"@);
            &&& r is Ok <==> link
            &&& !link ==> (r->Err_0)@ == "仅支持 magnet、HTTP 或 HTTPS 种子地址"@
            &&& link && taken ==> r->Ok_0 is Reuse && (r->Ok_0->Reuse_0)@ == known->0.task
            &&& link && !taken ==> r->Ok_0 is Prepare
        }),
{
}

/// A source that a download has is planned for that download: it waits again and nothing else
/// changes. It is handed over paused where the user had paused it or no slot is free.
pub proof fn law_known_sources_wait_again(
    before: DatabaseView,
    after: DatabaseView,
    source: Seq<char>,
    prepared: Seq<char>,
    task: TaskView,
    full: bool,
    now: Seq<char>,
    r: Result<StartPlan, String>,
    row: DownloadRowView,
    k: int,
)
    requires
        download_planned(before, after, source, prepared, task, full, now, r),
        existing_download(before, source) == Some(row),
    ensures
        r is Ok,
        !(r->Ok_0).is_new,
        (r->Ok_0).task@ == row.task,
        (r->Ok_0).restore_paused <==> row.task.state == "paused"@,
        (r->Ok_0).add_paused <==> row.task.state == "paused"@ || full,
        after.downloads.len() == before.downloads.len(),
        0 <= k < before.downloads.len() ==> after.downloads[k].source == before.downloads[k].source
            && after.downloads[k].task.id == before.downloads[k].task.id,
        0 <= k < before.downloads.len() && before.downloads[k].task.id == row.task.id
            ==> after.downloads[k].task.state == "queued"@,
        0 <= k < before.downloads.len() && before.downloads[k].task.id != row.task.id
            ==> after.downloads[k] == before.downloads[k],
        after.feeds == before.feeds,
        after.items == before.items,
{
}

/// A new source is planned as a new download, the last of all, with its number, title, episode and
/// folder; it waits, nothing of it is done, and it is handed over paused exactly where no slot is
/// free. A number that is taken is refused, and nothing changes.
pub proof fn law_new_sources_are_planned(
    before: DatabaseView,
    after: DatabaseView,
    source: Seq<char>,
    prepared: Seq<char>,
    id: Seq<char>,
    title: Seq<char>,
    episode: Seq<char>,
    folder: Seq<char>,
    full: bool,
    now: Seq<char>,
    r: Result<StartPlan, String>,
)
    requires
        download_planned(
            before,
            after,
            source,
            prepared,
            new_task(id, title, episode, folder),
            full,
            now,
            r,
        ),
        existing_download(before, source) is None,
    ensures
        r is Err <==> exists|k: int|
            0 <= k < before.downloads.len() && (#[trigger] before.downloads[k]).task.id == id,
        r is Err ==> after == before && (r->Err_0)@ == "UNIQUE constraint failed: downloads.id"@,
        r is Ok ==> {
            let plan = r->Ok_0;
            let row = after.downloads.last();
            &&& plan.is_new && !plan.restore_paused
            &&& plan.add_paused == full
            &&& after.downloads == before.downloads.push(row)
            &&& row.task == plan.task@
            &&& row.task.id == id && row.task.title == title && row.task.episode == episode
            &&& row.task.output_path == folder
            &&& row.task.state == "queued"@
            &&& row.task.progress.done == 0
            &&& row.task.down_speed == 0 && row.task.up_speed == 0
            &&& row.task.playback_path is None
            &&& row.source == prepared
            &&& row.source_key == source_key(source)
            &&& row.created_at == now
            &&& row.files is None
            &&& after.feeds == before.feeds
            &&& after.items == before.items
        },
{
    if r is Ok {
        assert(after.downloads.last() == crate::db::download_table::new_download(
            (r->Ok_0).task@,
            prepared,
            source_key(source),
            now,
        ));
    }
}

/// A planned download that the engine took is paused where it had been, waits where it was handed
/// over paused, and else runs. One that the engine did not take has failed, and the reason is told.
pub proof fn law_planned_downloads_run_wait_or_fail(
    before: DatabaseView,
    after: DatabaseView,
    plan: StartPlan,
    outcome: AddOutcome,
    r: Result<DownloadTask, String>,
    k: int,
)
    requires
        download_finished(before, after, plan, outcome, r),
    ensures
        ({
            let own = 0 <= k < before.downloads.len() && before.downloads[k].task.id
                == plan.task@.id;
            let state = after.downloads[k].task.state;
            &&& r is Ok <==> outcome is Added
            &&& outcome is NoHandle ==> (r->Err_0)@ == "下载引擎未能创建任务，请重试"@
            &&& outcome matches AddOutcome::Failed(reason) ==> r->Err_0 == reason
            &&& r is Ok ==> (r->Ok_0)@.id == plan.task@.id && (r->Ok_0)@.title == plan.task@.title
            &&& after.downloads.len() == before.downloads.len()
            &&& r is Ok && own ==> (r->Ok_0)@.state == state
            &&& r is Ok && own && plan.restore_paused ==> state == "paused"@
            &&& r is Ok && own && !plan.restore_paused && plan.add_paused ==> state == "queued"@
            &&& r is Ok && own && !plan.restore_paused && !plan.add_paused ==> state
                == "downloading"@
            &&& r is Err && own ==> state == "failed"@
            &&& own ==> after.downloads[k].source == before.downloads[k].source
                && after.downloads[k].task.progress == before.downloads[k].task.progress
            &&& 0 <= k < before.downloads.len() && !own ==> after.downloads[k]
                == before.downloads[k]
        }),
{
}

/// A download whose files are to go is deleted only where they are known, the ones noted now
/// before the ones noted earlier: where none were ever noted they are looked up first, and where
/// an empty list was noted the download is kept. One whose files stay is released at once.
pub proof fn law_deletions_know_the_files(
    before: DatabaseView,
    after: DatabaseView,
    id: Seq<char>,
    delete_files: bool,
    current: Option<Seq<(Seq<char>, u64)>>,
    r: Result<DeleteStep, String>,
    k: int,
)
    requires
        deletion_begins(before, after, id, delete_files, current, r),
        0 <= k < before.downloads.len(),
        before.downloads[k].task.id == id,
        forall|j: int| 0 <= j < k ==> (#[trigger] before.downloads[j]).task.id != id,
    ensures
        ({
            let files = if current is Some {
                current
            } else {
                before.downloads[k].files
            };
            &&& !delete_files ==> r is Ok && r->Ok_0 is Release && after == before
            &&& delete_files ==> after.downloads[k].files == files
            &&& delete_files && files is None ==> r is Ok && r->Ok_0 is Restore
            &&& delete_files && files is Some && files->0.len() == 0 ==> r is Err && (r->Err_0)@
                == "任务缺少完整文件清单，已保留任务以便重试。"@
            &&& delete_files && files is Some && files->0.len() > 0 ==> r is Ok
                && r->Ok_0 is Release
            &&& after.downloads.len() == before.downloads.len()
            &&& r matches Ok(DeleteStep::Release(d)) ==> d.source@ == before.downloads[k].source
                && d.output_path@ == before.downloads[k].task.output_path
            &&& r matches Ok(DeleteStep::Restore(d)) ==> d.source@ == before.downloads[k].source
                && d.output_path@ == before.downloads[k].task.output_path
        }),
{
    let p = crate::db::download_table::download_has_id(id);
    lemma_first_at(before.downloads, p, k);
    let noted = crate::downloads::files_noted(before, id, delete_files, current).downloads;
    assert forall|j: int| 0 <= j < k implies (#[trigger] noted[j]).task.id != id by {
        assert(before.downloads[j].task.id != id);
    }
    assert(noted[k].task.id == id);
    lemma_first_at(noted, p, k);
}

/// A download that is not there cannot be deleted, and nothing changes.
pub proof fn law_unknown_downloads_are_not_deleted(
    before: DatabaseView,
    after: DatabaseView,
    id: Seq<char>,
    delete_files: bool,
    current: Option<Seq<(Seq<char>, u64)>>,
    r: Result<DeleteStep, String>,
)
    requires
        deletion_begins(before, after, id, delete_files, current, r),
        forall|k: int|
            0 <= k < before.downloads.len() ==> (#[trigger] before.downloads[k]).task.id != id,
    ensures
        r is Err,
        (r->Err_0)@ == "任务不存在"@,
        after == before,
{
    lemma_first_none(before.downloads, crate::db::download_table::download_has_id(id));
}

/// Files that could not be removed are told one by one, each on a line of its own; where all are
/// gone there is nothing to tell.
pub proof fn law_files_that_stay_are_told(failures: Seq<Seq<char>>, r: Result<(), String>)
    requires
        removal_told(failures, r),
    ensures
        r is Ok <==> failures.len() == 0,
        r is Err ==> (r->Err_0)@ == "部分文件删除失败，任务和文件清单已保留以便重试：\n"@ + joined(
            failures,
            "\n"@,
        ),
{
}

/// The videos of a download can be played once it is finished, and not before.
pub proof fn law_finished_videos_are_played(
    finished: bool,
    files: Seq<(Seq<char>, u64)>,
    paths: Seq<Seq<char>>,
    r: Result<Vec<PlaybackFile>, String>,
)
    requires
        playback_told(finished, files, paths, r),
    ensures
        r is Ok <==> finished && videos_by_name(files, paths).len() > 0,
        r is Ok ==> views((r->Ok_0)@) == videos_by_name(files, paths),
        !finished ==> (r->Err_0)@ == "下载尚未完成"@,
        finished && r is Err ==> (r->Err_0)@ == "该任务中没有可播放的视频文件"@,
{
}

/// Where the files of a download cannot be listed, the noted file is played if it is a file, under
/// the name that its path ends in; else the error is told.
pub proof fn law_the_noted_file_is_played_instead(
    error: Seq<char>,
    noted: Option<(String, bool, u64)>,
    r: Result<Vec<PlaybackFile>, String>,
)
    requires
        fallback_told(error, noted, r),
    ensures
        r is Ok <==> noted is Some && (noted->0).1,
        r is Ok ==> {
            let list = views((r->Ok_0)@);
            let path = (noted->0).0@;
            &&& list.len() == 1
            &&& list[0].index == 0
            &&& list[0].path == path
            &&& list[0].size == (noted->0).2
            &&& file_name_of(path) matches Some(name) ==> list[0].name == name
            &&& file_name_of(path) is None ==> list[0].name == path
        },
        r is Err ==> (r->Err_0)@ == "读取合集文件列表失败（"@ + error
            + "），且未找到本地可播放文件"@,
{
}

/// Once feeds were refreshed the new items are counted; where some failed, the count and every
/// failure are told.
pub proof fn law_refreshes_count_and_tell(
    count: nat,
    errors: Seq<Seq<char>>,
    r: Result<usize, String>,
)
    requires
        refresh_told(count, errors, r),
    ensures
        r is Ok <==> errors.len() == 0,
        r is Ok ==> r->Ok_0 == count,
        r is Err ==> (r->Err_0)@ == "刷新完成，新增 "@ + decimal(count as int) + " 条；失败："@ + joined(
            errors,
            "；"@,
        ),
{
}

/// At most twenty keywords of either kind fit into a rule, at most a hundred items into a batch,
/// and from none to two thousand episodes can be watched.
pub proof fn law_limits_of_what_fits(rule: FeedRuleView, count: nat, watched: i64)
    ensures
        rule_fits(rule) <==> rule.includes.len() <= 20 && rule.excludes.len() <= 20,
        batch_fits(count) <==> count <= 100,
        watched_fits(watched) <==> 0 <= watched && watched <= 2000,
{
}

/// A collection of an unknown kind and a number of episodes that does not fit are refused, and so
/// is a change that is to be sent where no number is left; anything else is accepted.
pub proof fn law_collections_are_refused_with_reason(
    db: DatabaseView,
    id: i64,
    collection: Seq<char>,
    watched: i64,
    enqueue: bool,
)
    ensures
        ({
            let known = collection == "wish"@ || collection == "collect"@ || collection == "doing"@
                || collection == "on_hold"@ || collection == "dropped"@;
            &&& !known ==> collection_fault(db, id, collection, enqueue) == Some("收藏状态无效"@)
            &&& known && !enqueue ==> collection_fault(db, id, collection, enqueue) is None
            &&& known && enqueue && !db.sync_exhausted(id) ==> collection_fault(
                db,
                id,
                collection,
                enqueue,
            ) is None
            &&& known && enqueue && db.sync_exhausted(id) ==> collection_fault(
                db,
                id,
                collection,
                enqueue,
            ) == Some("database or disk is full"@)
            &&& !(0 <= watched <= 2000) ==> watch_fault(db, id, watched, enqueue) == Some(
                "观看集数无效"@,
            )
            &&& 0 <= watched <= 2000 && !enqueue ==> watch_fault(db, id, watched, enqueue) is None
            &&& 0 <= watched <= 2000 && enqueue && !db.sync_exhausted(id) ==> watch_fault(
                db,
                id,
                watched,
                enqueue,
            ) is None
            &&& 0 <= watched <= 2000 && enqueue && db.sync_exhausted(id) ==> watch_fault(
                db,
                id,
                watched,
                enqueue,
            ) == Some("database or disk is full"@)
        }),
{
}

/// What is downloaded by hand is the stored item with the guid, from the address that it has. Where
/// no such item is listed, or it has no address, this is told.
pub proof fn law_items_are_chosen_by_hand(
    db: DatabaseView,
    guid: Seq<char>,
    r: Result<(RssItem, String), String>,
)
    requires
        chosen_by_hand(db, guid, r),
    ensures
        ({
            let listed = db.items_listed(None, 5000);
            let there = exists|k: int| 0 <= k < listed.len() && (#[trigger] listed[k]).guid == guid;
            &&& r is Ok ==> there && (r->Ok_0).0@.guid == guid && listed.contains((r->Ok_0).0@)
            &&& r is Ok ==> download_source((r->Ok_0).0@) == Some((r->Ok_0).1@)
            &&& !there ==> r is Err && (r->Err_0)@ == "RSS 条目不存在"@
            &&& there && r is Err ==> (r->Err_0)@ == "该 RSS 条目没有可下载地址"@
            &&& there && (forall|k: int|
                0 <= k < listed.len() ==> download_source(#[trigger] listed[k]) is Some) ==> r is Ok
        }),
{
    let listed = db.items_listed(None, 5000);
    lemma_first_none(listed, |i: ItemView| i.guid == guid);
}

/// A chosen item is downloaded under its own title, from the address that it has, unless its
/// download runs or is complete: then it counts as reused. An item that is not there, or has no
/// address, leaves a line that tells it.
pub proof fn law_chosen_items_are_downloaded(
    db: DatabaseView,
    before: BatchRun,
    after: BatchRun,
    guid: Seq<char>,
    step: BatchStep,
    item: ItemView,
    k: int,
)
    requires
        item_handled(db, before, after, guid, step),
        0 <= k < db.items_listed(None, 5000).len(),
        item == db.items_listed(None, 5000)[k],
        item.guid == guid,
        forall|j: int| 0 <= j < k ==> (#[trigger] db.items_listed(None, 5000)[j]).guid != guid,
    ensures
        ({
            let settled = item.download is Some && item.download->0.state != "failed"@ && (
            item.download->0.active || item.download->0.state == "completed"@);
            let source = download_source(item);
            &&& step is Start <==> !settled && source is Some
            &&& step matches BatchStep::Start { source: from, title, existed } ==> {
                &&& after == before
                &&& Some(from@) == source
                &&& title@ == item.title
                &&& existed <==> existing_download(db, from@) is Some
            }
            &&& settled ==> after@.reused == before@.reused + 1 && after@.added == before@.added
                && after@.errors == before@.errors
            &&& !settled && source is None ==> after@.reused == before@.reused && after@.added
                == before@.added && after@.errors == before@.errors.push(
                item.title + "：没有可下载地址"@,
            )
        }),
{
    lemma_first_at(db.items_listed(None, 5000), |i: ItemView| i.guid == guid, k);
}

/// A chosen item that is not there leaves a line that tells it, and nothing is started.
pub proof fn law_missing_items_are_told(
    db: DatabaseView,
    before: BatchRun,
    after: BatchRun,
    guid: Seq<char>,
    step: BatchStep,
)
    requires
        item_handled(db, before, after, guid, step),
        forall|k: int|
            0 <= k < db.items_listed(None, 5000).len() ==> (#[trigger] db.items_listed(
                None,
                5000,
            )[k]).guid != guid,
    ensures
        step is Handled,
        after@.errors == before@.errors.push("RSS 条目不存在"@),
        after@.added == before@.added,
        after@.reused == before@.reused,
{
    lemma_first_none(db.items_listed(None, 5000), |i: ItemView| i.guid == guid);
}

/// A feed is refreshed where it is enabled, and passed over where it is not; one that is not there
/// is told.
pub proof fn law_only_enabled_feeds_are_refreshed(
    db: DatabaseView,
    id: Seq<char>,
    r: Result<Option<RssFeed>, String>,
    k: int,
)
    requires
        db.wf(),
        refresh_found(db, id, r),
    ensures
        (forall|j: int| 0 <= j < db.feeds.len() ==> (#[trigger] db.feeds[j]).id != id) ==> r is Err
            && (r->Err_0)@ == "订阅源不存在"@,
        0 <= k < db.feeds.len() && db.feeds[k].id == id ==> {
            &&& r is Ok
            &&& r->Ok_0 is Some <==> db.feeds[k].enabled
            &&& r->Ok_0 is Some ==> (r->Ok_0->0)@ == db.feeds[k]
        },
{
    law_feed_lookup(db.feeds, feed_has_id(id));
    if 0 <= k < db.feeds.len() && db.feeds[k].id == id {
        assert(feed_has_id(id)(db.feeds[k]));
        let found = first(crate::db::feed_table::feeds_by_title(db.feeds), feed_has_id(id))->0;
        let j = choose|j: int| 0 <= j < db.feeds.len() && db.feeds[j] == found;
        assert(db.feeds[j].id == db.feeds[k].id);
        assert(j == k);
    }
}

/// A feed can be added where no feed has its number and none its address; it is told which of the
/// two is taken.
pub proof fn law_feeds_have_numbers_and_addresses_of_their_own(db: DatabaseView, feed: FeedView)
    ensures
        ({
            let number = exists|k: int|
                0 <= k < db.feeds.len() && (#[trigger] db.feeds[k]).id == feed.id;
            let address = exists|k: int|
                0 <= k < db.feeds.len() && (#[trigger] db.feeds[k]).url == feed.url;
            &&& feed_is_new(db, feed) <==> !number && !address
            &&& number ==> feed_conflict(db, feed) == "UNIQUE constraint failed: rss_feeds.id"@
            &&& !number ==> feed_conflict(db, feed) == "UNIQUE constraint failed: rss_feeds.url"@
        }),
{
    let by_id = feed_has_id(feed.id);
    let by_url = feed_has_url(feed.url);
    if exists|k: int| 0 <= k < db.feeds.len() && (#[trigger] db.feeds[k]).id == feed.id {
        let k = choose|k: int| 0 <= k < db.feeds.len() && (#[trigger] db.feeds[k]).id == feed.id;
        assert(by_id(db.feeds[k]));
    }
    if exists|k: int| 0 <= k < db.feeds.len() && (#[trigger] db.feeds[k]).url == feed.url {
        let k = choose|k: int| 0 <= k < db.feeds.len() && (#[trigger] db.feeds[k]).url == feed.url;
        assert(by_url(db.feeds[k]));
    }
}

/// An added feed is the last of all, and every other stays; its items are stored behind those that
/// are there, and no download changes.
pub proof fn law_added_feeds_come_last(
    db: DatabaseView,
    feed: FeedView,
    items: Seq<ItemView>,
    times: Seq<Seq<char>>,
)
    ensures
        feed_stored(db, feed, items, times).feeds == db.feeds.push(feed),
        feed_stored(db, feed, items, times).items == items_after(db.items, feed.id, items, times),
        feed_stored(db, feed, items, times).downloads == db.downloads,
        feed_stored(db, feed, items, times).sync == db.sync,
{
}

/// A subject that a feed is subscribed for is subscribed already: that feed is given and nothing
/// changes.
pub proof fn law_subscribed_subjects_stay_subscribed(db: DatabaseView, subject_id: i64, k: int)
    requires
        0 <= k < db.feeds.len(),
        db.feeds[k].subject_id == Some(subject_id),
    ensures
        known_subscription(db, subject_id) is Some,
        (known_subscription(db, subject_id)->0).subject_id == Some(subject_id),
        db.feeds.contains(known_subscription(db, subject_id)->0),
        known_subscription_stored(db, subject_id) == db,
{
    law_feed_lookup(db.feeds, feed_has_subject(subject_id));
    assert(feed_has_subject(subject_id)(db.feeds[k]));
}

/// A feed with the address of a subject that has no feed becomes its subscription and is enabled;
/// the other feeds stay as they are. Where there is none, nothing is subscribed and nothing
/// changes.
pub proof fn law_feeds_with_the_address_are_adopted(db: DatabaseView, subject_id: i64, k: int, j: int)
    requires
        db.wf(),
        forall|i: int|
            0 <= i < db.feeds.len() ==> (#[trigger] db.feeds[i]).subject_id != Some(subject_id),
    ensures
        ({
            let url = "https://mikanani.me/RSS/Bangumi?bangumiId="@ + decimal(subject_id as int);
            let found = known_subscription(db, subject_id);
            let after = known_subscription_stored(db, subject_id);
            &&& (forall|i: int| 0 <= i < db.feeds.len() ==> (#[trigger] db.feeds[i]).url != url)
                ==> found is None && after == db
            &&& 0 <= k < db.feeds.len() && db.feeds[k].url == url ==> {
                &&& found is Some
                &&& found->0.id == db.feeds[k].id
                &&& found->0.url == url
                &&& found->0.title == db.feeds[k].title
                &&& found->0.rule == db.feeds[k].rule
                &&& found->0.subject_id == Some(subject_id)
                &&& found->0.enabled
                &&& after.feeds.len() == db.feeds.len()
                &&& after.feeds[k] == found->0
                &&& 0 <= j < db.feeds.len() && j != k ==> after.feeds[j] == db.feeds[j]
                &&& after.items == db.items
                &&& after.downloads == db.downloads
            }
        }),
{
    let url = crate::subscriptions::mikan_url(subject_id);
    let by_url = feed_has_url(url);
    law_feed_lookup(db.feeds, feed_has_subject(subject_id));
    law_feed_lookup(db.feeds, by_url);
    assert(url == "https://mikanani.me/RSS/Bangumi?bangumiId="@ + decimal(subject_id as int));
    if 0 <= k < db.feeds.len() && db.feeds[k].url == url {
        assert(by_url(db.feeds[k]));
        let found = first(crate::db::feed_table::feeds_by_title(db.feeds), by_url)->0;
        let i = choose|i: int| 0 <= i < db.feeds.len() && db.feeds[i] == found;
        assert(db.feeds[i].url == db.feeds[k].url);
        assert(i == k);
        if 0 <= j < db.feeds.len() && j != k {
            assert(db.feeds[j].id != db.feeds[k].id);
        }
    }
}

/// A reply to a change that was sent takes the change from the queue; an error keeps it there, with
/// one attempt more, the error, and a later attempt. Other changes stay as they are, and so does
/// one that was replaced meanwhile.
pub proof fn law_replies_settle_their_change(
    db: DatabaseView,
    entry: SyncEntryView,
    reply: SyncReplyView,
    row: SyncRowView,
    k: int,
)
    ensures
        ({
            let after = reply_noted(db, entry, reply).sync;
            let own = |r: SyncRowView| r.entry.id == entry.id && r.entry.version == entry.version;
            &&& reply.error is None ==> !(after.contains(row) && own(row))
            &&& reply.error is None && db.sync.contains(row) && !own(row) ==> after.contains(row)
            &&& reply.error is None && after.contains(row) ==> db.sync.contains(row)
            &&& reply.error matches Some(error) ==> {
                &&& after.len() == db.sync.len()
                &&& 0 <= k < after.len() && !own(db.sync[k]) ==> after[k] == db.sync[k]
                &&& 0 <= k < after.len() && own(db.sync[k]) ==> {
                    &&& after[k].entry.attempts == (entry.attempts + 1) as i64
                    &&& after[k].last_error == Some(error)
                    &&& after[k].entry.id == db.sync[k].entry.id
                    &&& after[k].entry.version == db.sync[k].entry.version
                    &&& after[k].entry.subject_id == db.sync[k].entry.subject_id
                    &&& after[k].entry.collection == db.sync[k].entry.collection
                    &&& after[k].entry.ep == db.sync[k].entry.ep
                    &&& after[k].updated_at == rfc3339_text(reply.at.secs, reply.at.nanos)
                    &&& after[k].next_attempt_at == rfc3339_text(
                        (reply.at.secs + 60 * if entry.attempts <= 0 {
                            2int
                        } else if entry.attempts == 1 {
                            4
                        } else if entry.attempts == 2 {
                            8
                        } else if entry.attempts == 3 {
                            16
                        } else if entry.attempts == 4 {
                            32
                        } else {
                            60
                        }) as i64,
                        reply.at.nanos,
                    )
                }
            }
            &&& reply_noted(db, entry, reply).collections == db.collections
        }),
{
    let current = crate::db::sync_table::sync_is_current(entry.id, entry.version);
    let keep = |r: SyncRowView| !current(r);
    let after = reply_noted(db, entry, reply).sync;
    if reply.error is None {
        assert(after =~= db.sync.filter(keep));
        if after.contains(row) {
            db.sync.lemma_filter_contains_rev(keep, row);
            assert(keep(row)) by {
                broadcast use vstd::seq_lib::group_seq_properties;

                let i = choose|i: int| 0 <= i < after.len() && after[i] == row;
                db.sync.lemma_filter_pred(keep, i);
            }
        }
        if db.sync.contains(row) && keep(row) {
            let i = choose|i: int| 0 <= i < db.sync.len() && db.sync[i] == row;
            db.sync.lemma_filter_contains(keep, i);
        }
    }
}

/// A subject downloads, has something downloaded or has something waiting exactly where one of its
/// feeds has an item of which this holds.
pub proof fn law_subjects_are_summed_up(db: DatabaseView, subject_id: i64, k: int, i: int)
    requires
        0 <= k < db.feeds.len(),
        0 <= i < db.items.len(),
        db.feeds[k].subject_id == Some(subject_id),
        db.items[i].feed_id == db.feeds[k].id,
    ensures
        ({
            let state = db.subject_state(subject_id, db.feeds.len() as int);
            &&& db.subject_has_feed(subject_id, db.feeds.len() as int)
            &&& db.item_downloading(db.items[i]) ==> state.downloading
            &&& db.item_completed(db.items[i]) ==> state.completed
            &&& db.item_pending(db.feeds[k], db.items[i]) ==> state.pending
        }),
{
    if db.item_downloading(db.items[i]) {
        assert(db.feed_downloading(db.feeds[k]));
    }
    if db.item_completed(db.items[i]) {
        assert(db.feed_completed(db.feeds[k]));
    }
    if db.item_pending(db.feeds[k], db.items[i]) {
        assert(db.feed_pending(db.feeds[k]));
    }
}

/// A subject none of whose feeds has an item that downloads, is complete or waits is nothing of the
/// sort itself.
pub proof fn law_items_of_other_subjects_do_not_count(db: DatabaseView, subject_id: i64)
    ensures
        ({
            let n = db.feeds.len() as int;
            let state = db.subject_state(subject_id, n);
            let own = |k: int, i: int|
                0 <= k < n && 0 <= i < db.items.len() && db.feeds[k].subject_id == Some(subject_id)
                    && db.items[i].feed_id == db.feeds[k].id;
            &&& state.downloading ==> exists|k: int, i: int| #[trigger]
                own(k, i) && db.item_downloading(db.items[i])
            &&& state.completed ==> exists|k: int, i: int| #[trigger]
                own(k, i) && db.item_completed(db.items[i])
            &&& state.pending ==> exists|k: int, i: int| #[trigger]
                own(k, i) && db.item_pending(db.feeds[k], db.items[i])
            &&& db.subject_has_feed(subject_id, n) ==> exists|k: int|
                0 <= k < n && (#[trigger] db.feeds[k]).subject_id == Some(subject_id)
        }),
{
    let n = db.feeds.len() as int;
    let state = db.subject_state(subject_id, n);
    let own = |k: int, i: int|
        0 <= k < n && 0 <= i < db.items.len() && db.feeds[k].subject_id == Some(subject_id)
            && db.items[i].feed_id == db.feeds[k].id;
    if state.downloading {
        let k = choose|k: int|
            0 <= k < n && (#[trigger] db.feeds[k]).subject_id == Some(subject_id)
                && db.feed_downloading(db.feeds[k]);
        let i = choose|i: int|
            0 <= i < db.items.len() && (#[trigger] db.items[i]).feed_id == db.feeds[k].id
                && db.item_downloading(db.items[i]);
        assert(own(k, i));
    }
    if state.completed {
        let k = choose|k: int|
            0 <= k < n && (#[trigger] db.feeds[k]).subject_id == Some(subject_id)
                && db.feed_completed(db.feeds[k]);
        let i = choose|i: int|
            0 <= i < db.items.len() && (#[trigger] db.items[i]).feed_id == db.feeds[k].id
                && db.item_completed(db.items[i]);
        assert(own(k, i));
    }
    if state.pending {
        let k = choose|k: int|
            0 <= k < n && (#[trigger] db.feeds[k]).subject_id == Some(subject_id)
                && db.feed_pending(db.feeds[k]);
        let i = choose|i: int|
            0 <= i < db.items.len() && (#[trigger] db.items[i]).feed_id == db.feeds[k].id
                && db.item_pending(db.feeds[k], db.items[i]);
        assert(own(k, i));
    }
}

/// A check of a download changes only that download: its files are noted where they are known, and
/// its state, progress, speeds and file to play where something became of it.
pub proof fn law_checks_are_stored(
    db: DatabaseView,
    task: TaskView,
    files: Option<Seq<(Seq<char>, u64)>>,
    updated: TaskView,
    k: int,
)
    requires
        0 <= k < db.downloads.len(),
    ensures
        ({
            let before = db.downloads[k];
            let after = after_checking(db, task, files, updated).downloads[k];
            &&& after_checking(db, task, files, updated).downloads.len() == db.downloads.len()
            &&& before.task.id != task.id ==> after == before
            &&& before.task.id == task.id ==> {
                &&& files is Some ==> after.files == files
                &&& files is None ==> after.files == before.files
                &&& updated == task ==> after.task == before.task
                &&& updated != task ==> after.task.state == updated.state && after.task.progress
                    == updated.progress && after.task.down_speed == updated.down_speed
                    && after.task.up_speed == updated.up_speed && after.task.playback_path
                    == updated.playback_path
                &&& after.task.title == before.task.title
                &&& after.source == before.source
            }
            &&& after_checking(db, task, files, updated).items == db.items
        }),
{
}

/// A download that was to start and did not waits again; one that did stays as it is.
pub proof fn law_failed_starts_wait_again(db: DatabaseView, id: Seq<char>, k: int)
    requires
        0 <= k < db.downloads.len(),
    ensures
        after_start(db, id, true) == db,
        db.downloads[k].task.id == id ==> after_start(db, id, false).downloads[k].task.state
            == "queued"@,
        db.downloads[k].task.id != id ==> after_start(db, id, false).downloads[k]
            == db.downloads[k],
{
}

/// What is noted of the files of a download can be played where it holds videos.
pub proof fn law_noted_videos_are_played(
    files: Vec<StoredFileInfo>,
    paths: Seq<Seq<char>>,
    r: Option<Vec<PlaybackFile>>,
)
    ensures
        stored_playback_told(None, paths, r) ==> r is None,
        stored_playback_told(Some(files), paths, r) ==> (r is Some <==> videos_by_name(
            stored_files(files@),
            paths,
        ).len() > 0),
        stored_playback_told(Some(files), paths, r) && r is Some ==> views((r->0)@)
            == videos_by_name(stored_files(files@), paths),
{
}

/// A chosen item whose download is there is linked to it and counts once: as reused where the
/// download existed, else as added. Of one that failed the title and the error are told, and
/// nothing is linked.
pub proof fn law_chosen_items_are_linked(
    before: DatabaseView,
    after: DatabaseView,
    run: BatchView,
    next: BatchView,
    guid: Seq<char>,
    title: Seq<char>,
    existed: bool,
    outcome: Result<String, String>,
    k: int,
)
    requires
        outcome_noted(before, after, run, next, guid, title, existed, outcome),
    ensures
        outcome is Ok && existed ==> next.reused == run.reused + 1 && next.added == run.added,
        outcome is Ok && !existed ==> next.added == run.added + 1 && next.reused == run.reused,
        outcome is Ok ==> next.errors == run.errors,
        outcome matches Err(error) ==> next.errors == run.errors.push(title + "："@ + error@)
            && next.added == run.added && next.reused == run.reused && after == before,
        after.items.len() == before.items.len(),
        outcome is Ok && 0 <= k < before.items.len() && before.items[k].guid == guid
            ==> after.items[k].downloaded && after.items[k].download_id == Some((outcome->Ok_0)@)
            && after.items[k].title == before.items[k].title,
        0 <= k < before.items.len() && before.items[k].guid != guid ==> after.items[k]
            == before.items[k],
        after.downloads == before.downloads,
{
}

/// A feed with a number and an address of its own is stored as it was given and is given back; any
/// other changes nothing.
pub proof fn law_new_feeds_are_stored(
    before: DatabaseView,
    after: DatabaseView,
    feed: FeedView,
    items: Seq<ItemView>,
    times: Seq<Seq<char>>,
    r: Result<RssFeed, String>,
)
    requires
        feed_answered(before, after, feed, items, times, r),
    ensures
        r is Ok <==> forall|k: int|
            0 <= k < before.feeds.len() ==> (#[trigger] before.feeds[k]).id != feed.id
                && before.feeds[k].url != feed.url,
        r is Ok ==> (r->Ok_0)@ == feed,
        r is Ok ==> after.feeds == before.feeds.push(feed),
        r is Ok ==> after.items == items_after(before.items, feed.id, items, times),
        r is Err ==> after == before,
{
    law_feeds_have_numbers_and_addresses_of_their_own(before, feed);
}

/// The items that are shown are those that are listed, in their order, each with its own guid and
/// title.
pub proof fn law_listed_items_are_shown(
    db: DatabaseView,
    feed_id: Option<Seq<char>>,
    limit: Option<u32>,
    handles: Seq<Seq<char>>,
    k: int,
)
    ensures
        ({
            let listed = db.items_listed(feed_id, items_limit(limit));
            let shown = items_shown(db, feed_id, limit, handles);
            &&& shown.len() == listed.len()
            &&& 0 <= k < listed.len() ==> {
                &&& shown[k] == item_annotated(db, listed[k], handles)
                &&& shown[k].guid == listed[k].guid
                &&& shown[k].title == listed[k].title
            }
        }),
{
}

/// A pass goes on with the first change that was not tried yet, as it was queued, and ends when all
/// were tried, with the number of changes that wait. Without access nothing is tried.
pub proof fn law_passes_go_through_what_is_due(
    db: DatabaseView,
    pass: SyncPass,
    step: SyncStep,
    now: Seq<char>,
)
    requires
        goes_on(db, pass, step),
    ensures
        step is Send ==> pass.tried < pass.due@.len(),
        step is Done ==> pass.tried == pass.due@.len(),
        step matches SyncStep::Send { subject_id, collection, ep } ==> {
            let entry = pass.due@[pass.tried as int];
            subject_id == entry.subject_id && collection@ == entry.collection@ && ep == entry.ep
        },
        step matches SyncStep::Done { pending } ==> pending == db.sync.len(),
        due_with(db, false, now).len() == 0,
        due_with(db, true, now) == all_due(db, now),
{
}

/// What fails is told with the title of what it concerns before it.
pub proof fn law_failures_are_told_with_titles(title: Seq<char>, error: Seq<char>)
    ensures
        failure_line(title, error) == title + "："@ + error,
        unlinked_line(title, error) == title + "：任务已添加，但关联 RSS 失败："@ + error,
{
}

/// The engine adds a download to its folder, paused exactly where it is to be, with the trackers
/// that it is given, and takes over the files that are there.
pub proof fn law_the_engine_adds_as_it_is_told(
    plan: AddPlan,
    paused: bool,
    folder: Seq<char>,
    trackers: Option<Vec<String>>,
)
    requires
        added_with(plan, paused, folder, trackers),
    ensures
        plan.paused == paused,
        plan.output_folder@ == folder,
        plan.trackers == trackers,
        plan.overwrite,
{
}

} // verus!
