use mizuki::bangumi::subject_from_v0;
use mizuki::db::{Database, SyncEntry, SyncRow};
use mizuki::db::schema::{MIGRATION_COUNT, apply_migrations, column_plan, migrated_version};
use mizuki::json::{Json, Number, as_i64};
use mizuki::models::{DownloadTask, FeedRule, Progress, RssFeed, RssItem, StoredFileInfo};

fn convert(value: &serde_json::Value) -> Json {
    match value {
        serde_json::Value::Null => Json::Null,
        serde_json::Value::Bool(b) => Json::Bool(*b),
        serde_json::Value::Number(n) => Json::Number(Number {
            integer: n.as_i64().map(i128::from).or(n.as_u64().map(i128::from)),
            bits: n.as_f64().map(f64::to_bits),
        }),
        serde_json::Value::String(s) => Json::Text(s.clone()),
        serde_json::Value::Array(list) => Json::List(list.iter().map(convert).collect()),
        serde_json::Value::Object(map) => {
            Json::Object(map.iter().map(|(k, v)| (k.clone(), convert(v))).collect())
        }
    }
}

fn json(text: &str) -> Json {
    convert(&serde_json::from_str(text).expect("valid JSON"))
}

fn db() -> Database {
    Database::open_in_memory().expect("in-memory database")
}

fn task(id: &str, state: &str) -> DownloadTask {
    DownloadTask {
        id: id.into(),
        title: "番剧 01".into(),
        episode: "01".into(),
        progress: Progress::none(),
        down_speed: 0,
        up_speed: 0,
        state: state.into(),
        output_path: String::new(),
        playback_path: None,
    }
}

fn subject_feed(id: &str, subject_id: Option<i64>) -> RssFeed {
    RssFeed {
        id: id.into(),
        title: "测试订阅".into(),
        url: format!(
            "https://mikanani.me/RSS/Bangumi?bangumiId={}",
            subject_id.unwrap_or_default()
        ),
        enabled: true,
        last_checked_at: None,
        rule: FeedRule::default(),
        subject_id,
    }
}

fn rss_item(guid: &str, title: &str) -> RssItem {
    RssItem {
        guid: guid.into(),
        feed_id: String::new(),
        title: title.into(),
        link: format!("https://example.com/{guid}"),
        torrent: None,
        published_at: None,
        downloaded: false,
        download: None,
        matches_rule: false,
    }
}

#[test]
fn collection_progress_upsert_keeps_latest_values() {
    let mut db = db();
    db.set_collection_progress(7, "doing", 3).unwrap();
    db.set_collection_progress(7, "on_hold", 5).unwrap();
    let collections = db.collections().unwrap();
    assert_eq!(
        collections.get(&7),
        Some(&("on_hold".to_string(), 5)),
        "同一条目的旧状态与进度必须被覆盖"
    );
}

#[test]
fn collection_without_progress_defaults_watched_to_zero() {
    let mut db = db();
    db.set_collection(9, "wish").unwrap();
    assert_eq!(db.collections().unwrap().get(&9), Some(&("wish".to_string(), 0)));
}

#[test]
fn cached_subject_roundtrip_preserves_payload() {
    let mut db = db();
    db.cache_subject(11, json(r#"{"id": 11, "name": "Old Anime", "eps": 24}"#)).unwrap();
    db.cache_subject(11, json(r#"{"id": 11, "name": "Old Anime", "eps": 25}"#)).unwrap();
    let cached = db.cached_subjects().unwrap();
    assert_eq!(cached.len(), 1);
    assert_eq!(as_i64(cached[0].get("eps")), Some(25));
}

#[test]
fn collections_merge_into_cached_subjects_like_get_calendar() {
    let mut db = db();
    db.cache_subject(
        21,
        json(r#"{"id": 21, "name": "Cached", "name_cn": "缓存番剧", "eps": 12}"#),
    )
    .unwrap();
    db.cache_subject(22, json(r#"{"id": 22, "name": "No Collection"}"#)).unwrap();
    db.set_collection_progress(21, "doing", 4).unwrap();
    let collections = db.collections().unwrap();
    let merged: Vec<_> = db
        .cached_subjects()
        .unwrap()
        .iter()
        .filter_map(|value| {
            let id = as_i64(value.get("id"))?;
            let (collection, watched) = collections.get(&id)?;
            Some(subject_from_v0(value, Some(collection.clone()), *watched))
        })
        .collect();
    assert_eq!(merged.len(), 1, "没有本地收藏的缓存条目不应出现在追番页");
    assert_eq!(merged[0].id, 21);
    assert_eq!(merged[0].collection.as_deref(), Some("doing"));
    assert_eq!(merged[0].watched, 4);
    assert_eq!(merged[0].episodes, 12);
}

#[test]
fn calendar_cache_roundtrip() {
    let mut db = db();
    assert!(db.cached_calendar().is_err(), "未缓存时应返回错误而非空数据");
    let subjects = vec![subject_from_v0(
        &json(r#"{"id": 31, "name": "Aired", "air_weekday": 3}"#),
        None,
        0,
    )];
    db.save_calendar(&subjects).unwrap();
    let cached = db.cached_calendar().unwrap();
    assert_eq!(cached.len(), 1);
    assert_eq!(cached[0].id, 31);
}

#[test]
fn detail_cache_roundtrip_and_overwrite() {
    let mut db = db();
    assert!(db.cached_detail(11).unwrap().is_none());
    db.save_detail(11, json(r#"{"id": 11, "eps": 12}"#)).unwrap();
    db.save_detail(11, json(r#"{"id": 11, "eps": 13}"#)).unwrap();
    let (payload, updated_at) = db.cached_detail(11).unwrap().expect("cached detail");
    assert_eq!(as_i64(payload.get("eps")), Some(13), "同条目重复刷新覆盖旧详情");
    assert!(chrono::DateTime::parse_from_rfc3339(updated_at).is_ok());
}

#[test]
fn settings_roundtrip_and_overwrite() {
    let mut db = db();
    assert_eq!(db.get_setting("missing").unwrap(), None);
    db.set_setting("rss_interval_minutes", "15").unwrap();
    db.set_setting("rss_interval_minutes", "30").unwrap();
    assert_eq!(
        db.get_setting("rss_interval_minutes").unwrap().as_deref(),
        Some("30")
    );
}

#[test]
fn migrations_leave_user_version_at_latest() {
    let db = db();
    assert_eq!(db.user_version, MIGRATION_COUNT);
}

#[test]
fn subject_feed_roundtrip_and_unsubscribe() {
    let mut db = db();
    db.add_feed(&subject_feed("f1", Some(7))).unwrap();
    db.add_feed(&subject_feed("f2", None)).unwrap();
    db.insert_rss_items("f1", &vec![rss_item("g1", "[X] 番剧 01 [1080p]")]).unwrap();
    assert_eq!(db.feed_for_subject(7).unwrap().map(|feed| feed.id), Some("f1".into()));
    assert!(db.feed_for_subject(8).unwrap().is_none());
    db.delete_feeds_for_subject(7).unwrap();
    assert!(db.feed_for_subject(7).unwrap().is_none());
    assert_eq!(db.list_feeds().unwrap().len(), 1, "普通订阅不受影响");
    assert!(db.list_rss_items(Some("f1"), 10).unwrap().is_empty(), "取消订阅要清掉资源列表");
}

#[test]
fn subscribe_adopts_existing_feed_with_same_url() {
    let mut db = db();
    let mut manual = subject_feed("f1", None);
    manual.url = "https://mikanani.me/RSS/Bangumi?bangumiId=9".into();
    db.add_feed(&manual).unwrap();
    db.set_feed_enabled("f1", false).unwrap();
    db.adopt_feed_as_subscription("f1", 9).unwrap();
    let adopted = db.feed_for_subject(9).unwrap().expect("adopted feed");
    assert_eq!(adopted.id, "f1");
    assert_eq!(adopted.subject_id, Some(9));
    assert!(adopted.enabled, "收编为订阅时要重新启用");
}

#[test]
fn subject_rss_overview_tracks_download_states() {
    let mut db = db();
    let mut feed = subject_feed("f1", Some(7));
    feed.rule.includes = vec!["简中".into()];
    db.add_feed(&feed).unwrap();
    db.insert_rss_items(
        "f1",
        &vec![
            rss_item("g1", "[喵萌] 番剧 01 [简中]"),
            rss_item("g2", "[某组] 番剧 01 [生肉]"),
            rss_item("g3", "[喵萌] 番剧 02 [简中]"),
        ],
    )
    .unwrap();
    db.add_download(&task("t1", "downloading"), "magnet:?xt=urn:btih:abc", "abc").unwrap();
    db.mark_rss_downloaded("g1", "t1").unwrap();
    let overview = db.subject_rss_overview().unwrap();
    let state = overview.get(&7).unwrap();
    assert!(state.downloading && state.pending && !state.completed);
    db.set_download_state("t1", "completed").unwrap();
    let overview = db.subject_rss_overview().unwrap();
    let state = overview.get(&7).unwrap();
    assert!(state.completed && state.pending && !state.downloading);
}

#[test]
fn sync_queue_keeps_latest_entry_per_subject_and_retries() {
    let mut db = db();
    db.enqueue_collection_sync(7, "doing", Some(3)).unwrap();
    db.enqueue_collection_sync(7, "collect", Some(12)).unwrap();
    db.enqueue_collection_sync(8, "wish", None).unwrap();
    assert_eq!(db.pending_sync_count().unwrap(), 2, "同一条目只保留最新改动");
    let due = db.due_sync_entries(10).unwrap();
    let entry = due.iter().find(|e| e.subject_id == 7).unwrap();
    assert_eq!(entry.collection, "collect");
    assert_eq!(entry.ep, Some(12));
    assert_eq!(entry.attempts, 0, "重新入队要重置退避计数");
    db.mark_sync_attempt(entry.id, 1, "2999-01-01T00:00:00+00:00", "Bangumi 同步失败：500")
        .unwrap();
    assert!(db.due_sync_entries(10).unwrap().iter().all(|e| e.subject_id != 7));
    let (pending, last_error, last_attempt_at) = db.sync_queue_summary().unwrap();
    assert_eq!(pending, 2);
    assert_eq!(last_error.as_deref(), Some("Bangumi 同步失败：500"));
    assert!(last_attempt_at.is_some());
    db.expire_all_sync_entries().unwrap();
    assert_eq!(db.due_sync_entries(10).unwrap().len(), 2);
    db.remove_sync_entry(entry.id).unwrap();
    assert_eq!(db.pending_sync_count().unwrap(), 1);
}

#[test]
fn feeds_and_downloads_are_unique() {
    let mut db = db();
    db.add_feed(&subject_feed("f1", Some(1))).unwrap();
    assert_eq!(
        db.add_feed(&subject_feed("f1", Some(2))).unwrap_err(),
        "UNIQUE constraint failed: rss_feeds.id"
    );
    assert_eq!(
        db.add_feed(&subject_feed("f2", Some(1))).unwrap_err(),
        "UNIQUE constraint failed: rss_feeds.url"
    );
    db.add_download(&task("t1", "queued"), "a", "a").unwrap();
    assert_eq!(
        db.add_download(&task("t1", "queued"), "b", "b").unwrap_err(),
        "UNIQUE constraint failed: downloads.id"
    );
    assert!(db.feed("nothing").is_err());
}

#[test]
fn items_are_stored_once_and_the_latest_seen_come_first() {
    let mut db = db();
    db.add_feed(&subject_feed("f1", Some(1))).unwrap();
    let times = vec!["2026-02-01".to_owned(), "2026-02-02".to_owned()];
    let added = db
        .insert_rss_items_at("f1", &vec![rss_item("g1", "A"), rss_item("g2", "B")], &times)
        .unwrap();
    assert_eq!(added.len(), 2);
    let again = db
        .insert_rss_items_at("f1", &vec![rss_item("g1", "other")], &vec!["2026-03-01".to_owned()])
        .unwrap();
    assert!(again.is_empty());
    let listed = db.list_rss_items(None, 10).unwrap();
    let order: Vec<&str> = listed.iter().map(|i| i.guid.as_str()).collect();
    assert_eq!(order, vec!["g2", "g1"]);
    assert_eq!(listed[1].title, "A");
    assert_eq!(db.list_rss_items(None, 1).unwrap().len(), 1);
}

#[test]
fn deleting_a_download_frees_its_resource() {
    let mut db = db();
    db.add_feed(&subject_feed("f1", Some(1))).unwrap();
    db.insert_rss_items("f1", &vec![rss_item("g1", "A")]).unwrap();
    db.add_download(&task("t1", "completed"), "src", "key").unwrap();
    db.mark_rss_downloaded("g1", "t1").unwrap();
    let item = db.rss_item("g1").unwrap();
    assert!(item.downloaded);
    assert_eq!(item.download.unwrap().task_id, "t1");
    db.reset_rss_download_for_task("t1").unwrap();
    db.delete_download("t1").unwrap();
    let item = db.rss_item("g1").unwrap();
    assert!(!item.downloaded && item.download.is_none());
}

#[test]
fn download_records_keep_their_files() {
    let mut db = db();
    db.add_download(&task("t1", "queued"), "src", "key").unwrap();
    assert_eq!(db.download_by_source_key("key").unwrap().unwrap().id, "t1");
    assert!(db.download_by_source_key("other").unwrap().is_none());
    let files = vec![StoredFileInfo { relative_path: "a.mkv".into(), len: 5 }];
    db.save_download_files("t1", &files).unwrap();
    db.set_playback_path("t1", "D:/a.mkv").unwrap();
    let details = db.download_files_and_paths("t1").unwrap().unwrap();
    assert_eq!(details.source, "src");
    assert_eq!(details.playback_path.as_deref(), Some("D:/a.mkv"));
    assert_eq!(details.files.unwrap()[0].len, 5);
    assert!(db.download_files_and_paths("t2").unwrap().is_none());
}

fn sync_row(id: i64, subject_id: i64) -> SyncRow {
    SyncRow {
        entry: SyncEntry {
            id,
            subject_id,
            collection: "doing".into(),
            ep: None,
            attempts: 0,
            version: 1,
        },
        next_attempt_at: "2026-01-01".into(),
        last_error: None,
        updated_at: "2026-01-01".into(),
    }
}

#[test]
fn stored_changes_keep_their_numbers_and_new_ones_get_greater_ones() {
    let mut stored = db();
    stored.sync = vec![sync_row(-5, 1), sync_row(0, 2), sync_row(9, 3)];
    stored.last_sync_id = 4;
    let mut opened = Database::initialize(stored).unwrap();
    let ids: Vec<i64> = opened.sync.iter().map(|row| row.entry.id).collect();
    assert_eq!(ids, vec![-5, 0, 9]);
    opened.enqueue_collection_sync_at(4, "wish", None, "2026-01-02").unwrap();
    assert_eq!(opened.sync.last().unwrap().entry.id, 10);
    assert_eq!(opened.last_sync_id, 10);

    let mut stored = db();
    stored.sync = vec![sync_row(-5, 1)];
    stored.last_sync_id = 4;
    let mut opened = Database::initialize(stored).unwrap();
    opened.enqueue_collection_sync_at(4, "wish", None, "2026-01-02").unwrap();
    assert_eq!(opened.sync.last().unwrap().entry.id, 5);

    let mut stored = db();
    stored.sync = vec![sync_row(i64::MAX, 1)];
    let mut opened = Database::initialize(stored).unwrap();
    assert_eq!(
        opened.enqueue_collection_sync_at(4, "wish", None, "2026-01-02").err().unwrap(),
        "database or disk is full"
    );
    opened.enqueue_collection_sync_at(1, "wish", None, "2026-01-02").unwrap();
    assert_eq!(opened.sync.len(), 1);
    assert_eq!(opened.sync[0].entry.version, 2);
}

#[test]
fn queued_changes_take_turns_and_stale_reports_are_ignored() {
    let mut db = db();
    db.enqueue_collection_sync_at(1, "doing", None, "2026-01-01").unwrap();
    db.enqueue_collection_sync_at(2, "wish", None, "2026-01-02").unwrap();
    let due = db.due_sync_entries_at(10, "2026-01-03").unwrap();
    assert_eq!(due.len(), 2);
    assert_eq!(due[0].subject_id, 1);
    let stale = &due[0];
    db.enqueue_collection_sync_at(1, "collect", Some(12), "2026-01-04").unwrap();
    assert!(!db.remove_current_sync_entry(stale.id, stale.version).unwrap());
    assert_eq!(db.pending_sync_count().unwrap(), 2);
    let fresh = db.due_sync_entries_at(10, "2026-01-05").unwrap();
    let entry = fresh.iter().find(|e| e.subject_id == 1).unwrap();
    assert_eq!(entry.collection, "collect");
    assert!(
        db.mark_current_sync_attempt_at(entry.id, entry.version, 1, "2026-02-01", "x", "2026-01-06")
            .unwrap()
    );
    assert_eq!(db.due_sync_entries_at(10, "2026-01-07").unwrap().len(), 1);
    assert_eq!(db.due_sync_entries_at(0, "2026-01-07").unwrap().len(), 0);
}

#[test]
fn opening_migrates_once() {
    assert_eq!(MIGRATION_COUNT, 2);
    assert_eq!(migrated_version(0), 2);
    assert_eq!(migrated_version(2), 2);
    assert_eq!(apply_migrations(2).len(), 0);
    assert!(!apply_migrations(0).is_empty());
    let mut stored = db();
    stored.user_version = 0;
    stored.add_feed(&subject_feed("f1", Some(1))).unwrap();
    let opened = Database::initialize(stored).unwrap();
    assert_eq!(opened.user_version, 2);
    let again = Database::initialize(opened).unwrap();
    assert_eq!(again.list_feeds().unwrap().len(), 1);
}

#[test]
fn damaged_records_are_refused() {
    let mut stored = db();
    stored.feeds.push(subject_feed("f1", Some(1)));
    stored.feeds.push(subject_feed("f1", Some(2)));
    assert_eq!(
        Database::initialize(stored).err().unwrap(),
        "database disk image is malformed"
    );
}

#[test]
fn opening_relinks_resources_and_keys() {
    let mut stored = db();
    stored.user_version = 0;
    stored.add_feed(&subject_feed("f1", Some(1))).unwrap();
    stored.insert_rss_items("f1", &vec![rss_item("g1", "A")]).unwrap();
    stored.add_download(&task("t1", "completed"), "https://example.com/g1", "").unwrap();
    let opened = Database::initialize(stored).unwrap();
    let linked = opened.download_by_source_key("https://example.com/g1").unwrap().unwrap();
    assert_eq!(linked.id, "t1");
}

#[test]
fn missing_columns_are_added() {
    let feeds = |names: &[&str]| {
        names
            .iter()
            .map(|n| ("rss_feeds".to_owned(), (*n).to_owned()))
            .collect::<Vec<_>>()
    };
    let full = column_plan(&feeds(&[]));
    assert!(!full.is_empty());
    assert!(full.iter().all(|line| line.starts_with("ALTER TABLE ")));
}

#[test]
fn opening_relinks_downloaded_resources() {
    let mut stored = db();
    stored.user_version = 0;
    stored.add_feed(&subject_feed("f1", Some(1))).unwrap();
    let items = ["g1", "g2", "g3", "g4"].map(|guid| rss_item(guid, guid)).to_vec();
    stored.insert_rss_items("f1", &items).unwrap();
    stored.add_download(&task("t1", "completed"), "https://example.com/g1", "").unwrap();
    stored.add_download(&task("t2", "completed"), "https://example.com/g2", "").unwrap();
    for (at, download) in [(0, None), (1, Some("other")), (2, None)] {
        stored.items[at].downloaded = true;
        stored.items[at].download_id = download.map(str::to_owned);
    }
    let opened = Database::initialize(stored).unwrap();
    let found: Vec<(bool, Option<&str>)> =
        opened.items.iter().map(|i| (i.downloaded, i.download_id.as_deref())).collect();
    assert_eq!(
        found,
        vec![(true, Some("t1")), (true, Some("other")), (false, None), (false, None)]
    );
}
