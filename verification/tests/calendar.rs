use mizuki::bangumi::subject_from_v0;
use mizuki::calendar::{
    CALENDAR_REFRESHED_KEY, CALENDAR_TTL, calendar_cache_fresh, cover_jobs, decorate,
    detail_after_failure, fetched_calendar, fresh_detail, jst_weekday_today,
    merge_calendar_with_collections, merge_with_records, search_anime, search_keyword,
    stored_calendar, subject_from_cache,
};
use mizuki::clock::Moment;
use mizuki::db::Database;
use mizuki::json::{Json, Number, as_i64};
use mizuki::models::{Subject, SubjectRssState};
use std::collections::HashMap;

fn convert(value: &serde_json::Value) -> Json {
    match value {
        serde_json::Value::Null => Json::Null,
        serde_json::Value::Bool(b) => Json::Bool(*b),
        serde_json::Value::Number(n) => Json::Number(Number {
            integer: n.as_i64().map(i128::from).or(n.as_u64().map(i128::from)),
            bits: n.as_f64().map(f64::to_bits),
        }),
        serde_json::Value::String(s) => Json::Text(s.clone()),
        serde_json::Value::Array(list) => Json::List(list.iter().map(convert).collect()),
        serde_json::Value::Object(map) => {
            Json::Object(map.iter().map(|(k, v)| (k.clone(), convert(v))).collect())
        }
    }
}

fn json(text: &str) -> Json {
    convert(&serde_json::from_str(text).expect("valid JSON"))
}

fn moment(time: chrono::DateTime<chrono::Utc>) -> Moment {
    Moment { secs: time.timestamp(), nanos: time.timestamp_subsec_nanos() }
}

fn at(text: &str) -> Moment {
    moment(
        chrono::DateTime::parse_from_rfc3339(text)
            .unwrap()
            .with_timezone(&chrono::Utc),
    )
}

fn collection(id: i64, state: &str, watched: i64) -> (i64, (String, i64)) {
    (id, (state.to_string(), watched))
}

#[test]
fn calendar_cache_respects_ttl() {
    let now = chrono::Utc::now();
    let fresh = (now - chrono::Duration::hours(5)).to_rfc3339();
    let stale = (now
        - chrono::Duration::hours(i64::from(CALENDAR_TTL))
        - chrono::Duration::minutes(1))
    .to_rfc3339();
    assert!(calendar_cache_fresh(Some(&fresh), moment(now)));
    assert!(!calendar_cache_fresh(Some(&stale), moment(now)), "超过 TTL 必须重新请求");
    assert!(!calendar_cache_fresh(None, moment(now)), "从未刷新过不能走缓存");
    assert!(!calendar_cache_fresh(Some("not-a-date"), moment(now)));
}

#[test]
fn jst_weekday_follows_utc_plus_nine() {
    assert_eq!(jst_weekday_today(at("2026-08-29T12:00:00Z")), 5);
    assert_eq!(jst_weekday_today(at("2026-08-29T15:00:00Z")), 6);
}

#[test]
fn calendar_subjects_pick_up_local_collection_and_watched() {
    let mut subject = subject_from_v0(&json(r#"{"id": 1, "name": "A"}"#), None, 0);
    subject.air_weekday = 2;
    let collections = HashMap::from([collection(1, "doing", 5)]);
    let merged = merge_calendar_with_collections(vec![subject], &Vec::new(), &collections);
    assert_eq!(merged[0].collection.as_deref(), Some("doing"));
    assert_eq!(merged[0].watched, 5);
    assert_eq!(merged[0].air_weekday, 2, "合并不得破坏周表放送日");
}

#[test]
fn cached_collection_entries_are_appended_once() {
    let first = json(r#"{"id": 2, "name": "Old", "name_cn": "旧番", "eps": 24}"#);
    let second = json(r#"{"id": 2, "name": "Old", "name_cn": "旧番", "eps": 24}"#);
    let collections = HashMap::from([collection(2, "collect", 24)]);
    let merged =
        merge_calendar_with_collections(Vec::new(), &vec![&first, &second], &collections);
    assert_eq!(merged.len(), 1, "重复缓存条目只出现一次");
    assert_eq!(merged[0].name_cn, "旧番");
    assert_eq!(merged[0].watched, 24);
}

#[test]
fn cached_entries_without_local_collection_are_hidden() {
    let x = json(r#"{"id": 3, "name": "X"}"#);
    let y = json(r#"{"id": 4, "name": "Y"}"#);
    let collections = HashMap::from([collection(4, "wish", 0)]);
    let merged = merge_calendar_with_collections(Vec::new(), &vec![&x, &y], &collections);
    assert_eq!(merged.len(), 1);
    assert_eq!(merged[0].id, 4);
}

#[test]
fn cached_payload_falls_back_to_v0_parser() {
    let value = json(
        r#"{"id": 5, "name": "Raw", "name_cn": "原始", "rating": {"score": 7.1, "rank": 99}, "eps": 13}"#,
    );
    let collections = HashMap::from([collection(5, "doing", 1)]);
    let merged = merge_calendar_with_collections(Vec::new(), &vec![&value], &collections);
    assert_eq!(merged.len(), 1);
    let subject: &Subject = &merged[0];
    assert_eq!(subject.name_cn, "原始");
    assert!((f64::from_bits(subject.score.bits) - 7.1).abs() < f64::EPSILON);
    assert_eq!(subject.episodes, 13);
}

#[test]
fn stored_subjects_are_read_as_they_were() {
    let mut subject = subject_from_v0(
        &json(r#"{"id": 6, "name": "A", "name_cn": "B", "score": 8.5, "rank": 3}"#),
        Some("wish".into()),
        2,
    );
    subject.air_weekday = 4;
    let back = subject_from_cache(&subject.to_json());
    assert_eq!(format!("{back:?}"), format!("{subject:?}"));
}

#[test]
fn a_fresh_calendar_needs_no_request() {
    let mut db = Database::open_in_memory().unwrap();
    let now = at("2026-08-29T12:00:00Z");
    assert!(stored_calendar(&db, false, now).is_none());
    let subjects = vec![subject_from_v0(&json(r#"{"id": 1, "name": "A"}"#), None, 0)];
    let payload = fetched_calendar(&mut db, Ok(subjects), "2026-08-29T10:00:00+00:00").unwrap();
    assert!(!payload.stale && payload.warning.is_none());
    assert_eq!(
        db.get_setting(CALENDAR_REFRESHED_KEY).unwrap().as_deref(),
        Some("2026-08-29T10:00:00+00:00")
    );
    assert_eq!(stored_calendar(&db, false, now).unwrap().subjects.len(), 1);
    assert!(stored_calendar(&db, true, now).is_none());
    assert!(stored_calendar(&db, false, at("2026-08-29T16:00:00Z")).is_none());
}

#[test]
fn a_failed_request_falls_back_to_the_stored_calendar() {
    let mut db = Database::open_in_memory().unwrap();
    let missing = fetched_calendar(&mut db, Err("offline".into()), "2026-08-29T10:00:00+00:00");
    assert!(missing.is_err());
    let subjects = vec![subject_from_v0(&json(r#"{"id": 1, "name": "A"}"#), None, 0)];
    db.save_calendar(&subjects).unwrap();
    let payload =
        fetched_calendar(&mut db, Err("offline".into()), "2026-08-29T10:00:00+00:00").unwrap();
    assert!(payload.stale);
    assert!(payload.warning.unwrap().contains("offline"));
    assert_eq!(payload.subjects.len(), 1);
}

#[test]
fn the_calendar_is_merged_and_decorated() {
    let mut db = Database::open_in_memory().unwrap();
    db.set_collection_progress(1, "doing", 2).unwrap();
    let mut subjects = merge_with_records(
        &db,
        vec![
            subject_from_v0(
                &json(r#"{"id": 1, "name": "A", "eps": 12, "images": {"large": "https://a/x.jpg"}}"#),
                None,
                0,
            ),
            subject_from_v0(&json(r#"{"id": 2, "name": "B"}"#), None, 0),
        ],
    )
    .unwrap();
    assert_eq!(cover_jobs(&subjects), vec![(1, "https://a/x.jpg".to_owned())]);
    let rss = SubjectRssState { downloading: true, completed: false, pending: false };
    let overview = HashMap::from([(2, rss)]);
    subjects[0].air_weekday = 3;
    decorate(&mut subjects, &overview, 3, &vec![true, false]);
    assert_eq!(subjects[0].update_state, "published");
    assert_eq!(subjects[0].image.as_deref(), Some("http://cover.localhost/1.jpg"));
    assert_eq!(subjects[1].update_state, "downloading");
}

#[test]
fn searches_fall_back_to_what_is_stored() {
    let mut db = Database::open_in_memory().unwrap();
    db.cache_subject(1, json(r#"{"id": 1, "name": "Frieren", "name_cn": "葬送的芙莉莲"}"#)).unwrap();
    db.cache_subject(2, json(r#"{"id": 2, "name": "Other"}"#)).unwrap();
    assert_eq!(search_keyword("  frieren ").unwrap(), "frieren");
    assert!(search_keyword("   ").is_err());
    let found = search_anime(&db, "frieren", None, Err("offline".into())).unwrap();
    assert!(found.local_only && found.warning.is_some());
    assert_eq!(found.subjects.len(), 1);
    assert_eq!(found.subjects[0].id, 1);
    let remote = vec![subject_from_v0(&json(r#"{"id": 9}"#), None, 0)];
    let found = search_anime(&db, "frieren", Some(5), Ok(remote)).unwrap();
    assert!(!found.local_only);
    assert_eq!(found.subjects[0].id, 9);
}

#[test]
fn details_are_kept_for_a_day() {
    let mut db = Database::open_in_memory().unwrap();
    db.save_detail_at(7, json(r#"{"id": 7}"#), "2026-08-29T10:00:00+00:00").unwrap();
    assert!(fresh_detail(&db, 7, at("2026-08-30T09:00:00Z")).is_some());
    assert!(fresh_detail(&db, 7, at("2026-08-30T11:00:00Z")).is_none());
    assert!(fresh_detail(&db, 8, at("2026-08-29T10:00:00Z")).is_none());
    let kept = detail_after_failure(&db, 7, "offline".into()).unwrap();
    assert_eq!(as_i64(kept.get("id")), Some(7));
    assert_eq!(detail_after_failure(&db, 8, "offline".into()).err().unwrap(), "offline");
}

#[test]
fn merging_repeats_no_number_and_adds_no_weekday() {
    let listed = subject_from_v0(&json(r#"{"id": 1, "name": "A"}"#), None, 0);
    let documents = [
        json(r#"{"id": 1, "name": "A"}"#),
        json(r#"{"id": 2, "name": "B"}"#),
        json(r#"{"id": 2, "name": "B again"}"#),
    ];
    let collections = HashMap::from([collection(1, "doing", 1), collection(2, "wish", 0)]);
    let merged =
        merge_calendar_with_collections(vec![listed], &documents.iter().collect(), &collections);
    let seen: Vec<(i64, i64)> = merged.iter().map(|s| (s.id, s.air_weekday)).collect();
    assert_eq!(seen, vec![(1, -1), (2, -1)]);
    assert_eq!(merged[1].name, "B");
}

#[test]
fn local_searches_are_limited() {
    let mut db = Database::open_in_memory().unwrap();
    for id in 1..=40 {
        db.cache_subject(id, json(&format!(r#"{{"id": {id}, "name": "Show {id}"}}"#))).unwrap();
    }
    let found = |limit| {
        search_anime(&db, "show", limit, Err("offline".into())).unwrap().subjects.len()
    };
    assert_eq!(found(None), 20);
    assert_eq!(found(Some(5)), 5);
    assert_eq!(found(Some(100)), 30);
}

#[test]
fn what_is_added_to_the_calendar_stands_on_no_weekday() {
    let stored = json(
        r#"{"id":2,"name":"A","nameCn":"","summary":"","score":0.0,"airWeekday":3,"episodes":0,"watched":0,"updateState":"none"}"#,
    );
    assert_eq!(subject_from_cache(&stored).air_weekday, 3);
    let collections = HashMap::from([collection(2, "doing", 1)]);
    let merged = merge_calendar_with_collections(Vec::new(), &vec![&stored], &collections);
    assert_eq!(merged.len(), 1);
    assert_eq!((merged[0].id, merged[0].watched, merged[0].air_weekday), (2, 1, -1));
}
