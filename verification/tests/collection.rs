use mizuki::bangumi::subject_from_v0;
use mizuki::calendar::merge_with_records;
use mizuki::clock::Moment;
use mizuki::collection::{
    import_collections, note_sync_result, set_collection, set_watch_progress, sync_backoff_minutes,
    sync_status,
};
use mizuki::db::{Database, SyncEntry};
use mizuki::json::{Json, Number, as_i64};
use mizuki::sync_pass::{SyncReply, SyncStep, begin_sync_pass, process_sync_queue};

fn convert(value: &serde_json::Value) -> Json {
    match value {
        serde_json::Value::Null => Json::Null,
        serde_json::Value::Bool(b) => Json::Bool(*b),
        serde_json::Value::Number(n) => Json::Number(Number {
            integer: n.as_i64().map(i128::from).or(n.as_u64().map(i128::from)),
            bits: n.as_f64().map(f64::to_bits),
        }),
        serde_json::Value::String(s) => Json::Text(s.clone()),
        serde_json::Value::Array(list) => Json::List(list.iter().map(convert).collect()),
        serde_json::Value::Object(map) => {
            Json::Object(map.iter().map(|(k, v)| (k.clone(), convert(v))).collect())
        }
    }
}

fn json(text: &str) -> Json {
    convert(&serde_json::from_str(text).expect("valid JSON"))
}

fn entry_of_nobody() -> SyncEntry {
    SyncEntry { id: 99, subject_id: 99, collection: "wish".into(), ep: None, attempts: 0, version: 0 }
}

const NOW: &str = "2026-08-29T10:00:00+00:00";

#[test]
fn imports_spare_changes_that_wait() {
    let mut db = Database::open_in_memory().unwrap();
    db.set_collection_and_sync(501, "doing", true).unwrap();
    db.set_progress_and_sync(501, 3, true).unwrap();
    db.set_progress_and_sync(501, 4, true).unwrap();
    db.set_progress_and_sync(501, 5, true).unwrap();
    let imported = db.import_cloud_collections(&vec![(501, "wish".to_string(), 0)]).unwrap();
    assert_eq!(imported, 0, "存在本地待同步修改时，导入事务必须跳过该条目");
    let (coll, watched) = db.collection_state(501).unwrap().unwrap();
    assert_eq!(coll, "doing");
    assert_eq!(watched, 5);
    let entries = db.due_sync_entries(10).unwrap();
    let entry = entries.into_iter().find(|e| e.subject_id == 501).unwrap();
    assert_eq!(entry.collection, "doing");
    assert_eq!(entry.ep, Some(5));
}

#[test]
fn imports_spare_changes_that_are_retried() {
    let mut db = Database::open_in_memory().unwrap();
    db.set_progress_and_sync(502, 8, true).unwrap();
    let entry = db
        .due_sync_entries(10)
        .unwrap()
        .into_iter()
        .find(|e| e.subject_id == 502)
        .unwrap();
    let future = (chrono::Utc::now() + chrono::Duration::hours(2)).to_rfc3339();
    assert!(
        db.mark_current_sync_attempt_at(entry.id, entry.version, 2, &future, "network timeout", NOW)
            .unwrap()
    );
    let imported = db.import_cloud_collections(&vec![(502, "doing".to_string(), 0)]).unwrap();
    assert_eq!(imported, 0, "即便条目正处于重试退避期，也绝不被云端旧数据覆盖");
    let (_, watched) = db.collection_state(502).unwrap().unwrap();
    assert_eq!(watched, 8, "本地重试进度完整保留");
}

#[test]
fn a_change_made_during_an_import_is_sent_afterwards() {
    let mut db = Database::open_in_memory().unwrap();
    db.set_progress_and_sync(701, 3, true).unwrap();
    db.set_progress_and_sync(701, 5, true).unwrap();
    let fetched = vec![json(r#"{"subject_id":701,"type":1,"ep_status":0}"#)];
    let (seen, _) = import_collections(&mut db, fetched, NOW).unwrap();
    assert_eq!(seen, 1);
    let due = db.due_sync_entries(50).unwrap();
    assert_eq!(due[0].ep, Some(5));
    let now = Moment { secs: 1_788_000_000, nanos: 0 };
    assert!(note_sync_result(&mut db, &due[0], Ok(()), now).unwrap());
    assert_eq!(db.collection_state(701).unwrap().unwrap().1, 5);
    assert_eq!(db.pending_sync_count().unwrap(), 0);
}

#[test]
fn imports_take_over_what_the_cloud_says() {
    let mut db = Database::open_in_memory().unwrap();
    let fetched = vec![
        json(r#"{"subject_id":1,"type":3,"ep_status":4,"subject":{"id":1,"name":"A","images":{"large":"https://a/x.jpg"}}}"#),
        json(r#"{"subject_id":2,"type":9,"ep_status":4}"#),
        json(r#"{"type":3}"#),
        json(r#"{"subject_id":4,"type":2}"#),
    ];
    let (seen, covers) = import_collections(&mut db, fetched, NOW).unwrap();
    assert_eq!(seen, 4);
    assert_eq!(covers, vec![(1, "https://a/x.jpg".to_owned())]);
    assert_eq!(db.collection_state(1).unwrap(), Some(("doing".to_owned(), 4)));
    assert_eq!(db.collection_state(2).unwrap(), None);
    assert_eq!(db.collection_state(0).unwrap(), Some(("doing".to_owned(), 0)));
    assert_eq!(db.collection_state(4).unwrap(), Some(("collect".to_owned(), 0)));
    let cached = db.cached_subjects().unwrap();
    assert_eq!(cached.len(), 1);
    assert_eq!(as_i64(cached[0].get("id")), Some(1));
    assert_eq!(db.pending_sync_count().unwrap(), 0);
}

#[test]
fn collections_are_checked_and_queued() {
    let mut db = Database::open_in_memory().unwrap();
    assert!(set_collection(&mut db, 1, "watching", None, true, NOW).is_err());
    assert_eq!(db.pending_sync_count().unwrap(), 0);
    set_collection(&mut db, 1, "wish", None, true, NOW).unwrap();
    assert_eq!(db.pending_sync_count().unwrap(), 1);
    let progress = set_watch_progress(&mut db, 1, 3, false, NOW).unwrap();
    assert_eq!(progress.collection, "wish");
    assert_eq!(progress.watched, 3);
    let fresh = set_watch_progress(&mut db, 2, 1, false, NOW).unwrap();
    assert_eq!(fresh.collection, "doing");
}

#[test]
fn failed_changes_wait_longer_each_time() {
    let minutes: Vec<i64> = (0..9).map(sync_backoff_minutes).collect();
    assert!(minutes.windows(2).all(|w| w[0] <= w[1]));
    assert_eq!(sync_backoff_minutes(1), 2);
    assert_eq!(sync_backoff_minutes(3), 8);
    assert_eq!(sync_backoff_minutes(i64::MAX), 60);
    let mut db = Database::open_in_memory().unwrap();
    set_collection(&mut db, 1, "wish", None, true, NOW).unwrap();
    let entry = db.due_sync_entries(50).unwrap().remove(0);
    let now = Moment { secs: 1_788_000_000, nanos: 0 };
    assert!(note_sync_result(&mut db, &entry, Err("500".into()), now).unwrap());
    let status = sync_status(&db).unwrap();
    assert_eq!(status.pending, 1);
    assert_eq!(status.last_error.as_deref(), Some("500"));
    let row = &db.sync[0];
    assert_eq!(row.entry.attempts, 1);
    let next = chrono::DateTime::parse_from_rfc3339(&row.next_attempt_at).unwrap();
    assert_eq!(next.timestamp(), 1_788_000_000 + 60 * sync_backoff_minutes(1));
    let stamp = |secs: i64, nanos: u32| {
        chrono::DateTime::from_timestamp(secs, nanos).unwrap().to_rfc3339()
    };
    for (secs, nanos, due) in [
        (1_788_000_119, 999_999_999, 0),
        (1_788_000_119, 500_000_000, 0),
        (1_788_000_120, 0, 1),
        (1_788_000_120, 1, 1),
        (1_788_000_121, 0, 1),
    ] {
        assert_eq!(db.due_sync_entries_at(50, &stamp(secs, nanos)).unwrap().len(), due);
    }
    assert!(!note_sync_result(&mut db, &entry_of_nobody(), Ok(()), now).unwrap());
}

fn send_all(db: &mut Database, access: bool, now: &str, fails: &[i64]) -> (Vec<i64>, i64) {
    let at = Moment { secs: 1_788_000_000, nanos: 0 };
    let mut pass = begin_sync_pass(db, access, now).unwrap();
    let mut sent = Vec::new();
    let mut reply = None;
    loop {
        match process_sync_queue(db, &mut pass, reply).unwrap() {
            SyncStep::Send { subject_id, collection, ep } => {
                assert_eq!(collection, "doing");
                assert_eq!(ep, Some(subject_id));
                sent.push(subject_id);
                let failed = fails.contains(&subject_id);
                let result = if failed { Err("500".to_owned()) } else { Ok(()) };
                reply = Some(SyncReply { sent: result, at });
            }
            SyncStep::Done { pending } => return (sent, pending),
        }
    }
}

fn queue(due: i64, later: i64) -> Database {
    let mut db = Database::open_in_memory().unwrap();
    for id in 1..=due + later {
        let time = if id <= due { NOW } else { "2026-08-29T12:00:00+00:00" };
        db.enqueue_collection_sync_at(id, "doing", Some(id), time).unwrap();
    }
    db
}

const LATER: &str = "2026-08-29T11:00:00+00:00";

#[test]
fn a_pass_sends_every_due_change_once() {
    let mut db = queue(60, 3);
    let (sent, pending) = send_all(&mut db, true, LATER, &[]);
    assert_eq!(sent, (1..=60).collect::<Vec<_>>());
    assert_eq!(pending, 3);
    let left: Vec<i64> = db.sync.iter().map(|row| row.entry.subject_id).collect();
    assert_eq!(left, vec![61, 62, 63]);
    assert!(db.sync.iter().all(|row| row.entry.attempts == 0 && row.last_error.is_none()));
    assert_eq!(send_all(&mut db, true, LATER, &[]), (Vec::new(), 3));
}

#[test]
fn a_pass_without_access_sends_nothing() {
    let mut db = queue(2, 1);
    assert_eq!(send_all(&mut db, false, LATER, &[]), (Vec::new(), 3));
    assert_eq!(db.due_sync_entries_at(-1, LATER).unwrap().len(), 2);
}

#[test]
fn a_pass_keeps_what_could_not_be_sent() {
    let mut db = queue(3, 1);
    assert_eq!(send_all(&mut db, true, LATER, &[2]), (vec![1, 2, 3], 2));
    let left: Vec<(i64, i64, Option<&str>)> = db
        .sync
        .iter()
        .map(|row| (row.entry.subject_id, row.entry.attempts, row.last_error.as_deref()))
        .collect();
    assert_eq!(left, vec![(2, 1, Some("500")), (4, 0, None)]);
}

#[test]
fn a_change_made_during_a_pass_stays() {
    let mut db = queue(1, 0);
    let mut pass = begin_sync_pass(&db, true, LATER).unwrap();
    assert!(matches!(
        process_sync_queue(&mut db, &mut pass, None).unwrap(),
        SyncStep::Send { subject_id: 1, .. }
    ));
    db.enqueue_collection_sync_at(1, "collect", Some(9), LATER).unwrap();
    let reply = SyncReply { sent: Ok(()), at: Moment { secs: 1_788_000_000, nanos: 0 } };
    assert!(matches!(
        process_sync_queue(&mut db, &mut pass, Some(reply)).unwrap(),
        SyncStep::Done { pending: 1 }
    ));
    assert_eq!(db.sync[0].entry.ep, Some(9));
}

#[test]
fn collected_subjects_are_cached_where_the_calendar_finds_them() {
    let mut db = Database::open_in_memory().unwrap();
    let subject = subject_from_v0(&json(r#"{"id": 5, "name": "A", "score": 8}"#), None, 0);
    set_collection(&mut db, 5, "doing", Some(subject), false, NOW).unwrap();
    let cached = db.cached_subjects().unwrap();
    assert_eq!(as_i64(cached[0].get("id")), Some(5));
    assert_eq!(as_i64(cached[0].get("score")), None);
    let shown = merge_with_records(&db, Vec::new()).unwrap();
    assert_eq!((shown.len(), shown[0].id), (1, 5));
}
