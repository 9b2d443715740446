use mizuki::db::Database;
use mizuki::downloads::{
    AddOutcome, DeleteStep, EngineState, EngineStats, Observation, StartStep,
    active_download_count, check_download, delete_begin, delete_finish, finish_download, is_cooling,
    note_paused, observe_download, pausable_downloads, plan_download, promote_begin, promote_done,
    promote_next, require_handle, restore_begin, restore_done, restore_folder, resume_download,
    speed_sample, start_download,
};
use mizuki::models::{DownloadTask, Progress, StoredFileInfo};

const NOW: &str = "2026-08-29T10:00:00+00:00";

fn task(id: &str, state: &str) -> DownloadTask {
    DownloadTask {
        id: id.into(),
        title: id.into(),
        episode: "test".into(),
        progress: Progress::none(),
        down_speed: 0,
        up_speed: 0,
        state: state.into(),
        output_path: "D:/Anime".into(),
        playback_path: None,
    }
}

fn holding(tasks: &[(&str, &str)]) -> Database {
    let mut db = Database::open_in_memory().unwrap();
    for (n, (id, state)) in tasks.iter().enumerate() {
        let time = format!("2026-01-0{}", n + 1);
        db.add_download_at(&task(id, state), id, id, &time).unwrap();
    }
    db
}

fn names(list: &[&str]) -> Vec<String> {
    list.iter().map(|n| (*n).to_owned()).collect()
}

fn state_of(db: &Database, id: &str) -> String {
    db.list_downloads()
        .unwrap()
        .into_iter()
        .find(|t| t.id == id)
        .unwrap()
        .state
}

fn stats(state: EngineState, finished: bool) -> EngineStats {
    EngineStats { progress_bytes: 5, total_bytes: 10, finished, state, live: Some((7, 3)) }
}

fn seen(stats: EngineStats) -> Observation {
    Observation { stats, observed: 9, files: None, video: Some("D:/Anime/a.mkv".into()) }
}

#[test]
fn tasks_without_a_file_list_are_restored_before_their_files_go() {
    let mut db = holding(&[("legacy_task_1", "completed")]);
    let step = delete_begin(&mut db, "legacy_task_1", true, None).unwrap();
    match step {
        DeleteStep::Restore(details) => assert_eq!(details.source, "legacy_task_1"),
        DeleteStep::Release(_) => panic!("the file list is not known"),
    }
    assert!(db.download_by_id("legacy_task_1").unwrap().is_some());
    let empty = delete_begin(&mut db, "legacy_task_1", true, Some(Vec::new()));
    assert_eq!(empty.err().unwrap(), "任务缺少完整文件清单，已保留任务以便重试。");
    assert!(db.download_by_id("legacy_task_1").unwrap().is_some());
}

#[test]
fn deleting_one_task_keeps_the_others() {
    let mut db = holding(&[("task_1", "completed"), ("task_2", "completed")]);
    let files = vec![
        StoredFileInfo { relative_path: "task1_dir/ep01.mp4".into(), len: 4 },
        StoredFileInfo { relative_path: "task1_dir/ep02.mp4".into(), len: 4 },
    ];
    db.save_download_files("task_1", &files).unwrap();
    match delete_begin(&mut db, "task_1", true, None).unwrap() {
        DeleteStep::Release(details) => {
            let list = details.files.unwrap();
            assert_eq!(list.len(), 2);
            assert_eq!(list[1].relative_path, "task1_dir/ep02.mp4");
            assert_eq!(details.output_path, "D:/Anime");
        }
        DeleteStep::Restore(_) => panic!("the file list is known"),
    }
    delete_finish(&mut db, "task_1");
    assert!(db.download_by_id("task_1").unwrap().is_none());
    assert!(db.download_by_id("task_2").unwrap().is_some());
}

#[test]
fn deleting_without_files_needs_no_list() {
    let mut db = holding(&[("task_keep", "completed")]);
    let step = delete_begin(&mut db, "task_keep", false, None).unwrap();
    assert!(matches!(step, DeleteStep::Release(_)));
    assert_eq!(delete_begin(&mut db, "none", false, None).err().unwrap(), "任务不存在");
}

#[test]
fn the_current_file_list_is_noted_before_deleting() {
    let mut db = holding(&[("locked", "paused")]);
    let files = vec![StoredFileInfo { relative_path: "locked.mp4".into(), len: 4 }];
    assert!(delete_begin(&mut db, "locked", true, Some(files)).is_ok());
    let details = db.download_files_and_paths("locked").unwrap().unwrap();
    assert_eq!(details.files.unwrap().len(), 1);
}

#[test]
fn cooling_and_paused_tasks_are_not_started() {
    let mut db = holding(&[("queued_1", "queued"), ("paused_1", "paused")]);
    let handles = names(&["queued_1", "paused_1"]);
    let failures = vec![("queued_1".to_owned(), 0u64)];
    assert!(is_cooling(&failures, "queued_1"));
    let mut run = promote_begin(&db, &handles, 3);
    assert_eq!(promote_next(&mut db, &mut run, &handles, &failures, 3), None);
    assert_eq!(state_of(&db, "queued_1"), "queued");
    assert_eq!(state_of(&db, "paused_1"), "paused");
    let cooled = vec![("queued_1".to_owned(), 11u64)];
    assert!(!is_cooling(&cooled, "queued_1"));
    let mut run = promote_begin(&db, &handles, 3);
    assert_eq!(
        promote_next(&mut db, &mut run, &handles, &cooled, 3).as_deref(),
        Some("queued_1")
    );
    promote_done(&mut db, &mut run, &handles, true, 3);
    assert_eq!(state_of(&db, "queued_1"), "downloading");
    assert_eq!(promote_next(&mut db, &mut run, &handles, &cooled, 3), None);
}

#[test]
fn resuming_and_starting_keep_to_the_limit() {
    let mut db = holding(&[("first", "paused"), ("second", "paused")]);
    let handles = names(&["first", "second"]);
    resume_download(&mut db, &handles, "first").unwrap();
    resume_download(&mut db, &handles, "second").unwrap();
    let mut started = Vec::new();
    let mut run = promote_begin(&db, &handles, 1);
    while let Some(id) = promote_next(&mut db, &mut run, &handles, &Vec::new(), 1) {
        started.push(id);
        promote_done(&mut db, &mut run, &handles, true, 1);
    }
    assert_eq!(started, vec!["second".to_owned()]);
    assert_eq!(active_download_count(&db, &handles), 1);
    note_paused(&mut db, "first", Ok(())).unwrap();
    assert_eq!(state_of(&db, "first"), "paused");
    assert_eq!(pausable_downloads(&db, &handles), vec!["second".to_owned()]);
}

#[test]
fn a_failed_start_waits_again() {
    let mut db = holding(&[("a", "queued"), ("b", "queued")]);
    let handles = names(&["a", "b"]);
    let mut run = promote_begin(&db, &handles, 1);
    let first = promote_next(&mut db, &mut run, &handles, &Vec::new(), 1).unwrap();
    promote_done(&mut db, &mut run, &handles, false, 1);
    assert_eq!(state_of(&db, &first), "queued");
    let second = promote_next(&mut db, &mut run, &handles, &Vec::new(), 1).unwrap();
    assert_ne!(first, second);
    promote_done(&mut db, &mut run, &handles, true, 1);
    assert_eq!(active_download_count(&db, &handles), 1);
}

#[test]
fn a_whole_run_keeps_to_the_limit_and_tries_each_task_once() {
    let waiting = [
        ("a", "queued"),
        ("b", "queued"),
        ("c", "queued"),
        ("d", "queued"),
        ("e", "downloading"),
        ("f", "paused"),
    ];
    let mut db = holding(&waiting);
    let handles = names(&["a", "b", "c", "d", "e", "f"]);
    let mut tried = Vec::new();
    let mut run = promote_begin(&db, &handles, 2);
    while let Some(id) = promote_next(&mut db, &mut run, &handles, &Vec::new(), 2) {
        assert!(active_download_count(&db, &handles) <= 2);
        let started = id == "b";
        tried.push(id);
        promote_done(&mut db, &mut run, &handles, started, 2);
        assert!(active_download_count(&db, &handles) <= 2);
    }
    assert_eq!(tried, names(&["d", "c", "b"]));
    assert_eq!(active_download_count(&db, &handles), 2);
    assert_eq!(state_of(&db, "a"), "queued");
    assert_eq!(state_of(&db, "b"), "downloading");
    assert_eq!(state_of(&db, "c"), "queued");
    assert_eq!(state_of(&db, "f"), "paused");

    let mut full = holding(&[("a", "queued"), ("b", "downloading"), ("c", "downloading")]);
    let handles = names(&["a", "b", "c"]);
    let mut run = promote_begin(&full, &handles, 1);
    assert_eq!(promote_next(&mut full, &mut run, &handles, &Vec::new(), 1), None);
    assert_eq!(active_download_count(&full, &handles), 2);

    let mut free = holding(&[("a", "queued"), ("b", "queued")]);
    let mut run = promote_begin(&free, &handles, 0);
    let mut tried = Vec::new();
    while let Some(id) = promote_next(&mut free, &mut run, &handles, &Vec::new(), 0) {
        tried.push(id);
        promote_done(&mut free, &mut run, &handles, false, 0);
    }
    assert_eq!(tried, names(&["b", "a"]));
    assert_eq!(active_download_count(&free, &handles), 0);
}

#[test]
fn tasks_are_started_reused_and_restored() {
    let mut db = holding(&[]);
    let magnet = "magnet:?xt=urn:btih:AB&dn=x";
    assert_eq!(
        start_download(&db, "ftp://a", &Vec::new()).err().unwrap(),
        "仅支持 magnet、HTTP 或 HTTPS 种子地址"
    );
    assert!(matches!(start_download(&db, magnet, &Vec::new()), Ok(StartStep::Prepare)));
    let plan = plan_download(
        &mut db, magnet, "magnet:?xt=urn:btih:AB&dn=x&tr=u", "T".into(), "01".into(), "t1".into(),
        "D:/Anime", &Vec::new(), 1, NOW,
    )
    .unwrap();
    assert!(plan.is_new && !plan.add_paused && !plan.restore_paused);
    let made = finish_download(&mut db, plan, AddOutcome::Added).unwrap();
    assert_eq!(made.state, "downloading");
    assert_eq!(made.output_path, "D:/Anime");
    let handles = names(&["t1"]);
    match start_download(&db, "magnet:?xt=urn:btih:ab", &handles).unwrap() {
        StartStep::Reuse(task) => assert_eq!(task.id, "t1"),
        StartStep::Prepare => panic!("the task is running"),
    }
    let waiting = plan_download(
        &mut db, "https://a/b.torrent", "https://a/b.torrent", "U".into(), "".into(), "t2".into(),
        "D:/Anime", &handles, 1, NOW,
    )
    .unwrap();
    assert!(waiting.add_paused);
    assert_eq!(finish_download(&mut db, waiting, AddOutcome::Added).unwrap().state, "queued");
    let again = plan_download(
        &mut db, "https://a/b.torrent", "https://a/b.torrent", "U".into(), "".into(), "t3".into(),
        "D:/Anime", &Vec::new(), 0, NOW,
    )
    .unwrap();
    assert!(!again.is_new);
    assert_eq!(again.task.id, "t2");
    let failed = finish_download(&mut db, again, AddOutcome::Failed("no".into()));
    assert_eq!(failed.err().unwrap(), "no");
    assert_eq!(state_of(&db, "t2"), "failed");
}

#[test]
fn a_task_that_the_engine_lost_fails() {
    let mut db = holding(&[("p", "paused")]);
    let plan = plan_download(
        &mut db, "p", "p", "".into(), "".into(), "x".into(), "D:/", &Vec::new(), 0, NOW,
    )
    .unwrap();
    assert!(plan.restore_paused && plan.add_paused);
    let lost = finish_download(&mut db, plan, AddOutcome::NoHandle);
    assert_eq!(lost.err().unwrap(), "下载引擎未能创建任务，请重试");
    let plan = plan_download(
        &mut db, "q", "q", "".into(), "".into(), "p".into(), "D:/", &Vec::new(), 0, NOW,
    );
    assert_eq!(plan.err().unwrap(), "UNIQUE constraint failed: downloads.id");
}

#[test]
fn progress_is_read_from_the_engine() {
    let mut db = holding(&[("a", "downloading")]);
    let (live, told) =
        observe_download(&mut db, task("a", "downloading"), Some(seen(stats(EngineState::Live, false))));
    assert!(!told);
    assert_eq!(live.state, "downloading");
    assert_eq!((live.progress.done, live.progress.total), (5, 10));
    assert_eq!((live.down_speed, live.up_speed), (9, 3));
    let (done, told) =
        observe_download(&mut db, live, Some(seen(stats(EngineState::Live, true))));
    assert!(told);
    assert_eq!(done.state, "completed");
    assert_eq!(done.playback_path.as_deref(), Some("D:/Anime/a.mkv"));
    assert_eq!((done.down_speed, done.up_speed), (0, 0));
    let (still, told) = observe_download(&mut db, done, Some(seen(stats(EngineState::Live, true))));
    assert!(!told);
    assert_eq!(still.state, "completed");
    let (alone, told) = observe_download(&mut db, still, None);
    assert!(!told);
    assert_eq!(alone.state, "completed");
}

#[test]
fn waiting_tasks_are_not_shown_as_paused() {
    let mut db = holding(&[("a", "queued")]);
    let paused = Some(seen(stats(EngineState::Paused, false)));
    let (waiting, _) = observe_download(&mut db, task("a", "queued"), paused);
    assert_eq!(waiting.state, "queued");
    let failed = Some(seen(stats(EngineState::Error, false)));
    let (broken, _) = observe_download(&mut db, waiting, failed);
    assert_eq!(broken.state, "failed");
}

#[test]
fn completion_is_told_once() {
    let mut db = holding(&[("a", "downloading")]);
    let finished = seen(stats(EngineState::Live, true));
    let told = check_download(&mut db, task("a", "downloading"), &finished);
    assert_eq!(told.as_deref(), Some("a"));
    let stored = db.list_downloads().unwrap().remove(0);
    assert_eq!(stored.state, "completed");
    assert_eq!(stored.progress, Progress::full());
    assert_eq!(check_download(&mut db, stored, &finished), None);
}

#[test]
fn speed_is_sampled_between_two_readings() {
    assert_eq!(speed_sample(None, 100), None);
    let second = 1_000_000_000;
    assert_eq!(speed_sample(Some((40, second)), 100), Some((60, second)));
    assert_eq!(speed_sample(Some((40, second / 4)), 100), None);
    assert_eq!(speed_sample(Some((200, second)), 100), None);
}

#[test]
fn missing_handles_and_refusals_are_reported() {
    let mut db = holding(&[("a", "downloading")]);
    assert!(require_handle(&names(&["a"]), "a").is_ok());
    assert!(require_handle(&names(&["a"]), "b").is_err());
    assert_eq!(note_paused(&mut db, "a", Err("busy".into())).err().unwrap(), "busy");
    assert_eq!(state_of(&db, "a"), "downloading");
    assert!(resume_download(&mut db, &Vec::new(), "a").is_err());
}

#[test]
fn restored_tasks_keep_their_place() {
    assert_eq!(restore_folder("D:/Old", true, "C:/Usual"), "D:/Old");
    assert_eq!(restore_folder("Old", false, "C:/Usual"), "C:/Usual");
    let mut db = holding(&[("a", "downloading")]);
    restore_begin(&mut db, "a", "downloading");
    assert_eq!(state_of(&db, "a"), "queued");
    restore_done(&mut db, "a", false);
    assert_eq!(state_of(&db, "a"), "failed");
}

#[test]
fn a_failed_removal_keeps_the_task_and_its_files() {
    let mut db = holding(&[("locked", "downloading")]);
    let files = vec![StoredFileInfo { relative_path: "locked.mp4".into(), len: 4 }];
    db.save_download_files("locked", &files).unwrap();
    assert!(delete_begin(&mut db, "locked", true, None).is_ok());
    note_paused(&mut db, "locked", Ok(())).unwrap();
    assert_eq!(active_download_count(&db, &names(&["locked"])), 0);
    let details = db.download_files_and_paths("locked").unwrap().unwrap();
    assert_eq!(details.files.unwrap().len(), 1);
    assert!(matches!(delete_begin(&mut db, "locked", true, None), Ok(DeleteStep::Release(_))));
    delete_finish(&mut db, "locked");
    assert!(db.download_files_and_paths("locked").unwrap().is_none());
}
