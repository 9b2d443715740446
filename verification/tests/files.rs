use mizuki::files::{
    Resolution, components, directories_to_prune, largest_video_file, manifest_targets,
    path_is_safe, playback_fallback, playback_files, playback_files_from_handle, removal_result,
    stored_playback_files,
};
use mizuki::models::StoredFileInfo;

fn file(path: &str, len: u64) -> StoredFileInfo {
    StoredFileInfo { relative_path: path.into(), len }
}

#[test]
fn paths_are_read_part_by_part() {
    assert_eq!(components("a/./b\\\\c/"), vec!["a", "b", "c"]);
    assert!(components("./").is_empty());
    assert!(path_is_safe("a/b.mkv"));
    for path in ["", "../a", "a/../b", "/a", "\\a", "C:/a", "C:a"] {
        assert!(!path_is_safe(path), "{path:?}");
    }
}

#[test]
fn only_files_below_the_folder_are_removed() {
    let files = vec![file("ep01.mp4", 10), file("ep02.mp4", 8)];
    let targets =
        manifest_targets(&files, &vec![Resolution::Missing, Resolution::Inside]).unwrap();
    assert_eq!(targets, vec![1]);
    assert_eq!(
        manifest_targets(&files, &vec![Resolution::Inside, Resolution::Outside]).unwrap_err(),
        "文件清单路径超出下载目录，任务已保留。"
    );
    assert_eq!(
        manifest_targets(&files, &vec![Resolution::Failed("x".into()), Resolution::Inside])
            .unwrap_err(),
        "无法验证文件路径，任务已保留：x"
    );
    assert_eq!(
        manifest_targets(&vec![file("../x", 1)], &vec![Resolution::Inside]).unwrap_err(),
        "文件清单含无效路径，任务已保留。"
    );
}

#[test]
fn failures_keep_the_task() {
    assert!(removal_result(&Vec::new()).is_ok());
    assert_eq!(
        removal_result(&vec!["a".into(), "b".into()]).unwrap_err(),
        "部分文件删除失败，任务和文件清单已保留以便重试：\na\nb"
    );
}

#[test]
fn empty_folders_go_from_the_inside_out() {
    let dirs = directories_to_prune(&vec!["a/b/x.mkv".into(), "a/y.mkv".into(), "z.mkv".into()]);
    assert_eq!(dirs, vec![vec!["a".to_owned(), "b".to_owned()], vec!["a".to_owned()]]);
    assert!(directories_to_prune(&vec!["z.mkv".into()]).is_empty());
}

#[test]
fn the_largest_video_is_played() {
    let files = vec![file("a.srt", 900), file("b.mkv", 5), file("c.mp4", 7), file("d.mkv", 7)];
    assert_eq!(largest_video_file(&files), Some(3));
    assert_eq!(largest_video_file(&vec![file("a.srt", 900)]), None);
    assert_eq!(largest_video_file(&Vec::new()), None);
}

#[test]
fn videos_are_listed_with_their_places() {
    let files = vec![file("s/a.srt", 1), file("s/b.mkv", 5)];
    let paths = vec!["D:/s/a.srt".to_owned(), "D:/s/b.mkv".to_owned()];
    let list = playback_files(&files, &paths);
    assert_eq!(list.len(), 1);
    assert_eq!((list[0].index, list[0].size), (1, 5));
    assert_eq!(list[0].path, "D:/s/b.mkv");
    assert_eq!(
        playback_files_from_handle(false, &files, &paths).err().unwrap(),
        "下载尚未完成"
    );
    assert!(playback_files_from_handle(true, &files, &paths).is_ok());
    assert_eq!(
        playback_files_from_handle(true, &vec![file("a.srt", 1)], &vec!["D:/a.srt".into()])
            .err()
            .unwrap(),
        "该任务中没有可播放的视频文件"
    );
    assert!(stored_playback_files(&None, &Vec::new()).is_none());
    assert_eq!(stored_playback_files(&Some(files), &paths).unwrap().len(), 1);
}

#[test]
fn the_noted_file_stands_in_for_the_list() {
    let list = playback_fallback("no", Some(("D:/s/b.mkv".into(), true, 5))).unwrap();
    assert_eq!(list[0].name, "b.mkv");
    assert_eq!(list[0].size, 5);
    assert_eq!(
        playback_fallback("no", Some(("D:/b.mkv".into(), false, 0))).err().unwrap(),
        "读取合集文件列表失败（no），且未找到本地可播放文件"
    );
    assert!(playback_fallback("no", None).is_err());
}
