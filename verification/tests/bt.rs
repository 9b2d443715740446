use mizuki::bt::{
    add_torrent_options, check_torrent_bytes, download_source_key, extra_trackers, file_name,
    is_magnet_source, is_video_file, torrent_session_options, tracker_lines,
};
use mizuki::links::{magnet_with_trackers, trackers_fit};
use mizuki::settings::AppSettings;

#[test]
fn desktop_session_accepts_incoming_tcp_and_utp_peers() {
    let plan = torrent_session_options(&AppSettings::default());
    assert!(plan.tcp_and_utp);
    assert!(plan.forward_port);
    assert_eq!(plan.peer_limit, 256);
    assert_eq!(plan.listen_port, 0, "默认使用随机端口");
}

#[test]
fn session_options_apply_bt_settings() {
    let settings = AppSettings {
        bt_listen_port: 4242,
        bt_upload_kbps: 512,
        bt_download_kbps: 0,
        bt_peer_limit: 120,
        ..Default::default()
    };
    let plan = torrent_session_options(&settings);
    assert_eq!(plan.listen_port, 4242);
    assert_eq!(plan.announce_port, Some(4242));
    assert_eq!(plan.peer_limit, 120);
    assert_eq!(plan.upload_bps, Some(512 * 1024));
    assert_eq!(plan.download_bps, None, "0 表示不限速");
}

#[test]
fn magnet_dedup_key_ignores_name_and_trackers() {
    let first = "magnet:?xt=urn:btih:ABCDEF&dn=Episode+1&tr=udp%3A%2F%2Fold.example%3A80";
    let second = "magnet:?tr=udp%3A%2F%2Fnew.example%3A80&xt=urn:btih:abcdef&dn=Other";
    assert_eq!(download_source_key(first), download_source_key(second));
}

#[test]
fn http_source_key_preserves_case_sensitive_path_and_query() {
    let first = "https://example.com/A.torrent?token=X";
    let second = "https://example.com/a.torrent?token=x";
    assert_ne!(download_source_key(first), download_source_key(second));
}

#[test]
fn trackerlist_entries_are_added_without_duplicates() {
    let source = "magnet:?xt=urn:btih:abcdef&tr=udp%3A%2F%2Fexisting.example%3A80";
    let trackers = vec![
        "udp://existing.example:80".to_owned(),
        "https://new.example/announce".to_owned(),
    ];
    let prepared = magnet_with_trackers(source, &trackers);
    let url = url::Url::parse(&prepared).expect("valid magnet URL");
    let actual: Vec<_> = url
        .query_pairs()
        .filter(|(key, _)| key == "tr")
        .map(|(_, value)| value.into_owned())
        .collect();
    assert_eq!(
        actual,
        vec![
            "udp://existing.example:80".to_owned(),
            "https://new.example/announce".to_owned()
        ]
    );
}

#[test]
fn the_key_of_a_magnet_link_is_its_content() {
    assert_eq!(download_source_key("  MAGNET:?XT=urn:btih:ABC&dn=x "), "urn:btih:abc");
    assert_eq!(download_source_key("magnet:?dn=x"), "magnet:?dn=x");
    assert_eq!(download_source_key(" https://a.example/B "), "https://a.example/B");
    assert_eq!(download_source_key(""), "");
}

#[test]
fn prepared_links_keep_their_key_and_gain_at_most_forty_trackers() {
    let source = "magnet:?xt=urn:btih:ABC#frag";
    let trackers: Vec<String> = (0..60).map(|n| format!("udp://t{n}.example:80/a b&c")).collect();
    let prepared = magnet_with_trackers(source, &trackers);
    assert_eq!(download_source_key(&prepared), download_source_key(source));
    let url = url::Url::parse(&prepared).unwrap();
    let added: Vec<String> = url
        .query_pairs()
        .filter(|(key, _)| key == "tr")
        .map(|(_, value)| value.into_owned())
        .collect();
    assert_eq!(added, trackers[..40].to_vec());
    assert!(prepared.chars().all(|c| ('!'..='~').contains(&c)));
    assert_eq!(magnet_with_trackers(&prepared, &trackers[..40].to_vec()), prepared);
}

#[test]
fn other_sources_gain_no_trackers() {
    let trackers = vec!["udp://a.example:80".to_owned()];
    assert_eq!(magnet_with_trackers("https://a.example/x", &trackers), "https://a.example/x");
    assert_eq!(magnet_with_trackers("MAGNET:?xt=a", &trackers), "MAGNET:?xt=a");
    assert_eq!(extra_trackers("https://a.example/x", &trackers), Some(trackers.clone()));
    assert_eq!(extra_trackers("magnet:?xt=a", &trackers), None);
    assert_eq!(extra_trackers("https://a.example/x", &Vec::new()), None);
    assert!(trackers_fit("magnet:?xt=a", &trackers));
    assert!(!trackers_fit("magnet:?xt=a", &vec!["a".repeat(0x10_0001)]));
    assert!(is_magnet_source("magnet:?xt=a"));
    assert!(!is_magnet_source("https://a.example/x"));
}

#[test]
fn video_files_are_told_by_their_extension() {
    for path in ["a.mkv", "dir/b.MP4", "dir\\c.WebM", "x.y.ts", "dir/d.avi/", "e.mov/."] {
        assert!(is_video_file(path), "{path}");
    }
    for path in ["", ".mkv", "a.srt", "mkv", "a.mkv.", "..", "a.mkv/..", "dir.mkv/readme"] {
        assert!(!is_video_file(path), "{path}");
    }
    assert_eq!(file_name("a/b\\c.mkv").as_deref(), Some("c.mkv"));
    assert_eq!(file_name("a/.."), None);
}

#[test]
fn tracker_lists_skip_blank_lines_and_comments() {
    let text = "# list\n\nudp://a.example:80\r\n  \n udp://b.example:80 \n#udp://c.example";
    assert_eq!(
        tracker_lines(text),
        vec!["udp://a.example:80".to_owned(), "udp://b.example:80".to_owned()]
    );
    let long: String = (0..100).map(|n| format!("udp://t{n}\n")).collect();
    assert_eq!(tracker_lines(&long).len(), 80);
    assert!(tracker_lines("").is_empty());
}

#[test]
fn torrent_files_are_checked() {
    assert_eq!(check_torrent_bytes(&[]).unwrap_err(), "种子文件为空");
    assert_eq!(
        check_torrent_bytes(&vec![b'd'; 20 * 1024 * 1024 + 1]).unwrap_err(),
        "种子文件超过 20 MB，已拒绝加载"
    );
    assert_eq!(
        check_torrent_bytes(b"<html>").unwrap_err(),
        "订阅地址返回的不是有效 .torrent 文件"
    );
    assert!(check_torrent_bytes(b"d4:infoe").is_ok());
}

#[test]
fn torrents_are_added_over_existing_files() {
    let plan = add_torrent_options(true, "D:/Anime", None);
    assert!(plan.overwrite && plan.paused);
    assert_eq!(plan.output_folder, "D:/Anime");
    assert!(plan.trackers.is_none());
}

#[test]
fn prefixes_of_paths_are_no_part_of_names() {
    for (path, name) in [
        ("C:foo.mkv", Some("foo.mkv")),
        ("c:\\a/foo.mkv", Some("foo.mkv")),
        ("C:", None),
        ("C:.", None),
        ("C:.mp4", Some(".mp4")),
        ("\\\\server\\share", None),
        ("\\\\server\\share.mkv", None),
        ("//server/share/a.mkv", Some("a.mkv")),
        ("\\\\server", Some("server")),
        ("\\\\.\\COM1.mkv", None),
        ("\\\\.\\COM1\\a.mkv", Some("a.mkv")),
        ("\\\\?\\C:\\a.mkv", Some("a.mkv")),
        ("\\\\?\\C:\\a/b.mkv", Some("a/b.mkv")),
        ("\\\\?\\C:\\a.mkv\\.", None),
        ("\\\\?\\UNC\\server\\share.mkv", None),
        ("\\\\?\\UNC\\server\\share\\a.mkv", Some("a.mkv")),
        ("\\\\?\\volume.mkv", None),
        ("1:a.mkv", Some("1:a.mkv")),
    ] {
        assert_eq!(file_name(path).as_deref(), name, "{path}");
    }
    assert!(is_video_file("C:foo.mkv"));
    assert!(!is_video_file("C:.mp4"));
    assert!(!is_video_file("\\\\server\\share.mkv"));
    for path in ["Ep.MKV", "ep.mkv"] {
        assert!(is_video_file(path) && is_video_file(&format!("D:{path}")));
    }
    for path in ["mkv", ".mp4", "ep.mkv.srt"] {
        assert!(!is_video_file(path) && !is_video_file(&format!("D:{path}")));
    }
}
