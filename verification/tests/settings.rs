use mizuki::json::{Json, Number};
use mizuki::settings::{
    AppSettings, check_new_settings, download_dir, kbps_to_bps, load_settings, validate_settings,
};

fn convert(value: &serde_json::Value) -> Json {
    match value {
        serde_json::Value::Null => Json::Null,
        serde_json::Value::Bool(b) => Json::Bool(*b),
        serde_json::Value::Number(n) => Json::Number(Number {
            integer: n.as_i64().map(i128::from).or(n.as_u64().map(i128::from)),
            bits: n.as_f64().map(f64::to_bits),
        }),
        serde_json::Value::String(s) => Json::Text(s.clone()),
        serde_json::Value::Array(list) => Json::List(list.iter().map(convert).collect()),
        serde_json::Value::Object(map) => {
            Json::Object(map.iter().map(|(k, v)| (k.clone(), convert(v))).collect())
        }
    }
}

fn json(text: &str) -> Json {
    convert(&serde_json::from_str(text).expect("valid JSON"))
}

#[test]
fn settings_validation_bounds() {
    let mut settings = AppSettings::default();
    assert!(validate_settings(&settings).is_ok());
    settings.bt_peer_limit = 0;
    assert!(validate_settings(&settings).is_err());
    settings.bt_peer_limit = 256;
    settings.bt_download_kbps = 2_000_000;
    assert!(validate_settings(&settings).is_err());
    settings.bt_download_kbps = 0;
    settings.rss_interval_minutes = 1;
    assert!(validate_settings(&settings).is_err());
}

#[test]
fn every_bound_has_its_message() {
    let with = |change: fn(&mut AppSettings)| {
        let mut settings = AppSettings::default();
        change(&mut settings);
        validate_settings(&settings).unwrap_err()
    };
    assert_eq!(with(|s| s.bt_upload_kbps = 1_000_001), "限速上限为 1000000 KB/s");
    assert_eq!(with(|s| s.bt_peer_limit = 2001), "每任务连接数需在 1-2000 之间");
    assert_eq!(with(|s| s.max_concurrent_downloads = 21), "并发任务数最多 20");
    assert_eq!(with(|s| s.rss_interval_minutes = 1441), "RSS 刷新间隔需在 5-1440 分钟之间");
}

#[test]
fn rates_become_limits() {
    assert_eq!(kbps_to_bps(0), None);
    assert_eq!(kbps_to_bps(512), Some(512 * 1024));
    assert_eq!(kbps_to_bps(4194303), Some(4194303 * 1024));
    assert_eq!(kbps_to_bps(4194304), None);
}

#[test]
fn stored_settings_fall_back_field_by_field() {
    let settings = load_settings(Some(&json(r#"{"btListenPort": 4242, "closeToTray": false, "other": 1}"#)));
    assert_eq!(settings.bt_listen_port, 4242);
    assert!(!settings.close_to_tray);
    assert_eq!(settings.bt_peer_limit, 256);
    assert_eq!(settings.rss_interval_minutes, 15);
    assert!(settings.stop_seeding_on_complete);
    let spoiled = load_settings(Some(&json(r#"{"btListenPort": 70000, "closeToTray": false}"#)));
    assert_eq!(spoiled.bt_listen_port, 0);
    assert!(spoiled.close_to_tray);
    assert_eq!(load_settings(None).bt_peer_limit, 256);
    let listed = load_settings(Some(&json("[7, 1, 2]")));
    assert_eq!(listed.bt_listen_port, 7);
    assert_eq!(listed.bt_download_kbps, 2);
    assert_eq!(listed.bt_peer_limit, 256);
}

#[test]
fn stored_settings_are_read_back() {
    let settings = AppSettings {
        bt_listen_port: 1,
        bt_upload_kbps: u64::MAX,
        bt_download_kbps: 3,
        bt_peer_limit: 4,
        max_concurrent_downloads: 5,
        stop_seeding_on_complete: false,
        rss_interval_minutes: 6,
        download_dir: Some("D:/Anime".into()),
        autostart: true,
        close_to_tray: false,
    };
    let back = load_settings(Some(&settings.to_json()));
    assert_eq!(format!("{back:?}"), format!("{settings:?}"));
}

#[test]
fn a_relative_download_directory_is_refused() {
    let settings = AppSettings { download_dir: Some("Anime".into()), ..Default::default() };
    assert_eq!(check_new_settings(&settings, false).unwrap_err(), "下载目录必须是绝对路径");
    assert!(check_new_settings(&settings, true).is_ok());
    assert!(check_new_settings(&AppSettings::default(), false).is_ok());
    let bad = AppSettings { rss_interval_minutes: 0, ..settings.clone() };
    assert_eq!(check_new_settings(&bad, false).unwrap_err(), "RSS 刷新间隔需在 5-1440 分钟之间");
    assert_eq!(download_dir(&settings, true, "C:/Mizuki"), "Anime");
    assert_eq!(download_dir(&settings, false, "C:/Mizuki"), "C:/Mizuki");
    assert_eq!(download_dir(&AppSettings::default(), true, "C:/Mizuki"), "C:/Mizuki");
}

#[test]
fn settings_are_stored_by_name() {
    let Json::Object(members) = AppSettings::default().to_json() else {
        panic!("an object");
    };
    let names: Vec<&str> = members.iter().map(|(name, _)| name.as_str()).collect();
    assert_eq!(
        names,
        [
            "btListenPort",
            "btUploadKbps",
            "btDownloadKbps",
            "btPeerLimit",
            "maxConcurrentDownloads",
            "stopSeedingOnComplete",
            "rssIntervalMinutes",
            "downloadDir",
            "autostart",
            "closeToTray",
        ]
    );
    assert!(matches!(members[7].1, Json::Null));
}
