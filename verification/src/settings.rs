//! The settings of the application.

use crate::json::{
    Json, as_bool, as_nat, as_opt_text, bool_of, deref, field, is_record, json_int, json_opt_text,
    lemma_lookup_at, member, member_names, nat_of, opt_text_of, part,
};
use crate::text::{copy_opt, opt_text};
use vstd::prelude::*;

verus! {

/// The settings of the application. Rates are in kilobytes per second, and zero sets no
/// limit; a port of zero is any port. Without a directory of their own downloads go below
/// the download directory of the system.
#[derive(Debug)]
pub struct AppSettings {
    pub bt_listen_port: u16,
    pub bt_upload_kbps: u64,
    pub bt_download_kbps: u64,
    pub bt_peer_limit: u32,
    pub max_concurrent_downloads: u32,
    pub stop_seeding_on_complete: bool,
    pub rss_interval_minutes: u32,
    pub download_dir: Option<String>,
    pub autostart: bool,
    pub close_to_tray: bool,
}

/// The settings as plain values.
#[verifier::ext_equal]
pub struct SettingsView {
    pub bt_listen_port: u16,
    pub bt_upload_kbps: u64,
    pub bt_download_kbps: u64,
    pub bt_peer_limit: u32,
    pub max_concurrent_downloads: u32,
    pub stop_seeding_on_complete: bool,
    pub rss_interval_minutes: u32,
    pub download_dir: Option<Seq<char>>,
    pub autostart: bool,
    pub close_to_tray: bool,
}

impl View for AppSettings {
    type V = SettingsView;

    open spec fn view(&self) -> SettingsView {
        SettingsView {
            bt_listen_port: self.bt_listen_port,
            bt_upload_kbps: self.bt_upload_kbps,
            bt_download_kbps: self.bt_download_kbps,
            bt_peer_limit: self.bt_peer_limit,
            max_concurrent_downloads: self.max_concurrent_downloads,
            stop_seeding_on_complete: self.stop_seeding_on_complete,
            rss_interval_minutes: self.rss_interval_minutes,
            download_dir: opt_text(self.download_dir),
            autostart: self.autostart,
            close_to_tray: self.close_to_tray,
        }
    }
}

impl Clone for AppSettings {
    fn clone(&self) -> (copy: Self)
        ensures
            copy == *self,
    {
        AppSettings {
            bt_listen_port: self.bt_listen_port,
            bt_upload_kbps: self.bt_upload_kbps,
            bt_download_kbps: self.bt_download_kbps,
            bt_peer_limit: self.bt_peer_limit,
            max_concurrent_downloads: self.max_concurrent_downloads,
            stop_seeding_on_complete: self.stop_seeding_on_complete,
            rss_interval_minutes: self.rss_interval_minutes,
            download_dir: copy_opt(&self.download_dir),
            autostart: self.autostart,
            close_to_tray: self.close_to_tray,
        }
    }
}

/// The settings before the user changed any.
pub open spec fn default_settings() -> SettingsView {
    SettingsView {
        bt_listen_port: 0,
        bt_upload_kbps: 0,
        bt_download_kbps: 0,
        bt_peer_limit: 256,
        max_concurrent_downloads: 0,
        stop_seeding_on_complete: true,
        rss_interval_minutes: 15,
        download_dir: None,
        autostart: false,
        close_to_tray: true,
    }
}

impl Default for AppSettings {
    fn default() -> (settings: Self)
        ensures
            settings@ == default_settings(),
    {
        AppSettings {
            bt_listen_port: 0,
            bt_upload_kbps: 0,
            bt_download_kbps: 0,
            bt_peer_limit: 256,
            max_concurrent_downloads: 0,
            stop_seeding_on_complete: true,
            rss_interval_minutes: 15,
            download_dir: None,
            autostart: false,
            close_to_tray: true,
        }
    }
}

/// The key of the setting that holds all settings.
pub const SETTINGS_KEY: &'static str = "app_settings";

/// A whole number of a stored document: the default where it is absent, nothing where it
/// is no whole number up to `max`.
pub open spec fn stored_nat(value: Option<Json>, default: int, max: int) -> Option<int> {
    match value {
        None => Some(default),
        _ => nat_of(value, max),
    }
}

/// A truth value of a stored document: the default where it is absent, nothing where it is
/// no truth value.
pub open spec fn stored_bool(value: Option<Json>, default: bool) -> Option<bool> {
    match value {
        None => Some(default),
        _ => bool_of(value),
    }
}

/// The settings that a stored document gives. An absent field has its default; a field of
/// the wrong kind spoils the document.
pub open spec fn settings_of(value: Json) -> Option<SettingsView> {
    let d = default_settings();
    let port = stored_nat(part(value, "btListenPort"@, 0), 0, u16::MAX as int);
    let up = stored_nat(part(value, "btUploadKbps"@, 1), 0, u64::MAX as int);
    let down = stored_nat(part(value, "btDownloadKbps"@, 2), 0, u64::MAX as int);
    let peers = stored_nat(part(value, "btPeerLimit"@, 3), 256, u32::MAX as int);
    let tasks = stored_nat(part(value, "maxConcurrentDownloads"@, 4), 0, u32::MAX as int);
    let stop = stored_bool(part(value, "stopSeedingOnComplete"@, 5), true);
    let interval = stored_nat(part(value, "rssIntervalMinutes"@, 6), 15, u32::MAX as int);
    let dir = opt_text_of(part(value, "downloadDir"@, 7));
    let auto = stored_bool(part(value, "autostart"@, 8), false);
    let tray = stored_bool(part(value, "closeToTray"@, 9), true);
    if is_record(value, 0, 10) && port is Some && up is Some && down is Some && peers is Some
        && tasks is Some && stop is Some && interval is Some && dir is Some && auto is Some
        && tray is Some {
        Some(
            SettingsView {
                bt_listen_port: port->0 as u16,
                bt_upload_kbps: up->0 as u64,
                bt_download_kbps: down->0 as u64,
                bt_peer_limit: peers->0 as u32,
                max_concurrent_downloads: tasks->0 as u32,
                stop_seeding_on_complete: stop->0,
                rss_interval_minutes: interval->0 as u32,
                download_dir: dir->0,
                autostart: auto->0,
                close_to_tray: tray->0,
            },
        )
    } else {
        None
    }
}

fn read_nat(value: Option<&Json>, default: u64, max: u64) -> (r: Option<u64>)
    requires
        default <= max,
    ensures
        match r {
            Some(v) => stored_nat(deref(value), default as int, max as int) == Some(v as int) && v
                <= max,
            None => stored_nat(deref(value), default as int, max as int) is None,
        },
{
    match value {
        None => Some(default),
        Some(_) => as_nat(value, max),
    }
}

fn read_bool(value: Option<&Json>, default: bool) -> (r: Option<bool>)
    ensures
        r == stored_bool(deref(value), default),
{
    match value {
        None => Some(default),
        Some(_) => as_bool(value),
    }
}

/// The names of the fields of a stored document.
pub open spec fn settings_names() -> Seq<Seq<char>> {
    seq![
        "btListenPort"@,
        "btUploadKbps"@,
        "btDownloadKbps"@,
        "btPeerLimit"@,
        "maxConcurrentDownloads"@,
        "stopSeedingOnComplete"@,
        "rssIntervalMinutes"@,
        "downloadDir"@,
        "autostart"@,
        "closeToTray"@,
    ]
}

impl AppSettings {
    /// The settings that a stored document gives.
    pub fn from_json(value: &Json) -> (r: Option<AppSettings>)
        ensures
            match r {
                Some(s) => settings_of(*value) == Some(s@),
                None => settings_of(*value) is None,
            },
    {
        if !value.is_record(0, 10) {
            return None;
        }
        let port: u64 = read_nat(value.part("btListenPort", 0), 0, 65535)?;
        let up: u64 = read_nat(value.part("btUploadKbps", 1), 0, u64::MAX)?;
        let down: u64 = read_nat(value.part("btDownloadKbps", 2), 0, u64::MAX)?;
        let peers: u64 = read_nat(value.part("btPeerLimit", 3), 256, 4294967295)?;
        let tasks: u64 = read_nat(value.part("maxConcurrentDownloads", 4), 0, 4294967295)?;
        let stop: bool = read_bool(value.part("stopSeedingOnComplete", 5), true)?;
        let interval: u64 = read_nat(value.part("rssIntervalMinutes", 6), 15, 4294967295)?;
        let dir: Option<String> = as_opt_text(value.part("downloadDir", 7))?;
        let auto: bool = read_bool(value.part("autostart", 8), false)?;
        let tray: bool = read_bool(value.part("closeToTray", 9), true)?;
        Some(
            AppSettings {
                bt_listen_port: port as u16,
                bt_upload_kbps: up,
                bt_download_kbps: down,
                bt_peer_limit: peers as u32,
                max_concurrent_downloads: tasks as u32,
                stop_seeding_on_complete: stop,
                rss_interval_minutes: interval as u32,
                download_dir: dir,
                autostart: auto,
                close_to_tray: tray,
            },
        )
    }

    /// The document that is stored for the settings: an object with one member for each of
    /// them. Reading it gives the settings back.
    pub fn to_json(&self) -> (value: Json)
        ensures
            settings_of(value) == Some(self@),
            value is Object,
            member_names(Some(value)) == settings_names(),
    {
        let members: Vec<(String, Json)> = vec![
            member("btListenPort", json_int(self.bt_listen_port as i128)),
            member("btUploadKbps", json_int(self.bt_upload_kbps as i128)),
            member("btDownloadKbps", json_int(self.bt_download_kbps as i128)),
            member("btPeerLimit", json_int(self.bt_peer_limit as i128)),
            member("maxConcurrentDownloads", json_int(self.max_concurrent_downloads as i128)),
            member("stopSeedingOnComplete", Json::Bool(self.stop_seeding_on_complete)),
            member("rssIntervalMinutes", json_int(self.rss_interval_minutes as i128)),
            member("downloadDir", json_opt_text(&self.download_dir)),
            member("autostart", Json::Bool(self.autostart)),
            member("closeToTray", Json::Bool(self.close_to_tray)),
        ];
        proof {
            reveal_strlit("btListenPort");
            reveal_strlit("btUploadKbps");
            reveal_strlit("btDownloadKbps");
            reveal_strlit("btPeerLimit");
            reveal_strlit("maxConcurrentDownloads");
            reveal_strlit("stopSeedingOnComplete");
            reveal_strlit("rssIntervalMinutes");
            reveal_strlit("downloadDir");
            reveal_strlit("autostart");
            reveal_strlit("closeToTray");
            assert(members@[0].0@.len() == 12 && members@[0].0@[2] == 'L');
            assert(members@[1].0@.len() == 12 && members@[1].0@[2] == 'U');
            assert(members@[2].0@.len() == 14 && members@[2].0@[2] == 'D');
            assert(members@[3].0@.len() == 11 && members@[3].0@[2] == 'P');
            assert(members@[4].0@.len() == 22 && members@[4].0@[2] == 'x');
            assert(members@[5].0@.len() == 21 && members@[5].0@[2] == 'o');
            assert(members@[6].0@.len() == 18 && members@[6].0@[2] == 's');
            assert(members@[7].0@.len() == 11 && members@[7].0@[2] == 'w');
            assert(members@[8].0@.len() == 9 && members@[8].0@[2] == 't');
            assert(members@[9].0@.len() == 11 && members@[9].0@[2] == 'o');
            lemma_lookup_at(members@, 0);
            lemma_lookup_at(members@, 1);
            lemma_lookup_at(members@, 2);
            lemma_lookup_at(members@, 3);
            lemma_lookup_at(members@, 4);
            lemma_lookup_at(members@, 5);
            lemma_lookup_at(members@, 6);
            lemma_lookup_at(members@, 7);
            lemma_lookup_at(members@, 8);
            lemma_lookup_at(members@, 9);
            assert(member_names(Some(Json::Object(members))) =~= settings_names());
        }
        Json::Object(members)
    }
}

/// The settings in force, given the document that is stored.
pub open spec fn settings_in_force(stored: Option<Json>) -> SettingsView {
    match stored {
        Some(value) => match settings_of(value) {
            Some(s) => s,
            None => default_settings(),
        },
        None => default_settings(),
    }
}

/// The settings in force: those that are stored, or the default ones where nothing usable
/// is.
pub fn load_settings(stored: Option<&Json>) -> (settings: AppSettings)
    ensures
        settings@ == settings_in_force(deref(stored)),
{
    match stored {
        Some(value) => match AppSettings::from_json(value) {
            Some(settings) => settings,
            None => AppSettings::default(),
        },
        None => AppSettings::default(),
    }
}

/// Each field that a stored document lacks has its default, whatever the others say; a
/// document without any field gives the default settings.
pub proof fn law_missing_fields_have_defaults(value: Json)
    requires
        value is Object,
    ensures
        settings_of(value) matches Some(s) ==> {
            let d = default_settings();
            &&& field(value, "btListenPort"@) is None ==> s.bt_listen_port == d.bt_listen_port
            &&& field(value, "btUploadKbps"@) is None ==> s.bt_upload_kbps == d.bt_upload_kbps
            &&& field(value, "btDownloadKbps"@) is None ==> s.bt_download_kbps
                == d.bt_download_kbps
            &&& field(value, "btPeerLimit"@) is None ==> s.bt_peer_limit == d.bt_peer_limit
            &&& field(value, "maxConcurrentDownloads"@) is None ==> s.max_concurrent_downloads
                == d.max_concurrent_downloads
            &&& field(value, "stopSeedingOnComplete"@) is None ==> s.stop_seeding_on_complete
                == d.stop_seeding_on_complete
            &&& field(value, "rssIntervalMinutes"@) is None ==> s.rss_interval_minutes
                == d.rss_interval_minutes
            &&& field(value, "downloadDir"@) is None ==> s.download_dir == d.download_dir
            &&& field(value, "autostart"@) is None ==> s.autostart == d.autostart
            &&& field(value, "closeToTray"@) is None ==> s.close_to_tray == d.close_to_tray
        },
        value->Object_0@.len() == 0 ==> settings_of(value) == Some(default_settings()),
{
}

/// The bytes per second of a rate: none where the rate is zero or too large for the
/// engine.
pub open spec fn rate_limit(kbps: u64) -> Option<u32> {
    if kbps == 0 || kbps > u32::MAX / 1024 {
        None
    } else {
        Some((kbps * 1024) as u32)
    }
}

/// The bytes per second of a rate: none where the rate is zero or too large for the
/// engine.
pub fn kbps_to_bps(kbps: u64) -> (r: Option<u32>)
    ensures
        r == rate_limit(kbps),
        r matches Some(bps) ==> bps > 0,
{
    if kbps == 0 || kbps > 4294967295 / 1024 {
        return None;
    }
    Some((kbps * 1024) as u32)
}

/// What is wrong with settings, if anything.
pub open spec fn settings_fault(s: SettingsView) -> Option<Seq<char>> {
    if s.bt_upload_kbps > 1_000_000 || s.bt_download_kbps > 1_000_000 {
        Some("限速上限为 1000000 KB/s"@)
    } else if !(1 <= s.bt_peer_limit <= 2000) {
        Some("每任务连接数需在 1-2000 之间"@)
    } else if s.max_concurrent_downloads > 20 {
        Some("并发任务数最多 20"@)
    } else if !(5 <= s.rss_interval_minutes <= 1440) {
        Some("RSS 刷新间隔需在 5-1440 分钟之间"@)
    } else {
        None
    }
}

/// Whether settings are within their bounds.
pub fn validate_settings(settings: &AppSettings) -> (r: Result<(), String>)
    ensures
        match r {
            Ok(_) => settings_fault(settings@) is None,
            Err(e) => settings_fault(settings@) == Some(e@),
        },
{
    if settings.bt_upload_kbps > 1_000_000 || settings.bt_download_kbps > 1_000_000 {
        return Err("限速上限为 1000000 KB/s".to_owned());
    }
    if settings.bt_peer_limit < 1 || settings.bt_peer_limit > 2000 {
        return Err("每任务连接数需在 1-2000 之间".to_owned());
    }
    if settings.max_concurrent_downloads > 20 {
        return Err("并发任务数最多 20".to_owned());
    }
    if settings.rss_interval_minutes < 5 || settings.rss_interval_minutes > 1440 {
        return Err("RSS 刷新间隔需在 5-1440 分钟之间".to_owned());
    }
    Ok(())
}

/// What is wrong with settings that are to be saved, if anything.
pub open spec fn new_settings_fault(s: SettingsView, absolute: bool) -> Option<Seq<char>> {
    if settings_fault(s) is Some {
        settings_fault(s)
    } else if s.download_dir is Some && !absolute {
        Some("下载目录必须是绝对路径"@)
    } else {
        None
    }
}

/// Whether settings can be saved. `absolute` says whether their download directory is an
/// absolute path.
pub fn check_new_settings(settings: &AppSettings, absolute: bool) -> (r: Result<(), String>)
    ensures
        match r {
            Ok(_) => new_settings_fault(settings@, absolute) is None,
            Err(e) => new_settings_fault(settings@, absolute) == Some(e@),
        },
{
    validate_settings(settings)?;
    if settings.download_dir.is_some() && !absolute {
        return Err("下载目录必须是绝对路径".to_owned());
    }
    Ok(())
}

/// Within the bounds every rate above zero is a limit for the engine.
pub proof fn law_valid_rates_are_limits(s: SettingsView)
    requires
        settings_fault(s) is None,
    ensures
        s.bt_upload_kbps > 0 ==> rate_limit(s.bt_upload_kbps) == Some(
            (s.bt_upload_kbps * 1024) as u32,
        ),
        s.bt_download_kbps > 0 ==> rate_limit(s.bt_download_kbps) == Some(
            (s.bt_download_kbps * 1024) as u32,
        ),
{
}

/// Where a new download goes, given the usual directory.
pub open spec fn folder_of_new(s: SettingsView, absolute: bool, usual: Seq<char>) -> Seq<char> {
    match s.download_dir {
        Some(own) => if absolute {
            own
        } else {
            usual
        },
        None => usual,
    }
}

/// Where a new download goes: the directory of the settings where it is an absolute path,
/// or else the usual one.
pub fn download_dir(settings: &AppSettings, absolute: bool, usual: &str) -> (dir: String)
    ensures
        dir@ == folder_of_new(settings@, absolute, usual@),
{
    match &settings.download_dir {
        Some(own) => if absolute {
            own.clone()
        } else {
            usual.to_owned()
        },
        None => usual.to_owned(),
    }
}

} // verus!
