//! What holds of the settings: how they are read, which are accepted, and what they mean.

use crate::bt::session_for;
use crate::json::{Json, field};
use crate::settings::{
    SettingsView, default_settings, folder_of_new, new_settings_fault, rate_limit, settings_fault,
    settings_in_force, settings_names, settings_of,
};
use vstd::prelude::*;

verus! {

/// Whether a member of a document is a whole number.
pub open spec fn is_number(value: Json, name: Seq<char>, n: int) -> bool {
    field(value, name) matches Some(Json::Number(number)) && number.integer is Some
        && number.integer->0 == n
}

/// Whether a member of a document is a truth value.
pub open spec fn is_flag(value: Json, name: Seq<char>, b: bool) -> bool {
    field(value, name) matches Some(Json::Bool(v)) && v == b
}

/// The settings of a stored object are the values of its members.
pub proof fn law_settings_are_read(value: Json, n: int, b: bool)
    requires
        value is Object,
        settings_of(value) is Some,
    ensures
        ({
            let s = settings_of(value)->0;
            &&& is_number(value, "btListenPort"@, n) ==> s.bt_listen_port == n
            &&& is_number(value, "btUploadKbps"@, n) ==> s.bt_upload_kbps == n
            &&& is_number(value, "btDownloadKbps"@, n) ==> s.bt_download_kbps == n
            &&& is_number(value, "btPeerLimit"@, n) ==> s.bt_peer_limit == n
            &&& is_number(value, "maxConcurrentDownloads"@, n) ==> s.max_concurrent_downloads == n
            &&& is_number(value, "rssIntervalMinutes"@, n) ==> s.rss_interval_minutes == n
            &&& is_flag(value, "stopSeedingOnComplete"@, b) ==> s.stop_seeding_on_complete == b
            &&& is_flag(value, "autostart"@, b) ==> s.autostart == b
            &&& is_flag(value, "closeToTray"@, b) ==> s.close_to_tray == b
            &&& field(value, "downloadDir"@) matches Some(Json::Text(dir)) ==> s.download_dir
                == Some(dir@)
            &&& field(value, "downloadDir"@) matches Some(Json::Null) ==> s.download_dir is None
        }),
{
}

/// Whether an object has a member that is of the wrong kind for its setting, or a number out of its
/// range.
pub open spec fn has_wrong_member(value: Json, n: int) -> bool {
    ||| is_number(value, "btListenPort"@, n) && !(0 <= n <= 65535)
    ||| is_number(value, "btUploadKbps"@, n) && !(0 <= n <= u64::MAX)
    ||| is_number(value, "btDownloadKbps"@, n) && !(0 <= n <= u64::MAX)
    ||| is_number(value, "btPeerLimit"@, n) && !(0 <= n <= u32::MAX)
    ||| is_number(value, "maxConcurrentDownloads"@, n) && !(0 <= n <= u32::MAX)
    ||| is_number(value, "rssIntervalMinutes"@, n) && !(0 <= n <= u32::MAX)
    ||| field(value, "btListenPort"@) matches Some(v) && !(v is Number)
    ||| field(value, "btUploadKbps"@) matches Some(v) && !(v is Number)
    ||| field(value, "btDownloadKbps"@) matches Some(v) && !(v is Number)
    ||| field(value, "btPeerLimit"@) matches Some(v) && !(v is Number)
    ||| field(value, "maxConcurrentDownloads"@) matches Some(v) && !(v is Number)
    ||| field(value, "rssIntervalMinutes"@) matches Some(v) && !(v is Number)
    ||| field(value, "stopSeedingOnComplete"@) matches Some(v) && !(v is Bool)
    ||| field(value, "autostart"@) matches Some(v) && !(v is Bool)
    ||| field(value, "closeToTray"@) matches Some(v) && !(v is Bool)
    ||| field(value, "downloadDir"@) matches Some(v) && !(v is Text) && !(v is Null)
}

/// A member of the wrong kind, or a number out of the range of its setting, spoils the document,
/// and then the default settings are in force.
pub proof fn law_wrong_members_spoil_settings(value: Json, n: int)
    requires
        value is Object,
        has_wrong_member(value, n),
    ensures
        settings_of(value) is None,
        settings_in_force(Some(value)) == default_settings(),
{
}

/// Without stored settings the defaults are in force: any port, no limits but of peers, seeding
/// ends when a download completes, feeds are read every quarter of an hour, and closing the window
/// keeps the application in the tray.
pub proof fn law_defaults_are_in_force(value: Json)
    ensures
        settings_in_force(None) == default_settings(),
        settings_of(value) matches Some(s) ==> settings_in_force(Some(value)) == s,
        ({
            let d = default_settings();
            &&& d.bt_listen_port == 0
            &&& d.bt_upload_kbps == 0
            &&& d.bt_download_kbps == 0
            &&& d.bt_peer_limit == 256
            &&& d.max_concurrent_downloads == 0
            &&& d.stop_seeding_on_complete
            &&& d.rss_interval_minutes == 15
            &&& d.download_dir is None
            &&& !d.autostart
            &&& d.close_to_tray
            &&& settings_fault(d) is None
        }),
{
}

/// Settings are accepted exactly where each lies within its bounds, and saved where the folder for
/// downloads, if one is given, is an absolute path.
pub proof fn law_settings_have_bounds(s: SettingsView, absolute: bool)
    ensures
        settings_fault(s) is None <==> s.bt_upload_kbps <= 1_000_000 && s.bt_download_kbps
            <= 1_000_000 && 1 <= s.bt_peer_limit <= 2000 && s.max_concurrent_downloads <= 20 && 5
            <= s.rss_interval_minutes <= 1440,
        new_settings_fault(s, absolute) is None <==> settings_fault(s) is None && (s.download_dir
            is Some ==> absolute),
        settings_fault(s) is Some ==> new_settings_fault(s, absolute) == settings_fault(s),
        settings_fault(s) is None && s.download_dir is Some && !absolute ==> new_settings_fault(
            s,
            absolute,
        ) == Some("下载目录必须是绝对路径"@),
{
}

/// What is wrong with settings is told: a rate, the number of peers, the number of downloads at a
/// time, or the interval of the feeds.
pub proof fn law_faults_of_settings_are_told(s: SettingsView)
    ensures
        s.bt_upload_kbps > 1_000_000 || s.bt_download_kbps > 1_000_000 ==> settings_fault(s)
            == Some("限速上限为 1000000 KB/s"@),
        s.bt_upload_kbps <= 1_000_000 && s.bt_download_kbps <= 1_000_000 && !(1 <= s.bt_peer_limit
            <= 2000) ==> settings_fault(s) == Some("每任务连接数需在 1-2000 之间"@),
        s.bt_upload_kbps <= 1_000_000 && s.bt_download_kbps <= 1_000_000 && 1 <= s.bt_peer_limit
            <= 2000 && s.max_concurrent_downloads > 20 ==> settings_fault(s) == Some(
            "并发任务数最多 20"@,
        ),
        s.bt_upload_kbps <= 1_000_000 && s.bt_download_kbps <= 1_000_000 && 1 <= s.bt_peer_limit
            <= 2000 && s.max_concurrent_downloads <= 20 && !(5 <= s.rss_interval_minutes <= 1440)
            ==> settings_fault(s) == Some("RSS 刷新间隔需在 5-1440 分钟之间"@),
{
}

/// A rate of kilobytes is a limit of 1024 times as many bytes; zero is no limit, and neither is
/// what exceeds the engine's numbers.
pub proof fn law_rates_are_in_kilobytes(kbps: u64)
    ensures
        rate_limit(0) is None,
        0 < kbps && kbps * 1024 <= u32::MAX ==> rate_limit(kbps) is Some && rate_limit(kbps)->0
            == kbps * 1024,
        kbps * 1024 > u32::MAX ==> rate_limit(kbps) is None,
{
}

/// The engine listens on the port of the settings, over both transports, with a forwarded port, and
/// announces a port other than zero. Its limits are those of the settings, each in its direction.
pub proof fn law_the_engine_follows_the_settings(s: SettingsView)
    ensures
        ({
            let plan = session_for(s);
            &&& plan.tcp_and_utp
            &&& plan.forward_port
            &&& plan.listen_port == s.bt_listen_port
            &&& s.bt_listen_port == 0 ==> plan.announce_port is None
            &&& s.bt_listen_port > 0 ==> plan.announce_port == Some(s.bt_listen_port)
            &&& plan.peer_limit == s.bt_peer_limit
            &&& plan.upload_bps == rate_limit(s.bt_upload_kbps)
            &&& plan.download_bps == rate_limit(s.bt_download_kbps)
        }),
{
}

/// New downloads go to the folder of the settings where it is an absolute path, and to the usual
/// one otherwise.
pub proof fn law_new_downloads_have_a_folder(s: SettingsView, usual: Seq<char>)
    ensures
        s.download_dir matches Some(own) ==> folder_of_new(s, true, usual) == own,
        folder_of_new(s, false, usual) == usual,
        s.download_dir is None ==> folder_of_new(s, true, usual) == usual,
{
}

/// The settings of a stored list are its values in the order of the settings; those that it ends
/// before have their defaults.
pub proof fn law_stored_lists_have_their_order(list: Vec<Json>, n: int)
    requires
        settings_of(Json::List(list)) is Some,
    ensures
        ({
            let s = settings_of(Json::List(list))->0;
            let at = |i: int, n: int|
                i < list@.len() && (list@[i] matches Json::Number(v) && v.integer == Some(n as i128)
                    && i128::MIN <= n <= i128::MAX);
            &&& list@.len() <= 10
            &&& at(0, n) ==> s.bt_listen_port == n
            &&& at(1, n) ==> s.bt_upload_kbps == n
            &&& at(2, n) ==> s.bt_download_kbps == n
            &&& at(3, n) ==> s.bt_peer_limit == n
            &&& at(4, n) ==> s.max_concurrent_downloads == n
            &&& at(6, n) ==> s.rss_interval_minutes == n
            &&& 5 < list@.len() ==> list@[5] == Json::Bool(s.stop_seeding_on_complete)
            &&& 8 < list@.len() ==> list@[8] == Json::Bool(s.autostart)
            &&& 9 < list@.len() ==> list@[9] == Json::Bool(s.close_to_tray)
            &&& list@.len() <= 3 ==> s.bt_peer_limit == 256
            &&& list@.len() <= 6 ==> s.rss_interval_minutes == 15
            &&& list@.len() <= 5 ==> s.stop_seeding_on_complete
            &&& list@.len() <= 8 ==> !s.autostart
            &&& list@.len() <= 9 ==> s.close_to_tray
        }),
{
}

/// Settings are written with one member for each of them, under its name.
pub proof fn law_settings_are_written_by_name()
    ensures
        settings_names() == seq![
            "btListenPort"@,
            "btUploadKbps"@,
            "btDownloadKbps"@,
            "btPeerLimit"@,
            "maxConcurrentDownloads"@,
            "stopSeedingOnComplete"@,
            "rssIntervalMinutes"@,
            "downloadDir"@,
            "autostart"@,
            "closeToTray"@,
        ],
{
}

} // verus!
