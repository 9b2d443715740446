//! The download engine: its options, trackers, what is handed to it, and the names of the files
//! that it writes. Paths are read as on Windows.

use crate::links::{canonical_download_source_key, source_key};
use crate::settings::{AppSettings, SettingsView, kbps_to_bps, rate_limit};
use crate::text::{
    ascii_lower, ascii_lower_chars, chars_of, lines, lines_of, same_chars, slice_to_vec,
    starts_with, string_of, texts, trim_chars, trimmed,
};
use vstd::prelude::*;
use vstd::slice::slice_subrange;

verus! {

/// Whether a character separates the parts of a path.
pub open spec fn is_separator(c: char) -> bool {
    c == '/' || c == '\\'
}

/// Whether a character separates the parts of a path. In a path that is read as it stands
/// only the backslash does.
pub open spec fn separates(c: char, verbatim: bool) -> bool {
    c == '\\' || !verbatim && c == '/'
}

/// Whether a character is an ASCII letter.
pub open spec fn is_letter(c: char) -> bool {
    ('a' <= c && c <= 'z') || ('A' <= c && c <= 'Z')
}

/// Whether a path is read as it stands: one that begins with `\\?\`.
pub open spec fn is_verbatim(path: Seq<char>) -> bool {
    path.len() >= 4 && path[0] == '\\' && path[1] == '\\' && path[2] == '?' && path[3] == '\\'
}

/// Where the part of a path that begins at a place ends: at the next separator, or with the
/// path.
pub open spec fn part_end(path: Seq<char>, from: int, verbatim: bool) -> int
    decreases path.len() - from,
{
    if from < 0 || from >= path.len() {
        path.len() as int
    } else if separates(path[from], verbatim) {
        from
    } else {
        part_end(path, from + 1, verbatim)
    }
}

/// Where the name of a share ends that follows the name of a server from a place on. A path
/// that names no share ends this prefix with the server.
pub open spec fn share_end(path: Seq<char>, from: int, verbatim: bool) -> int {
    let server = part_end(path, from, verbatim);
    let share = part_end(path, server + 1, verbatim);
    if share > server + 1 {
        share
    } else {
        server
    }
}

/// How long the prefix of a path is, which names a drive, a device or a share: `C:`,
/// `\\.\device`, `\\server\share`, and with `\\?\` before them `C:`, `UNC\server\share`
/// or any one part.
pub open spec fn prefix_len(path: Seq<char>) -> int {
    if is_verbatim(path) {
        if path.len() >= 8 && path[4] == 'U' && path[5] == 'N' && path[6] == 'C' && is_separator(
            path[7],
        ) {
            share_end(path, 8, true)
        } else if path.len() >= 6 && is_letter(path[4]) && path[5] == ':' && (path.len() == 6
            || is_separator(path[6])) {
            6
        } else {
            part_end(path, 4, true)
        }
    } else if path.len() >= 2 && is_separator(path[0]) && is_separator(path[1]) {
        if path.len() >= 4 && path[2] == '.' && is_separator(path[3]) {
            part_end(path, 4, false)
        } else if part_end(path, 2, false) > 2 && share_end(path, 2, false) > part_end(
            path,
            2,
            false,
        ) {
            share_end(path, 2, false)
        } else {
            0
        }
    } else if path.len() >= 2 && is_letter(path[0]) && path[1] == ':' {
        2
    } else {
        0
    }
}

/// A path without the separators, and the parts that only say `.`, at its end. In a path that
/// is read as it stands such a part counts.
pub open spec fn without_trailing(path: Seq<char>, verbatim: bool) -> Seq<char>
    decreases path.len(),
{
    if path.len() > 0 && separates(path.last(), verbatim) {
        without_trailing(path.drop_last(), verbatim)
    } else if !verbatim && path.len() > 1 && path.last() == '.' && is_separator(
        path[path.len() - 2],
    ) {
        without_trailing(path.drop_last(), verbatim)
    } else {
        path
    }
}

/// The place behind the last separator of a path.
pub open spec fn name_start(path: Seq<char>, verbatim: bool) -> int
    decreases path.len(),
{
    if path.len() == 0 || separates(path.last(), verbatim) {
        path.len() as int
    } else {
        name_start(path.drop_last(), verbatim)
    }
}

/// The last part of a path behind its prefix. The parts `.` and `..` are no names.
pub open spec fn file_name_of(path: Seq<char>) -> Option<Seq<char>> {
    let verbatim = is_verbatim(path);
    let whole = without_trailing(path.skip(prefix_len(path)), verbatim);
    let name = whole.skip(name_start(whole, verbatim));
    if name.len() == 0 || name == seq!['.'] || name == seq!['.', '.'] {
        None
    } else {
        Some(name)
    }
}

/// The extension of a file name: what follows its last dot, unless that is its first
/// character.
pub open spec fn extension_of(name: Seq<char>) -> Option<Seq<char>> {
    match crate::text::last_before(name, '.', name.len() as int) {
        Some(k) => if k > 0 {
            Some(name.skip(k + 1))
        } else {
            None
        },
        None => None,
    }
}

/// The extensions of video files.
pub open spec fn is_video_extension(extension: Seq<char>) -> bool {
    let e = ascii_lower(extension);
    e == "mkv"@ || e == "mp4"@ || e == "webm"@ || e == "avi"@ || e == "mov"@ || e == "m4v"@ || e
        == "ts"@
}

/// Whether a path names a video file, by the extension of its last part in letters of any
/// case. Paths are read as on Windows.
pub open spec fn names_video(path: Seq<char>) -> bool {
    file_name_of(path) matches Some(name) && extension_of(name) matches Some(e)
        && is_video_extension(e)
}

/// Whether a character separates the parts of a path.
fn is_sep(c: char, verbatim: bool) -> (r: bool)
    ensures
        r == separates(c, verbatim),
{
    c == '\\' || !verbatim && c == '/'
}

/// Where the part of a path that begins at a place ends.
fn find_part_end(path: &[char], from: usize, verbatim: bool) -> (end: usize)
    requires
        from <= path@.len(),
    ensures
        end == part_end(path@, from as int, verbatim),
        from <= end <= path@.len(),
{
    let mut end: usize = from;
    while end < path.len() && !is_sep(path[end], verbatim)
        invariant
            from <= end <= path@.len(),
            part_end(path@, from as int, verbatim) == part_end(path@, end as int, verbatim),
        decreases path@.len() - end,
    {
        end = end + 1;
    }
    end
}

/// Where the name of a share ends that follows the name of a server.
fn find_share_end(path: &[char], from: usize, verbatim: bool) -> (end: usize)
    requires
        from <= path@.len(),
    ensures
        end == share_end(path@, from as int, verbatim),
        from <= end <= path@.len(),
{
    let server: usize = find_part_end(path, from, verbatim);
    if server == path.len() {
        return server;
    }
    let share: usize = find_part_end(path, server + 1, verbatim);
    if share > server + 1 {
        share
    } else {
        server
    }
}

/// Whether a character is an ASCII letter.
pub(crate) fn letter(c: char) -> (r: bool)
    ensures
        r == is_letter(c),
{
    ('a' <= c && c <= 'z') || ('A' <= c && c <= 'Z')
}

/// How long the prefix of a path is.
fn find_prefix(path: &[char], verbatim: bool) -> (end: usize)
    requires
        verbatim == is_verbatim(path@),
    ensures
        end == prefix_len(path@),
        end <= path@.len(),
{
    let n: usize = path.len();
    if verbatim {
        if n >= 8 && path[4] == 'U' && path[5] == 'N' && path[6] == 'C' && is_sep(path[7], false) {
            find_share_end(path, 8, true)
        } else if n >= 6 && letter(path[4]) && path[5] == ':' && (n == 6 || is_sep(
            path[6],
            false,
        )) {
            6
        } else {
            find_part_end(path, 4, true)
        }
    } else if n >= 2 && is_sep(path[0], false) && is_sep(path[1], false) {
        if n >= 4 && path[2] == '.' && is_sep(path[3], false) {
            return find_part_end(path, 4, false);
        }
        let server: usize = find_part_end(path, 2, false);
        let share: usize = find_share_end(path, 2, false);
        if server > 2 && share > server {
            share
        } else {
            0
        }
    } else if n >= 2 && letter(path[0]) && path[1] == ':' {
        2
    } else {
        0
    }
}

/// The last part of a path behind its prefix.
pub fn file_name(path: &str) -> (name: Option<String>)
    ensures
        crate::text::opt_text(name) == file_name_of(path@),
{
    let all: Vec<char> = chars_of(path);
    let verbatim: bool = all.len() >= 4 && all[0] == '\\' && all[1] == '\\' && all[2] == '?'
        && all[3] == '\\';
    let prefix: usize = find_prefix(&all, verbatim);
    let chars: &[char] = slice_subrange(&all, prefix, all.len());
    let ghost rest = path@.skip(prefix as int);
    assert(chars@ =~= rest);
    let mut end: usize = chars.len();
    assert(chars@.take(end as int) =~= chars@);
    let mut more: bool = true;
    while more
        invariant
            chars@ == rest,
            end <= chars@.len(),
            without_trailing(rest, verbatim) == without_trailing(
                chars@.take(end as int),
                verbatim,
            ),
            !more ==> without_trailing(rest, verbatim) == chars@.take(end as int),
        decreases end + if more {
            1int
        } else {
            0int
        },
    {
        let ghost cut = chars@.take(end as int);
        if end > 0 && is_sep(chars[end - 1], verbatim) {
            assert(cut.drop_last() =~= chars@.take(end - 1));
            end = end - 1;
        } else if !verbatim && end > 1 && chars[end - 1] == '.' && is_sep(chars[end - 2], false) {
            assert(cut.drop_last() =~= chars@.take(end - 1));
            end = end - 1;
        } else {
            more = false;
        }
    }
    let ghost whole = chars@.take(end as int);
    let mut start: usize = end;
    assert(whole.take(end as int) =~= whole);
    while start > 0 && !is_sep(chars[start - 1], verbatim)
        invariant
            start <= end <= chars@.len(),
            whole == chars@.take(end as int),
            name_start(whole, verbatim) == name_start(whole.take(start as int), verbatim),
        decreases start,
    {
        assert(whole.take(start as int).drop_last() =~= whole.take(start - 1));
        start = start - 1;
    }
    let name: Vec<char> = slice_to_vec(slice_subrange(chars, start, end));
    assert(name@ =~= whole.skip(start as int));
    let dot: Vec<char> = vec!['.'];
    let dots: Vec<char> = vec!['.', '.'];
    assert(dot@ =~= seq!['.']);
    assert(dots@ =~= seq!['.', '.']);
    if name.len() == 0 || same_chars(&name, &dot) || same_chars(&name, &dots) {
        return None;
    }
    Some(string_of(&name))
}

/// Whether a path names a video file.
pub fn is_video_file(path: &str) -> (r: bool)
    ensures
        r == names_video(path@),
{
    let name: Vec<char> = match file_name(path) {
        Some(name) => chars_of(name.as_str()),
        None => {
            return false;
        },
    };
    let k: usize = match crate::text::rfind(&name, '.', name.len()) {
        Some(k) => k,
        None => {
            return false;
        },
    };
    if k == 0 {
        return false;
    }
    let extension: &[char] = slice_subrange(&name, k + 1, name.len());
    assert(extension@ =~= name@.skip(k + 1));
    let e: Vec<char> = ascii_lower_chars(extension);
    same_chars(&e, &chars_of("mkv")) || same_chars(&e, &chars_of("mp4")) || same_chars(
        &e,
        &chars_of("webm"),
    ) || same_chars(&e, &chars_of("avi")) || same_chars(&e, &chars_of("mov")) || same_chars(
        &e,
        &chars_of("m4v"),
    ) || same_chars(&e, &chars_of("ts"))
}

/// A drive before a path is no part of the name of its last part.
pub proof fn law_drives_are_no_part_of_names(drive: char, path: Seq<char>)
    requires
        is_letter(drive),
        prefix_len(path) == 0,
    ensures
        file_name_of(seq![drive, ':'] + path) == file_name_of(path),
        names_video(seq![drive, ':'] + path) == names_video(path),
{
    let whole = seq![drive, ':'] + path;
    if is_verbatim(path) {
        lemma_prefix_of_verbatim(path);
    }
    assert(whole.skip(2) =~= path);
    assert(path.skip(0) =~= path);
}

/// A path that is read as it stands has a prefix.
proof fn lemma_prefix_of_verbatim(path: Seq<char>)
    requires
        is_verbatim(path),
    ensures
        prefix_len(path) >= 4,
{
    lemma_part_end(path, 4, true);
    lemma_part_end(path, 8, true);
}

proof fn lemma_part_end(path: Seq<char>, from: int, verbatim: bool)
    requires
        0 <= from,
    ensures
        part_end(path, from, verbatim) <= path.len(),
        from <= path.len() ==> from <= part_end(path, from, verbatim),
    decreases path.len() - from,
{
    if from < path.len() && !separates(path[from], verbatim) {
        lemma_part_end(path, from + 1, verbatim);
    }
}

/// The options of the engine: it accepts connections on a port, over both transports, and
/// asks the router to forward the port. A port of zero is any port and is not announced.
#[derive(Debug, Clone, Copy, PartialEq, Eq, Structural)]
pub struct SessionPlan {
    pub tcp_and_utp: bool,
    pub forward_port: bool,
    pub listen_port: u16,
    pub announce_port: Option<u16>,
    pub peer_limit: usize,
    pub upload_bps: Option<u32>,
    pub download_bps: Option<u32>,
}

/// The options of the engine for some settings.
pub open spec fn session_for(s: SettingsView) -> SessionPlan {
    SessionPlan {
        tcp_and_utp: true,
        forward_port: true,
        listen_port: s.bt_listen_port,
        announce_port: if s.bt_listen_port > 0 {
            Some(s.bt_listen_port)
        } else {
            None
        },
        peer_limit: s.bt_peer_limit as usize,
        upload_bps: rate_limit(s.bt_upload_kbps),
        download_bps: rate_limit(s.bt_download_kbps),
    }
}

/// The options of the engine for some settings.
pub fn torrent_session_options(settings: &AppSettings) -> (plan: SessionPlan)
    ensures
        plan == session_for(settings@),
{
    SessionPlan {
        tcp_and_utp: true,
        forward_port: true,
        listen_port: settings.bt_listen_port,
        announce_port: if settings.bt_listen_port > 0 {
            Some(settings.bt_listen_port)
        } else {
            None
        },
        peer_limit: settings.bt_peer_limit as usize,
        upload_bps: kbps_to_bps(settings.bt_upload_kbps),
        download_bps: kbps_to_bps(settings.bt_download_kbps),
    }
}

/// Where the list of public trackers is.
pub const TRACKERLIST_URL: &'static str = "https://cf.trackerslist.com/best.txt";

/// At most how many trackers of the list are used.
pub const MAX_TRACKERS: usize = 80;

/// Whether a line of the list names a tracker: it is neither blank nor a comment.
pub open spec fn names_tracker(line: Seq<char>) -> bool {
    trimmed(line).len() > 0 && trimmed(line)[0] != '#'
}

/// The trackers of some lines, at most eighty.
pub open spec fn trackers_in(lines: Seq<Seq<char>>) -> Seq<Seq<char>>
    decreases lines.len(),
{
    if lines.len() == 0 {
        Seq::empty()
    } else {
        let before = trackers_in(lines.drop_last());
        if before.len() < MAX_TRACKERS && names_tracker(lines.last()) {
            before.push(trimmed(lines.last()))
        } else {
            before
        }
    }
}

/// The trackers of a list: its lines without the blank ones and the comments, at most
/// eighty.
pub fn tracker_lines(text: &str) -> (trackers: Vec<String>)
    ensures
        texts(trackers@) == trackers_in(lines_of(text@)),
        trackers@.len() <= MAX_TRACKERS,
{
    let chars: Vec<char> = chars_of(text);
    let all: Vec<Vec<char>> = lines(&chars);
    let ghost rows = lines_of(text@);
    let mut trackers: Vec<String> = Vec::new();
    assert(texts(trackers@) =~= trackers_in(rows.take(0)));
    for i in 0..all.len()
        invariant
            rows == all@.map_values(|line: Vec<char>| line@),
            trackers@.len() <= MAX_TRACKERS,
            texts(trackers@) == trackers_in(rows.take(i as int)),
    {
        assert(rows.take(i + 1).drop_last() =~= rows.take(i as int));
        assert(rows.take(i + 1).last() == all@[i as int]@);
        let ghost before = trackers@;
        let line: Vec<char> = trim_chars(&all[i]);
        if trackers.len() < MAX_TRACKERS && line.len() > 0 && line[0] != '#' {
            trackers.push(string_of(&line));
            assert(texts(trackers@) =~= texts(before).push(line@));
        }
    }
    assert(rows.take(rows.len() as int) =~= rows);
    trackers
}

/// The key by which two sources of the same download are recognised.
pub fn download_source_key(source: &str) -> (key: String)
    ensures
        key@ == source_key(source@),
{
    canonical_download_source_key(source)
}

/// The largest torrent file that is accepted, in bytes.
pub const MAX_TORRENT_BYTES: usize = 20971520;

/// What is wrong with the bytes of a torrent file, if anything: it is a dictionary, and not
/// too large.
pub open spec fn torrent_fault(bytes: Seq<u8>) -> Option<Seq<char>> {
    if bytes.len() == 0 {
        Some("种子文件为空"@)
    } else if bytes.len() > MAX_TORRENT_BYTES {
        Some("种子文件超过 20 MB，已拒绝加载"@)
    } else if bytes[0] != 100 {
        Some("订阅地址返回的不是有效 .torrent 文件"@)
    } else {
        None
    }
}

/// Whether the bytes of a torrent file are accepted.
pub fn check_torrent_bytes(bytes: &[u8]) -> (r: Result<(), String>)
    ensures
        match r {
            Ok(_) => torrent_fault(bytes@) is None,
            Err(e) => torrent_fault(bytes@) == Some(e@),
        },
{
    if bytes.len() == 0 {
        return Err("种子文件为空".to_owned());
    }
    if bytes.len() > MAX_TORRENT_BYTES {
        return Err("种子文件超过 20 MB，已拒绝加载".to_owned());
    }
    if bytes[0] != 100 {
        return Err("订阅地址返回的不是有效 .torrent 文件".to_owned());
    }
    Ok(())
}

/// Whether a source is a magnet link, which the engine reads itself.
pub open spec fn read_by_engine(source: Seq<char>) -> bool {
    "magnet:"@.is_prefix_of(source)
}

/// Whether a source is a magnet link, which the engine reads itself; any other source is
/// loaded as a torrent file first.
pub fn is_magnet_source(source: &str) -> (r: bool)
    ensures
        r == read_by_engine(source@),
{
    starts_with(source, "magnet:")
}

/// How a torrent is added to the engine. Files that are there are opened and checked, so that
/// the download goes on where it stood.
#[derive(Debug)]
pub struct AddPlan {
    pub overwrite: bool,
    pub paused: bool,
    pub output_folder: String,
    pub trackers: Option<Vec<String>>,
}

/// Whether trackers are handed to the engine with a source.
pub open spec fn hands_trackers(source: Seq<char>, count: nat) -> bool {
    !read_by_engine(source) && count > 0
}

/// The trackers that are handed to the engine with a source. A magnet link names its trackers
/// itself; for another source they are handed over where there are any.
pub fn extra_trackers(source: &str, trackers: &Vec<String>) -> (r: Option<Vec<String>>)
    ensures
        match r {
            Some(list) => hands_trackers(source@, trackers@.len()) && list@ == trackers@,
            None => !hands_trackers(source@, trackers@.len()),
        },
{
    if !starts_with(source, "magnet:") && trackers.len() > 0 {
        Some(crate::text::copy_texts(trackers))
    } else {
        None
    }
}

/// Whether the engine is to add a download to a folder, over the files that are there, paused or
/// not, and with the given trackers.
pub open spec fn added_with(
    plan: AddPlan,
    paused: bool,
    folder: Seq<char>,
    trackers: Option<Vec<String>>,
) -> bool {
    &&& plan.overwrite
    &&& plan.paused == paused
    &&& plan.output_folder@ == folder
    &&& plan.trackers == trackers
}

/// How a torrent is added to the engine.
pub fn add_torrent_options(paused: bool, output_dir: &str, trackers: Option<Vec<String>>) -> (plan:
    AddPlan)
    ensures
        added_with(plan, paused, output_dir@, trackers),
{
    AddPlan { overwrite: true, paused, output_folder: output_dir.to_owned(), trackers }
}

} // verus!
