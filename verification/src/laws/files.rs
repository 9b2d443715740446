//! What holds of files: the parts and names of paths, which files are videos, which are removed and
//! which are played.

use crate::bt::{
    extension_of, file_name_of, is_separator, is_verbatim, is_video_extension, name_start,
    names_video, part_end, prefix_len, share_end, without_trailing,
};
use crate::files::{
    Resolution, above_some, components_of, file_fault, files_inside, largest, lies_above, list_fault,
    playback_names, pruned_in_order, stays_below, videos_among, videos_by_name,
};
use crate::laws::records::names_each_once;
use crate::models::StoredFileInfo;
use crate::order::text_lt;
use crate::text::{ascii_lower, last_before};
use vstd::prelude::*;

verus! {

/// Whether a text is the name of a part of a path: not empty, without separators, and neither of
/// the two that stand for a place.
pub open spec fn is_part_name(name: Seq<char>) -> bool {
    &&& name.len() > 0
    &&& name != seq!['.']
    &&& name != seq!['.', '.']
    &&& forall|i: int| 0 <= i < name.len() ==> #[trigger] name[i] != '/' && name[i] != '\\'
}

proof fn lemma_name_start(path: Seq<char>, name: Seq<char>, sep: char)
    requires
        sep == '/' || sep == '\\',
        forall|i: int| 0 <= i < name.len() ==> #[trigger] name[i] != '/' && name[i] != '\\',
    ensures
        name_start(path.push(sep) + name, false) == path.len() + 1,
    decreases name.len(),
{
    let all = path.push(sep) + name;
    if name.len() == 0 {
        assert(all =~= path.push(sep));
    } else {
        assert(all.last() == name[name.len() - 1]);
        assert(all.drop_last() =~= path.push(sep) + name.drop_last());
        assert forall|i: int| 0 <= i < name.drop_last().len() implies #[trigger] name.drop_last()[i]
            != '/' && name.drop_last()[i] != '\\' by {
            assert(name[i] == name.drop_last()[i]);
        }
        lemma_name_start(path, name.drop_last(), sep);
    }
}

/// The parts of a path are the names between its separators, of which there are two; a separator
/// at its end and parts that only say `.` add nothing.
pub proof fn law_parts_stand_between_separators(path: Seq<char>, name: Seq<char>, sep: char)
    requires
        sep == '/' || sep == '\\',
        name.len() > 0,
        forall|i: int| 0 <= i < name.len() ==> #[trigger] name[i] != '/' && name[i] != '\\',
    ensures
        components_of(Seq::empty()).len() == 0,
        components_of(path.push(sep)) == components_of(path),
        name == seq!['.'] ==> components_of(path.push(sep) + name) == components_of(path),
        name != seq!['.'] ==> components_of(path.push(sep) + name) == components_of(path).push(name),
{
    lemma_name_start(path, name, sep);
    lemma_name_start(path, Seq::empty(), sep);
    let all = path.push(sep) + name;
    let k = path.len() as int;
    assert(path.push(sep) + Seq::<char>::empty() =~= path.push(sep));
    assert(path.push(sep).skip(k + 1).len() == 0);
    assert(path.push(sep).take(k) =~= path);
    assert(all.skip(k + 1) =~= name);
    assert(all.take(k) =~= path);
}

/// A path of a list stays below its folder exactly where it is not empty, begins neither with a
/// separator nor with a drive, and has no part that goes up.
pub proof fn law_paths_stay_below(path: Seq<char>)
    ensures
        ({
            let letter = path.len() > 0 && ('a' <= path[0] && path[0] <= 'z' || 'A' <= path[0]
                && path[0] <= 'Z');
            stays_below(path) <==> path.len() > 0 && path[0] != '/' && path[0] != '\\' && !(letter
                && path.len() >= 2 && path[1] == ':') && forall|i: int|
                0 <= i < components_of(path).len() ==> #[trigger] components_of(path)[i] != seq![
                    '.',
                    '.',
                ]
        }),
{
    let parts = components_of(path);
    let up = seq!['.', '.'];
    if parts.contains(up) {
        let i = choose|i: int| 0 <= i < parts.len() && parts[i] == up;
        assert(parts[i] == up);
    }
}

/// A file of a list can be removed where its path stays below the folder and it lies there, or
/// nowhere any more; otherwise the reason is told.
pub proof fn law_files_must_lie_below(path: Seq<char>, reason: String)
    ensures
        !stays_below(path) ==> file_fault(path, Resolution::Inside) == Some(
            "文件清单含无效路径，任务已保留。"@,
        ),
        stays_below(path) ==> file_fault(path, Resolution::Inside) is None,
        stays_below(path) ==> file_fault(path, Resolution::Missing) is None,
        stays_below(path) ==> file_fault(path, Resolution::Outside) == Some(
            "文件清单路径超出下载目录，任务已保留。"@,
        ),
        stays_below(path) ==> file_fault(path, Resolution::Failed(reason)) == Some(
            "无法验证文件路径，任务已保留："@ + reason@,
        ),
{
}

/// A list is spoiled by the first file with which something is wrong; of one that is not, the files
/// that are there are removed, in their order.
pub proof fn law_lists_are_checked_whole(
    files: Seq<StoredFileInfo>,
    places: Seq<Resolution>,
    file: StoredFileInfo,
    place: Resolution,
)
    requires
        places.len() == files.len(),
    ensures
        list_fault(Seq::empty(), places) is None,
        list_fault(files, places) is Some ==> list_fault(files.push(file), places.push(place))
            == list_fault(files, places),
        list_fault(files, places) is None ==> list_fault(files.push(file), places.push(place))
            == file_fault(file.relative_path@, place),
        files_inside(Seq::empty()).len() == 0,
        place is Inside ==> files_inside(places.push(place)) == files_inside(places).push(
            places.len() as int,
        ),
        !(place is Inside) ==> files_inside(places.push(place)) == files_inside(places),
{
    assert(files.push(file).drop_last() =~= files);
    assert(places.push(place).drop_last() =~= places);
    lemma_places(files, places, places.push(place));
}

proof fn lemma_places(files: Seq<StoredFileInfo>, a: Seq<Resolution>, b: Seq<Resolution>)
    requires
        files.len() <= a.len(),
        files.len() <= b.len(),
        forall|i: int| 0 <= i < files.len() ==> #[trigger] a[i] == b[i],
    ensures
        list_fault(files, a) == list_fault(files, b),
    decreases files.len(),
{
    if files.len() > 0 {
        lemma_places(files.drop_last(), a, b);
        assert(a[files.len() - 1] == b[files.len() - 1]);
    }
}

/// A folder lies above a file where its parts are the first of the file's, but not all of them.
pub proof fn law_folders_lie_above_files(dir: Seq<Seq<char>>, path: Seq<char>)
    ensures
        lies_above(dir, path) <==> 0 < dir.len() < components_of(path).len() && dir.is_prefix_of(
            components_of(path),
        ),
{
    let parts = components_of(path);
    if 0 < dir.len() < parts.len() {
        assert(parts.take(dir.len() as int) =~= parts.subrange(0, dir.len() as int));
    }
}

/// The extension of a name is what follows its last dot; a name without a dot, or with none but its
/// first character, has none.
pub proof fn law_extensions_follow_the_last_dot(stem: Seq<char>, extension: Seq<char>)
    requires
        !extension.contains('.'),
    ensures
        stem.len() > 0 ==> extension_of(stem.push('.') + extension) == Some(extension),
        extension_of(seq!['.'] + extension) is None,
        extension_of(extension) is None,
{
    let all = stem.push('.') + extension;
    lemma_last_dot(stem.push('.'), extension);
    assert(all.skip(stem.len() as int + 1) =~= extension);
    lemma_last_dot(seq!['.'], extension);
    lemma_no_dot(extension, extension.len() as int);
}

proof fn lemma_last_dot(head: Seq<char>, tail: Seq<char>)
    requires
        head.len() > 0,
        head.last() == '.',
        !tail.contains('.'),
    ensures
        last_before(head + tail, '.', (head + tail).len() as int) == Some(head.len() - 1),
{
    lemma_last_from(head, tail, (head + tail).len() as int);
}

proof fn lemma_last_from(head: Seq<char>, tail: Seq<char>, end: int)
    requires
        head.len() > 0,
        head.last() == '.',
        !tail.contains('.'),
        head.len() <= end <= (head + tail).len(),
    ensures
        last_before(head + tail, '.', end) == Some(head.len() - 1),
    decreases end,
{
    let all = head + tail;
    if end > head.len() {
        assert(all[end - 1] == tail[end - 1 - head.len()]);
        assert(tail.contains(tail[end - 1 - head.len()]));
        lemma_last_from(head, tail, end - 1);
    } else {
        assert(all[end - 1] == head.last());
    }
}

proof fn lemma_no_dot(s: Seq<char>, end: int)
    requires
        !s.contains('.'),
        0 <= end <= s.len(),
    ensures
        last_before(s, '.', end) is None,
    decreases end,
{
    if end > 0 {
        assert(s.contains(s[end - 1]));
        lemma_no_dot(s, end - 1);
    }
}

/// Seven extensions name videos, in letters of any case, and no others do.
pub proof fn law_videos_are_known_by_extension(extension: Seq<char>)
    ensures
        is_video_extension(extension) <==> {
            let e = ascii_lower(extension);
            ||| e == "mkv"@
            ||| e == "mp4"@
            ||| e == "webm"@
            ||| e == "avi"@
            ||| e == "mov"@
            ||| e == "m4v"@
            ||| e == "ts"@
        },
{
}

proof fn lemma_nothing_trailing(path: Seq<char>)
    requires
        path.len() > 0,
        !is_separator(path.last()),
        path.last() != '.' || (path.len() > 1 && !is_separator(path[path.len() - 2])),
    ensures
        without_trailing(path, false) == path,
{
}

proof fn lemma_name_behind(path: Seq<char>, name: Seq<char>)
    requires
        is_part_name(name),
        path.len() > 0 ==> is_separator(path.last()),
    ensures
        name_start(path + name, false) == path.len(),
    decreases name.len(),
{
    lemma_name_from(path, name, name.len() as int);
    assert(path + name.take(name.len() as int) =~= path + name);
}

proof fn lemma_name_from(path: Seq<char>, name: Seq<char>, n: int)
    requires
        is_part_name(name),
        path.len() > 0 ==> is_separator(path.last()),
        0 <= n <= name.len(),
    ensures
        name_start(path + name.take(n), false) == path.len(),
    decreases n,
{
    let all = path + name.take(n);
    if n == 0 {
        assert(all =~= path);
    } else {
        assert(all.last() == name[n - 1]);
        assert(all.drop_last() =~= path + name.take(n - 1));
        lemma_name_from(path, name, n - 1);
    }
}

/// The name of a file is the last part of its path, whatever separates it, and of a path of one
/// part that part. A path that ends with the part that goes up has no name.
pub proof fn law_names_are_last_parts(dir: Seq<char>, name: Seq<char>, sep: char)
    requires
        sep == '/' || sep == '\\',
        is_part_name(name),
        !is_verbatim(dir.push(sep) + name),
        prefix_len(dir.push(sep) + name) == 0,
        !is_verbatim(name),
        prefix_len(name) == 0,
    ensures
        file_name_of(dir.push(sep) + name) == Some(name),
        file_name_of(name) == Some(name),
        names_video(dir.push(sep) + name) == names_video(name),
        names_video(name) <==> extension_of(name) is Some && is_video_extension(
            extension_of(name)->0,
        ),
{
    let head = dir.push(sep);
    let all = head + name;
    let none = Seq::<char>::empty();
    assert(none + name =~= name);
    assert(all.skip(0) =~= all);
    assert(name.skip(0) =~= name);
    assert(all.last() == name[name.len() - 1]);
    assert(name.last() == name[name.len() - 1]);
    if name.last() == '.' {
        if name.len() == 1 {
            assert(name =~= seq!['.']);
        }
        assert(all[all.len() - 2] == name[name.len() - 2]);
    }
    lemma_nothing_trailing(all);
    lemma_nothing_trailing(name);
    lemma_name_behind(head, name);
    lemma_name_behind(none, name);
    assert(all.skip(head.len() as int) =~= name);
}

/// The largest video is found one file after the other: a video takes the place of the one before
/// it where it is at least as large, and no other file does.
pub proof fn law_the_largest_video_is_found(files: Seq<(Seq<char>, u64)>, path: Seq<char>, size: u64)
    ensures
        ({
            let before = largest(files);
            let after = largest(files.push((path, size)));
            &&& largest(Seq::empty()) is None
            &&& !names_video(path) ==> after == before
            &&& names_video(path) && before is None ==> after == Some(files.len() as int)
            &&& names_video(path) && before is Some && files[before->0].1 <= size ==> after == Some(
                files.len() as int,
            )
            &&& names_video(path) && before is Some && files[before->0].1 > size ==> after == before
        }),
{
    assert(files.push((path, size)).drop_last() =~= files);
    crate::files::law_largest_is_largest(files);
}

/// The files to play are the videos of the list, each with its place, its name, its size and its
/// full path.
pub proof fn law_videos_are_played(files: Seq<(Seq<char>, u64)>, paths: Seq<Seq<char>>, n: int)
    requires
        0 <= n < files.len(),
    ensures
        videos_among(files, paths, 0).len() == 0,
        !names_video(files[n].0) ==> videos_among(files, paths, n + 1) == videos_among(
            files,
            paths,
            n,
        ),
        names_video(files[n].0) ==> {
            let all = videos_among(files, paths, n + 1);
            let video = all.last();
            &&& all.len() == videos_among(files, paths, n).len() + 1
            &&& all.drop_last() == videos_among(files, paths, n)
            &&& video.index == n
            &&& video.size == files[n].1
            &&& video.path == paths[n]
            &&& file_name_of(files[n].0) matches Some(name) ==> video.name == name
            &&& file_name_of(files[n].0) is None ==> video.name == files[n].0
        },
{
    if names_video(files[n].0) {
        assert(videos_among(files, paths, n + 1).drop_last() =~= videos_among(files, paths, n));
    }
}

/// The files to play are shown in the order of their names, each of them once.
pub proof fn law_videos_are_shown_by_name(files: Seq<(Seq<char>, u64)>, paths: Seq<Seq<char>>)
    ensures
        ({
            let all = videos_among(files, paths, files.len() as int);
            let shown = videos_by_name(files, paths);
            exists|order: Seq<int>| #[trigger]
                names_each_once(order, all.len()) && shown == order.map_values(|i: int| all[i])
                    && forall|p: int, q: int|
                    0 <= p < q < all.len() ==> !text_lt(
                        all[#[trigger] order[q]].name,
                        all[#[trigger] order[p]].name,
                    )
        }),
{
    let all = videos_among(files, paths, files.len() as int);
    let keys = playback_names(all);
    let order = crate::order::ordered(keys, false);
    crate::laws::records::lemma_arranged(keys, false);
    assert forall|p: int, q: int| 0 <= p < q < all.len() implies !text_lt(
        all[#[trigger] order[q]].name,
        all[#[trigger] order[p]].name,
    ) by {
        assert(keys[order[p]] == all[order[p]].name);
        assert(keys[order[q]] == all[order[q]].name);
    }
    assert(names_each_once(order, all.len()));
}

/// Whether a text can name a server, a share or a device: it is not empty and holds no separator.
pub open spec fn is_part(s: Seq<char>) -> bool {
    s.len() > 0 && forall|i: int| 0 <= i < s.len() ==> #[trigger] s[i] != '/' && s[i] != '\\'
}

/// Whether a path goes on with a separator, or not at all.
pub open spec fn goes_on(rest: Seq<char>) -> bool {
    rest.len() == 0 || rest[0] == '\\'
}

proof fn lemma_part(a: Seq<char>, part: Seq<char>, rest: Seq<char>, verbatim: bool, from: int)
    requires
        is_part(part),
        goes_on(rest),
        a.len() <= from <= a.len() + part.len(),
    ensures
        part_end(a + part + rest, from, verbatim) == a.len() + part.len(),
    decreases a.len() + part.len() - from,
{
    let path = a + part + rest;
    if from < a.len() + part.len() {
        assert(path[from] == part[from - a.len()]);
        lemma_part(a, part, rest, verbatim, from + 1);
    } else if rest.len() > 0 {
        assert(path[from] == rest[0]);
    }
}

proof fn lemma_share(a: Seq<char>, server: Seq<char>, share: Seq<char>, rest: Seq<char>, v: bool)
    requires
        is_part(server),
        is_part(share),
        goes_on(rest),
    ensures
        ({
            let path = a + server + seq!['\\'] + share + rest;
            let n = (a.len() + server.len()) as int;
            &&& part_end(path, a.len() as int, v) == n
            &&& part_end(path, n + 1, v) == n + 1 + share.len()
            &&& share_end(path, a.len() as int, v) == n + 1 + share.len()
        }),
{
    let path = a + server + seq!['\\'] + share + rest;
    assert(path =~= a + server + (seq!['\\'] + share + rest));
    lemma_part(a, server, seq!['\\'] + share + rest, v, a.len() as int);
    let before = a + server + seq!['\\'];
    assert(path =~= before + share + rest);
    lemma_part(before, share, rest, v, before.len() as int);
}

/// The prefix of a path names a server and its share, a device, or a drive, also where the path is
/// read as it stands; what follows it is no part of it.
pub proof fn law_prefixes_name_shares_devices_and_drives(
    server: Seq<char>,
    share: Seq<char>,
    rest: Seq<char>,
    drive: char,
)
    requires
        is_part(server),
        is_part(share),
        goes_on(rest),
    ensures
        server != seq!['.'] && server != seq!['?'] ==> prefix_len(
            seq!['\\', '\\'] + server + seq!['\\'] + share + rest,
        ) == 3 + server.len() + share.len(),
        prefix_len(seq!['\\', '\\', '.', '\\'] + share + rest) == 4 + share.len(),
        prefix_len(
            seq!['\\', '\\', '?', '\\', 'U', 'N', 'C', '\\'] + server + seq!['\\'] + share + rest,
        ) == 9 + server.len() + share.len(),
        'a' <= drive <= 'z' || 'A' <= drive <= 'Z' ==> prefix_len(
            seq!['\\', '\\', '?', '\\', drive, ':'] + rest,
        ) == 6,
        'a' <= drive <= 'z' || 'A' <= drive <= 'Z' ==> prefix_len(seq![drive, ':'] + rest) == 2,
        rest.len() < 2 ==> prefix_len(rest) == 0,
        prefix_len(seq!['/'] + share) == 0,
{
    let two = seq!['\\', '\\'];
    let path = two + server + seq!['\\'] + share + rest;
    lemma_share(two, server, share, rest, false);
    if server != seq!['.'] && server != seq!['?'] {
        assert(path[2] == server[0]);
        assert(path[3] == if server.len() > 1 {
            server[1]
        } else {
            '\\'
        });
        if server.len() == 1 {
            if server[0] == '.' {
                assert(server =~= seq!['.']);
            }
            if server[0] == '?' {
                assert(server =~= seq!['?']);
            }
        }
    }
    let device = seq!['\\', '\\', '.', '\\'];
    lemma_part(device, share, rest, false, 4);
    let unc = seq!['\\', '\\', '?', '\\', 'U', 'N', 'C', '\\'];
    lemma_share(unc, server, share, rest, true);
    let verbatim = seq!['\\', '\\', '?', '\\', drive, ':'] + rest;
    assert(verbatim.len() > 6 ==> verbatim[6] == rest[0]);
    assert((seq!['/'] + share)[1] == share[0]);
}

/// A path that only says where it is, or goes up from there, names no file, with a drive or without.
pub proof fn law_places_are_no_names(drive: char, path: Seq<char>)
    requires
        'a' <= drive <= 'z' || 'A' <= drive <= 'Z',
        path == seq!['.'] || path == seq!['.', '.'],
    ensures
        file_name_of(path) is None,
        file_name_of(seq![drive, ':'] + path) is None,
{
    let whole = seq![drive, ':'] + path;
    assert(whole.skip(2) =~= path);
    assert(path.skip(0) =~= path);
    reveal_with_fuel(name_start, 3);
    assert(path.drop_last().drop_last().len() == 0 || path.len() == 1);
    assert(name_start(path, false) == 0);
}

/// The folders above the removed files are cleared, all of them and no others, each once, and none
/// before those that lie deeper.
pub proof fn law_folders_are_cleared_from_below(
    dirs: Seq<Seq<Seq<char>>>,
    paths: Seq<Seq<char>>,
    dir: Seq<Seq<char>>,
    i: int,
    j: int,
)
    requires
        pruned_in_order(dirs, paths),
    ensures
        dirs.contains(dir) <==> exists|k: int|
            0 <= k < paths.len() && dir.len() < components_of(#[trigger] paths[k]).len() && dir.len()
                > 0 && components_of(paths[k]).take(dir.len() as int) == dir,
        0 <= i < j < dirs.len() ==> dirs[i] != dirs[j] && dirs[i].len() >= dirs[j].len(),
{
    if above_some(dir, paths, paths.len() as int) {
        let k = choose|k: int| 0 <= k < paths.len() && #[trigger] lies_above(dir, paths[k]);
        assert(components_of(paths[k]).take(dir.len() as int) == dir);
    }
    if exists|k: int|
        0 <= k < paths.len() && dir.len() < components_of(#[trigger] paths[k]).len() && dir.len()
            > 0 && components_of(paths[k]).take(dir.len() as int) == dir {
        let k = choose|k: int|
            0 <= k < paths.len() && dir.len() < components_of(#[trigger] paths[k]).len()
                && dir.len() > 0 && components_of(paths[k]).take(dir.len() as int) == dir;
        assert(lies_above(dir, paths[k]));
    }
}

} // verus!
