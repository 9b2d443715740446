//! The files of a download: which of them can be played, and how they are removed without
//! touching anything else. Paths are read as on Windows: both slashes separate, and a letter
//! with a colon names a drive.

use crate::bt::{
    file_name, file_name_of, is_letter, is_separator, is_video_file, letter, name_start, names_video,
};
use crate::models::{StoredFileInfo, stored_files};
use crate::order::{order_by, ordered, sorted_rows};
use crate::rows::views;
use crate::text::{append, chars_of, join, joined, same_chars, slice_to_vec, string_of, texts};
use vstd::prelude::*;
use vstd::slice::slice_subrange;

verus! {

/// The parts of a path, without those that only say `.`.
pub open spec fn components_of(path: Seq<char>) -> Seq<Seq<char>>
    decreases path.len(),
{
    if path.len() == 0 {
        Seq::empty()
    } else {
        let k = name_start(path, false);
        let name = path.skip(k);
        let before = if 0 < k <= path.len() {
            components_of(path.take(k - 1))
        } else {
            Seq::empty()
        };
        if name.len() == 0 || name == seq!['.'] {
            before
        } else {
            before.push(name)
        }
    }
}

proof fn lemma_name_start(path: Seq<char>)
    ensures
        0 <= name_start(path, false) <= path.len(),
        forall|i: int| name_start(path, false) <= i < path.len() ==> !is_separator(#[trigger] path[i]),
        name_start(path, false) > 0 ==> is_separator(path[name_start(path, false) - 1]),
    decreases path.len(),
{
    if path.len() > 0 && !is_separator(path.last()) {
        lemma_name_start(path.drop_last());
        let k = name_start(path, false);
        assert forall|i: int| k <= i < path.len() implies !is_separator(#[trigger] path[i]) by {
            if i < path.len() - 1 {
                assert(path.drop_last()[i] == path[i]);
            }
        }
    }
}

/// The parts of a path, without those that only say `.`.
pub fn components(path: &str) -> (parts: Vec<String>)
    ensures
        texts(parts@) == components_of(path@),
{
    let chars: Vec<char> = chars_of(path);
    let dot: Vec<char> = vec!['.'];
    assert(dot@ =~= seq!['.']);
    let mut backwards: Vec<String> = Vec::new();
    let mut end: usize = chars.len();
    let mut more: bool = true;
    assert(chars@.take(end as int) =~= chars@);
    assert(components_of(chars@) + texts(backwards@).reverse() =~= components_of(path@));
    while more && end > 0
        invariant
            chars@ == path@,
            dot@ == seq!['.'],
            end <= chars@.len(),
            (if more {
                components_of(chars@.take(end as int))
            } else {
                Seq::empty()
            }) + texts(backwards@).reverse() == components_of(path@),
        decreases end + if more {
            1int
        } else {
            0int
        },
    {
        let ghost cut = chars@.take(end as int);
        let ghost collected = texts(backwards@);
        proof {
            lemma_name_start(cut);
        }
        let mut start: usize = end;
        assert(cut.take(end as int) =~= cut);
        while start > 0 && chars[start - 1] != '/' && chars[start - 1] != '\\'
            invariant
                start <= end <= chars@.len(),
                cut == chars@.take(end as int),
                name_start(cut, false) == name_start(cut.take(start as int), false),
            decreases start,
        {
            assert(cut.take(start as int).drop_last() =~= cut.take(start - 1));
            start = start - 1;
        }
        assert(name_start(cut, false) == start);
        let name: Vec<char> = slice_to_vec(slice_subrange(&chars, start, end));
        assert(name@ =~= cut.skip(start as int));
        if name.len() > 0 && !same_chars(&name, &dot) {
            backwards.push(string_of(&name));
            assert(texts(backwards@) =~= collected.push(name@));
            assert(texts(backwards@).reverse() =~= seq![name@] + collected.reverse());
        }
        if start > 0 {
            assert(cut.take(start - 1) =~= chars@.take(start - 1));
            end = start - 1;
        } else {
            more = false;
        }
        proof {
            let rest = if start > 0 {
                components_of(cut.take(start - 1))
            } else {
                Seq::<Seq<char>>::empty()
            };
            if name@.len() == 0 || name@ == seq!['.'] {
                assert(components_of(cut) == rest);
            } else {
                assert(components_of(cut) == rest.push(name@));
                assert(rest.push(name@) + collected.reverse() =~= rest + (seq![name@]
                    + collected.reverse()));
            }
        }
    }
    assert(chars@.take(0) =~= Seq::<char>::empty());
    assert(texts(backwards@).reverse() =~= components_of(path@));
    let mut parts: Vec<String> = Vec::new();
    let mut i: usize = backwards.len();
    while i > 0
        invariant
            i <= backwards@.len(),
            parts@.len() == backwards@.len() - i,
            forall|j: int|
                0 <= j < parts@.len() ==> #[trigger] parts@[j] == backwards@[backwards@.len() - 1
                    - j],
        decreases i,
    {
        i = i - 1;
        parts.push(backwards[i].clone());
    }
    assert(texts(parts@) =~= texts(backwards@).reverse());
    parts
}

/// Whether a path of a list of files stays below the directory that it is joined to: it is
/// not empty, begins neither at the root nor on a drive, and never goes up.
pub open spec fn stays_below(path: Seq<char>) -> bool {
    &&& path.len() > 0
    &&& !is_separator(path[0])
    &&& !(path.len() >= 2 && path[1] == ':' && is_letter(path[0]))
    &&& !components_of(path).contains(seq!['.', '.'])
}

/// Whether a path of a list of files stays below the directory that it is joined to.
pub fn path_is_safe(path: &str) -> (r: bool)
    ensures
        r == stays_below(path@),
{
    let chars: Vec<char> = chars_of(path);
    if chars.len() == 0 || chars[0] == '/' || chars[0] == '\\' {
        return false;
    }
    if chars.len() >= 2 && chars[1] == ':' && letter(chars[0]) {
        return false;
    }
    let parts: Vec<String> = components(path);
    let dots: Vec<char> = vec!['.', '.'];
    assert(dots@ =~= seq!['.', '.']);
    for i in 0..parts.len()
        invariant
            texts(parts@) == components_of(path@),
            dots@ == seq!['.', '.'],
            forall|j: int| 0 <= j < i ==> #[trigger] texts(parts@)[j] != seq!['.', '.'],
    {
        assert(texts(parts@)[i as int] == parts@[i as int]@);
        if same_chars(&chars_of(parts[i].as_str()), &dots) {
            assert(components_of(path@).contains(seq!['.', '.']));
            return false;
        }
    }
    true
}

/// Where a file of a list lies: below the directory, elsewhere, nowhere, or it could not be
/// found out for a reason.
#[derive(Debug)]
pub enum Resolution {
    Inside,
    Outside,
    Missing,
    Failed(String),
}

/// What is wrong with a file of a list, if anything.
pub open spec fn file_fault(path: Seq<char>, place: Resolution) -> Option<Seq<char>> {
    if !stays_below(path) {
        Some("文件清单含无效路径，任务已保留。"@)
    } else {
        match place {
            Resolution::Outside => Some("文件清单路径超出下载目录，任务已保留。"@),
            Resolution::Failed(reason) => Some("无法验证文件路径，任务已保留："@ + reason@),
            _ => None,
        }
    }
}

/// What is wrong with the first file of a list that something is wrong with.
pub open spec fn list_fault(files: Seq<StoredFileInfo>, places: Seq<Resolution>) -> Option<
    Seq<char>,
>
    decreases files.len(),
{
    if files.len() == 0 {
        None
    } else {
        match list_fault(files.drop_last(), places) {
            Some(fault) => Some(fault),
            None => file_fault(files.last().relative_path@, places[files.len() - 1]),
        }
    }
}

/// The places in a list of the files that are there.
pub open spec fn files_inside(places: Seq<Resolution>) -> Seq<int>
    decreases places.len(),
{
    if places.len() == 0 {
        Seq::empty()
    } else {
        let before = files_inside(places.drop_last());
        if places.last() is Inside {
            before.push(places.len() - 1)
        } else {
            before
        }
    }
}

/// The files of a list that are removed. The whole list is checked before anything is: one
/// path that leads elsewhere spoils it.
pub fn manifest_targets(files: &Vec<StoredFileInfo>, places: &Vec<Resolution>) -> (r: Result<
    Vec<usize>,
    String,
>)
    requires
        places@.len() == files@.len(),
    ensures
        match r {
            Ok(targets) => list_fault(files@, places@) is None && targets@.map_values(
                |i: usize| i as int,
            ) == files_inside(places@),
            Err(e) => list_fault(files@, places@) == Some(e@),
        },
        r matches Ok(targets) ==> forall|k: int|
            0 <= k < targets@.len() ==> #[trigger] targets@[k] < files@.len(),
{
    let mut targets: Vec<usize> = Vec::new();
    assert(files@.take(0) =~= Seq::<StoredFileInfo>::empty());
    assert(targets@.map_values(|i: usize| i as int) =~= files_inside(places@.take(0)));
    for i in 0..files.len()
        invariant
            places@.len() == files@.len(),
            list_fault(files@.take(i as int), places@) is None,
            targets@.map_values(|i: usize| i as int) == files_inside(places@.take(i as int)),
            forall|k: int| 0 <= k < targets@.len() ==> #[trigger] targets@[k] < i,
    {
        assert(files@.take(i + 1).drop_last() =~= files@.take(i as int));
        assert(places@.take(i + 1).drop_last() =~= places@.take(i as int));
        let ghost before = targets@;
        let fault: Option<String> = if !path_is_safe(files[i].relative_path.as_str()) {
            Some("文件清单含无效路径，任务已保留。".to_owned())
        } else {
            match &places[i] {
                Resolution::Inside => {
                    targets.push(i);
                    assert(targets@.map_values(|i: usize| i as int) =~= before.map_values(
                        |i: usize| i as int,
                    ).push(i as int));
                    None
                },
                Resolution::Missing => None,
                Resolution::Outside => Some(
                    "文件清单路径超出下载目录，任务已保留。".to_owned(),
                ),
                Resolution::Failed(reason) => {
                    let mut e: String = "无法验证文件路径，任务已保留：".to_owned();
                    append(&mut e, reason.as_str());
                    Some(e)
                },
            }
        };
        if let Some(e) = fault {
            proof {
                assert(list_fault(files@.take(i + 1), places@) == Some(e@));
                lemma_fault_stays(files@, places@, i + 1);
            }
            return Err(e);
        }
    }
    assert(files@.take(files@.len() as int) =~= files@);
    assert(places@.take(places@.len() as int) =~= places@);
    Ok(targets)
}

proof fn lemma_fault_stays(files: Seq<StoredFileInfo>, places: Seq<Resolution>, n: int)
    requires
        0 <= n <= files.len(),
        list_fault(files.take(n), places) is Some,
    ensures
        list_fault(files, places) == list_fault(files.take(n), places),
    decreases files.len(),
{
    if n < files.len() {
        assert(files.drop_last().take(n) =~= files.take(n));
        lemma_fault_stays(files.drop_last(), places, n);
    } else {
        assert(files.take(n) =~= files);
    }
}

/// Where nothing is wrong with a list, every path of it stays below the directory and no file
/// lies elsewhere.
pub proof fn law_removed_files_lie_below(
    files: Seq<StoredFileInfo>,
    places: Seq<Resolution>,
    k: int,
)
    requires
        places.len() == files.len(),
        list_fault(files, places) is None,
        0 <= k < files.len(),
    ensures
        stays_below(files[k].relative_path@),
        !(places[k] is Outside),
    decreases files.len(),
{
    let rest = files.drop_last();
    if k < rest.len() {
        lemma_fault_prefix(files, places, rest.len() as int);
        assert(files.take(rest.len() as int) =~= rest);
        lemma_fault_places(rest, places, places.take(rest.len() as int));
        law_removed_files_lie_below(rest, places.take(rest.len() as int), k);
    }
}

proof fn lemma_fault_prefix(files: Seq<StoredFileInfo>, places: Seq<Resolution>, n: int)
    requires
        0 <= n <= files.len(),
        list_fault(files, places) is None,
    ensures
        list_fault(files.take(n), places) is None,
{
    if list_fault(files.take(n), places) is Some {
        lemma_fault_stays(files, places, n);
    }
}

proof fn lemma_fault_places(
    files: Seq<StoredFileInfo>,
    a: Seq<Resolution>,
    b: Seq<Resolution>,
)
    requires
        a.len() >= files.len(),
        b.len() >= files.len(),
        forall|i: int| 0 <= i < files.len() ==> #[trigger] a[i] == b[i],
    ensures
        list_fault(files, a) == list_fault(files, b),
    decreases files.len(),
{
    if files.len() > 0 {
        assert(a[files.len() - 1] == b[files.len() - 1]);
        lemma_fault_places(files.drop_last(), a, b);
    }
}

/// What is said once files were removed: nothing where all are gone, else what stayed and why.
pub open spec fn removal_told(
    failures: Seq<Seq<char>>,
    r: Result<(), String>,
) -> bool {
    match r {
        Ok(_) => failures.len() == 0,
        Err(e) => failures.len() > 0 && e@
            == "部分文件删除失败，任务和文件清单已保留以便重试：\n"@ + joined(
            failures,
            "\n"@,
        ),
    }
}

/// What is told after the files of a download were removed: nothing, or which could not be.
pub fn removal_result(failures: &Vec<String>) -> (r: Result<(), String>)
    ensures
        removal_told(texts(failures@), r),
{
    if failures.len() == 0 {
        return Ok(());
    }
    let mut e: String = "部分文件删除失败，任务和文件清单已保留以便重试：\n".to_owned();
    append(&mut e, join(failures, "\n").as_str());
    Err(e)
}

/// Directories as lists of their parts.
pub open spec fn dirs_view(dirs: Seq<Vec<String>>) -> Seq<Seq<Seq<char>>> {
    dirs.map_values(|d: Vec<String>| texts(d@))
}

/// Whether a directory, given by its parts, lies above a file and below the common directory.
pub open spec fn lies_above(dir: Seq<Seq<char>>, path: Seq<char>) -> bool {
    let parts = components_of(path);
    0 < dir.len() < parts.len() && dir == parts.take(dir.len() as int)
}

/// Whether a directory lies above one of the first `n` files.
pub open spec fn above_some(dir: Seq<Seq<char>>, paths: Seq<Seq<char>>, n: int) -> bool {
    exists|i: int| 0 <= i < n && #[trigger] lies_above(dir, paths[i])
}

/// Whether a list of parts stands among others.
fn has_dir(dirs: &Vec<Vec<String>>, dir: &Vec<String>) -> (r: bool)
    ensures
        r == dirs_view(dirs@).contains(texts(dir@)),
{
    let ghost all = dirs_view(dirs@);
    for i in 0..dirs.len()
        invariant
            all == dirs_view(dirs@),
            forall|j: int| 0 <= j < i ==> #[trigger] all[j] != texts(dir@),
    {
        assert(all[i as int] == texts(dirs@[i as int]@));
        if same_texts(&dirs[i], dir) {
            return true;
        }
    }
    false
}

/// Whether two lists hold the same texts.
fn same_texts(a: &Vec<String>, b: &Vec<String>) -> (r: bool)
    ensures
        r == (texts(a@) == texts(b@)),
{
    if a.len() != b.len() {
        assert(texts(a@).len() != texts(b@).len());
        return false;
    }
    for i in 0..a.len()
        invariant
            a@.len() == b@.len(),
            forall|j: int| 0 <= j < i ==> #[trigger] texts(a@)[j] == texts(b@)[j],
    {
        if !crate::text::same(a[i].as_str(), b[i].as_str()) {
            assert(texts(a@)[i as int] != texts(b@)[i as int]);
            return false;
        }
    }
    assert(texts(a@) =~= texts(b@));
    true
}

/// The first parts of a list.
fn take_parts(parts: &Vec<String>, n: usize) -> (r: Vec<String>)
    requires
        n <= parts@.len(),
    ensures
        texts(r@) == texts(parts@).take(n as int),
{
    let mut r: Vec<String> = Vec::new();
    for i in 0..n
        invariant
            n <= parts@.len(),
            r@.len() == i,
            forall|j: int| 0 <= j < i ==> #[trigger] r@[j] == parts@[j],
    {
        r.push(parts[i].clone());
    }
    assert(texts(r@) =~= texts(parts@).take(n as int));
    r
}

/// The directories above removed files, each once.
fn collect_dirs(paths: &Vec<String>) -> (dirs: Vec<Vec<String>>)
    ensures
        forall|i: int, j: int|
            0 <= i < j < dirs@.len() ==> #[trigger] dirs_view(dirs@)[i]
                != #[trigger] dirs_view(dirs@)[j],
        forall|dir: Seq<Seq<char>>| #[trigger]
            dirs_view(dirs@).contains(dir) <==> above_some(
                dir,
                texts(paths@),
                paths@.len() as int,
            ),
{
    let ghost all = texts(paths@);
    let mut dirs: Vec<Vec<String>> = Vec::new();
    for i in 0..paths.len()
        invariant
            all == texts(paths@),
            forall|a: int, b: int|
                0 <= a < b < dirs@.len() ==> #[trigger] dirs_view(dirs@)[a]
                    != #[trigger] dirs_view(dirs@)[b],
            forall|dir: Seq<Seq<char>>| #[trigger]
                dirs_view(dirs@).contains(dir) <==> above_some(dir, all, i as int),
    {
        let parts: Vec<String> = components(paths[i].as_str());
        let ghost whole = components_of(all[i as int]);
        assert(all[i as int] == paths@[i as int]@);
        assert(texts(parts@) == whole);
        assert(whole.len() == parts@.len());
        let ghost earlier = dirs_view(dirs@);
        let mut n: usize = 1;
        while n < parts.len()
            invariant
                1 <= n,
                n <= parts@.len() || parts@.len() == 0 && n == 1,
                texts(parts@) == whole,
                whole.len() == parts@.len(),
                forall|a: int, b: int|
                    0 <= a < b < dirs@.len() ==> #[trigger] dirs_view(dirs@)[a]
                        != #[trigger] dirs_view(dirs@)[b],
                forall|dir: Seq<Seq<char>>| #[trigger]
                    dirs_view(dirs@).contains(dir) <==> earlier.contains(dir) || (0 < dir.len() < n
                        && dir == whole.take(dir.len() as int)),
            decreases parts@.len() - n,
        {
            let dir: Vec<String> = take_parts(&parts, n);
            let ghost sofar = dirs_view(dirs@);
            assert(texts(dir@) == whole.take(n as int));
            assert(texts(dir@).len() == n);
            if !has_dir(&dirs, &dir) {
                dirs.push(dir);
                assert(dirs_view(dirs@) =~= sofar.push(texts(dir@)));
                assert forall|a: int, b: int| 0 <= a < b < dirs@.len() implies #[trigger] dirs_view(
                    dirs@,
                )[a] != #[trigger] dirs_view(dirs@)[b] by {
                    if b == sofar.len() {
                        assert(sofar[a] == dirs_view(dirs@)[a]);
                        assert(sofar.contains(sofar[a]));
                    } else {
                        assert(sofar[a] != sofar[b]);
                    }
                }
            }
            assert forall|d: Seq<Seq<char>>| #[trigger]
                dirs_view(dirs@).contains(d) <==> earlier.contains(d) || (0 < d.len() < n + 1 && d
                    == whole.take(d.len() as int)) by {
                assert(sofar.contains(d) <==> earlier.contains(d) || (0 < d.len() < n && d
                    == whole.take(d.len() as int)));
                if dirs_view(dirs@).contains(d) && d != whole.take(n as int) {
                    let q = choose|q: int|
                        0 <= q < dirs_view(dirs@).len() && dirs_view(dirs@)[q] == d;
                    if q < sofar.len() {
                        assert(sofar[q] == d);
                    }
                }
                if sofar.contains(d) {
                    let q = choose|q: int| 0 <= q < sofar.len() && sofar[q] == d;
                    assert(dirs_view(dirs@)[q] == d);
                }
                if d == whole.take(n as int) {
                    if !sofar.contains(d) {
                        assert(dirs_view(dirs@)[sofar.len() as int] == d);
                    }
                }
            }
            n = n + 1;
        }
        assert forall|dir: Seq<Seq<char>>| #[trigger]
            dirs_view(dirs@).contains(dir) <==> above_some(dir, all, i + 1) by {
            assert(earlier.contains(dir) <==> above_some(dir, all, i as int));
            if above_some(dir, all, i as int) {
                let q = choose|q: int| 0 <= q < i && #[trigger] lies_above(dir, all[q]);
                assert(lies_above(dir, all[q]));
            }
            if dirs_view(dirs@).contains(dir) && !earlier.contains(dir) {
                assert(lies_above(dir, all[i as int]));
            }
            if above_some(dir, all, i + 1) {
                let q = choose|q: int| 0 <= q < i + 1 && #[trigger] lies_above(dir, all[q]);
                if q < i {
                    assert(above_some(dir, all, i as int));
                }
            }
        }
    }
    dirs
}

/// Whether folders are those that lie above removed files, each once, and none before one that lies
/// deeper.
pub open spec fn pruned_in_order(dirs: Seq<Seq<Seq<char>>>, paths: Seq<Seq<char>>) -> bool {
    &&& forall|i: int, j: int| 0 <= i < j < dirs.len() ==> #[trigger] dirs[i] != #[trigger] dirs[j]
    &&& forall|dir: Seq<Seq<char>>| #[trigger]
        dirs.contains(dir) <==> above_some(dir, paths, paths.len() as int)
    &&& forall|i: int, j: int|
        0 <= i < j < dirs.len() ==> (#[trigger] dirs[i]).len() >= (#[trigger] dirs[j]).len()
}

/// The directories that may be empty after files were removed: those above a removed file and
/// below the common directory, each once, the deepest first.
pub fn directories_to_prune(paths: &Vec<String>) -> (sorted: Vec<Vec<String>>)
    ensures
        pruned_in_order(dirs_view(sorted@), texts(paths@)),
{
    let dirs: Vec<Vec<String>> = collect_dirs(paths);
    let mut sorted: Vec<Vec<String>> = Vec::new();
    for k in 0..dirs.len()
        invariant
            forall|i: int, j: int|
                0 <= i < j < dirs@.len() ==> #[trigger] dirs_view(dirs@)[i]
                    != #[trigger] dirs_view(dirs@)[j],
            forall|i: int, j: int|
                0 <= i < j < sorted@.len() ==> #[trigger] dirs_view(sorted@)[i]
                    != #[trigger] dirs_view(sorted@)[j],
            forall|dir: Seq<Seq<char>>| #[trigger]
                dirs_view(sorted@).contains(dir) <==> dirs_view(dirs@).take(k as int).contains(dir),
            forall|i: int, j: int|
                0 <= i < j < sorted@.len() ==> (#[trigger] sorted@[i])@.len() >= (
                #[trigger] sorted@[j])@.len(),
    {
        let dir: Vec<String> = take_parts(&dirs[k], dirs[k].len());
        let ghost d = dirs_view(dirs@)[k as int];
        assert(texts(dirs@[k as int]@).take(dirs@[k as int]@.len() as int) =~= texts(
            dirs@[k as int]@,
        ));
        assert(texts(dir@) == d);
        assert(texts(dir@).len() == dir@.len());
        let ghost before = sorted@;
        let ghost seen = dirs_view(before);
        let mut at: usize = 0;
        while at < sorted.len() && sorted[at].len() >= dir.len()
            invariant
                at <= sorted@.len(),
                sorted@ == before,
                forall|j: int| 0 <= j < at ==> (#[trigger] sorted@[j])@.len() >= dir@.len(),
            decreases sorted@.len() - at,
        {
            at = at + 1;
        }
        assert(!seen.contains(d)) by {
            if seen.contains(d) {
                assert(dirs_view(dirs@).take(k as int).contains(d));
                let q = choose|q: int|
                    0 <= q < k && dirs_view(dirs@).take(k as int)[q] == d;
                assert(dirs_view(dirs@)[q] == dirs_view(dirs@)[k as int]);
            }
        }
        sorted.insert(at, dir);
        let ghost now = dirs_view(sorted@);
        assert(now =~= seen.insert(at as int, d));
        proof {
            assert forall|i: int, j: int| 0 <= i < j < now.len() implies #[trigger] now[i]
                != #[trigger] now[j] by {
                let a = if i < at {
                    i
                } else {
                    i - 1
                };
                let b = if j < at {
                    j
                } else {
                    j - 1
                };
                if i == at {
                    assert(now[j] == seen[b]);
                    assert(seen.contains(seen[b]));
                } else if j == at {
                    assert(now[i] == seen[a]);
                    assert(seen.contains(seen[a]));
                } else {
                    assert(now[i] == seen[a] && now[j] == seen[b]);
                }
            }
            assert forall|i: int, j: int| 0 <= i < j < sorted@.len() implies (
            #[trigger] sorted@[i])@.len() >= (#[trigger] sorted@[j])@.len() by {
                if i == at {
                    assert(sorted@[j] == before[j - 1]);
                    if at < before.len() && j - 1 > at {
                        assert(before[at as int]@.len() >= before[j - 1]@.len());
                    }
                } else if j == at {
                    assert(sorted@[i] == before[i]);
                } else {
                    let a = if i < at {
                        i
                    } else {
                        i - 1
                    };
                    let b = if j < at {
                        j
                    } else {
                        j - 1
                    };
                    assert(sorted@[i] == before[a] && sorted@[j] == before[b]);
                }
            }
            assert forall|x: Seq<Seq<char>>| #[trigger]
                now.contains(x) <==> dirs_view(dirs@).take(k + 1).contains(x) by {
                let later = dirs_view(dirs@).take(k + 1);
                let earlier = dirs_view(dirs@).take(k as int);
                assert(seen.contains(x) <==> earlier.contains(x));
                if now.contains(x) && x != d {
                    let q = choose|q: int| 0 <= q < now.len() && now[q] == x;
                    let p = if q < at {
                        q
                    } else {
                        q - 1
                    };
                    assert(seen[p] == x);
                    assert(earlier.contains(x));
                    let r = choose|r: int| 0 <= r < earlier.len() && earlier[r] == x;
                    assert(later[r] == x);
                }
                if x == d {
                    assert(later[k as int] == d);
                    assert(now[at as int] == d);
                }
                if later.contains(x) && x != d {
                    let r = choose|r: int| 0 <= r < later.len() && later[r] == x;
                    assert(earlier[r] == x);
                    assert(seen.contains(x));
                    let q = choose|q: int| 0 <= q < seen.len() && seen[q] == x;
                    if q < at {
                        assert(now[q] == x);
                    } else {
                        assert(now[q + 1] == x);
                    }
                }
            }
        }
    }
    assert(dirs_view(dirs@).take(dirs@.len() as int) =~= dirs_view(dirs@));
    sorted
}

/// The common directory is never among the directories that are pruned, nor one that lies
/// above no removed file.
pub proof fn law_pruning_stays_below(dir: Seq<Seq<char>>, paths: Seq<Seq<char>>)
    requires
        above_some(dir, paths, paths.len() as int),
    ensures
        dir.len() > 0,
        exists|i: int| 0 <= i < paths.len() && dir.is_prefix_of(components_of(#[trigger] paths[i])),
{
    let i = choose|i: int| 0 <= i < paths.len() && #[trigger] lies_above(dir, paths[i]);
    assert(dir.is_prefix_of(components_of(paths[i])));
}

/// The place in a list of the largest video file; the last of those that are equally large.
pub open spec fn largest(files: Seq<(Seq<char>, u64)>) -> Option<int>
    decreases files.len(),
{
    if files.len() == 0 {
        None
    } else {
        let best = largest(files.drop_last());
        if names_video(files.last().0) && (best matches Some(k) ==> files[k].1
            <= files.last().1) {
            Some(files.len() - 1)
        } else {
            best
        }
    }
}

/// The place in a list of the largest video file.
pub fn largest_video_file(files: &Vec<StoredFileInfo>) -> (r: Option<usize>)
    ensures
        match r {
            Some(k) => largest(stored_files(files@)) == Some(k as int) && k < files@.len(),
            None => largest(stored_files(files@)) is None,
        },
{
    let ghost all = stored_files(files@);
    let mut best: Option<usize> = None;
    assert(all.take(0) =~= Seq::<(Seq<char>, u64)>::empty());
    for i in 0..files.len()
        invariant
            all == stored_files(files@),
            match best {
                Some(k) => k < i && largest(all.take(i as int)) == Some(k as int),
                None => largest(all.take(i as int)) is None,
            },
    {
        assert(all.take(i + 1).drop_last() =~= all.take(i as int));
        assert(all.take(i + 1).last() == all[i as int]);
        assert(all[i as int] == (files@[i as int].relative_path@, files@[i as int].len));
        if is_video_file(files[i].relative_path.as_str()) {
            match best {
                Some(k) => {
                    assert(all.take(i + 1)[k as int] == all[k as int]);
                    assert(all[k as int].1 == files@[k as int].len);
                    if files[k].len <= files[i].len {
                        best = Some(i);
                    }
                },
                None => {
                    best = Some(i);
                },
            }
        }
    }
    assert(all.take(all.len() as int) =~= all);
    best
}

/// The largest video file is a video file, no video file is larger, and there is one where
/// there is a video file.
pub proof fn law_largest_is_largest(files: Seq<(Seq<char>, u64)>)
    ensures
        largest(files) matches Some(k) ==> 0 <= k < files.len() && names_video(files[k].0)
            && forall|i: int|
            0 <= i < files.len() && names_video((#[trigger] files[i]).0) ==> files[i].1
                <= files[k].1,
        largest(files) is None ==> forall|i: int|
            0 <= i < files.len() ==> !names_video((#[trigger] files[i]).0),
    decreases files.len(),
{
    if files.len() > 0 {
        let rest = files.drop_last();
        law_largest_is_largest(rest);
        assert forall|i: int| 0 <= i < files.len() && i < rest.len() implies #[trigger] files[i]
            == rest[i] by {}
    }
}

/// A file that can be played.
#[derive(Debug)]
pub struct PlaybackFile {
    pub index: usize,
    pub name: String,
    pub size: u64,
    pub path: String,
}

/// A file that can be played as plain values.
#[verifier::ext_equal]
pub struct PlaybackView {
    pub index: int,
    pub name: Seq<char>,
    pub size: u64,
    pub path: Seq<char>,
}

impl View for PlaybackFile {
    type V = PlaybackView;

    open spec fn view(&self) -> PlaybackView {
        PlaybackView { index: self.index as int, name: self.name@, size: self.size, path: self.path@ }
    }
}

impl Clone for PlaybackFile {
    fn clone(&self) -> (copy: Self)
        ensures
            copy == *self,
    {
        PlaybackFile {
            index: self.index,
            name: self.name.clone(),
            size: self.size,
            path: self.path.clone(),
        }
    }
}

/// The name under which a file is shown: the last part of its path, or all of it.
pub open spec fn shown_name(path: Seq<char>) -> Seq<char> {
    match file_name_of(path) {
        Some(name) => name,
        None => path,
    }
}

/// The name under which a file is shown.
fn name_to_show(path: &str) -> (name: String)
    ensures
        name@ == shown_name(path@),
{
    match file_name(path) {
        Some(name) => name,
        None => path.to_owned(),
    }
}

/// The video files among the first `n` of a list, with their full paths.
pub open spec fn videos_among(
    files: Seq<(Seq<char>, u64)>,
    paths: Seq<Seq<char>>,
    n: int,
) -> Seq<PlaybackView>
    decreases n,
{
    if n <= 0 {
        Seq::empty()
    } else {
        let before = videos_among(files, paths, n - 1);
        let (relative, size) = files[n - 1];
        if names_video(relative) {
            before.push(
                PlaybackView {
                    index: n - 1,
                    name: shown_name(relative),
                    size,
                    path: paths[n - 1],
                },
            )
        } else {
            before
        }
    }
}

/// The names of files that can be played.
pub open spec fn playback_names(files: Seq<PlaybackView>) -> Seq<Seq<char>> {
    files.map_values(|f: PlaybackView| f.name)
}

/// The video files of a list in the order of their names.
pub open spec fn videos_by_name(files: Seq<(Seq<char>, u64)>, paths: Seq<Seq<char>>) -> Seq<
    PlaybackView,
> {
    let all = videos_among(files, paths, files.len() as int);
    sorted_rows(all, playback_names(all), false)
}

/// The video files of a list in the order of their names. `paths` are the full paths of the
/// files.
pub fn playback_files(files: &Vec<StoredFileInfo>, paths: &Vec<String>) -> (r: Vec<PlaybackFile>)
    requires
        paths@.len() == files@.len(),
    ensures
        views(r@) == videos_by_name(stored_files(files@), texts(paths@)),
{
    let ghost list = stored_files(files@);
    let ghost full = texts(paths@);
    let mut found: Vec<PlaybackFile> = Vec::new();
    let mut names: Vec<String> = Vec::new();
    assert(views(found@) =~= videos_among(list, full, 0));
    for i in 0..files.len()
        invariant
            list == stored_files(files@),
            full == texts(paths@),
            paths@.len() == files@.len(),
            names@.len() == found@.len(),
            forall|j: int| 0 <= j < names@.len() ==> #[trigger] names@[j] == found@[j].name,
            views(found@) == videos_among(list, full, i as int),
    {
        assert(list[i as int] == (files@[i as int].relative_path@, files@[i as int].len));
        assert(full[i as int] == paths@[i as int]@);
        let ghost before = found@;
        if is_video_file(files[i].relative_path.as_str()) {
            let file = PlaybackFile {
                index: i,
                name: name_to_show(files[i].relative_path.as_str()),
                size: files[i].len,
                path: paths[i].clone(),
            };
            names.push(file.name.clone());
            found.push(file);
            assert(views(found@) =~= views(before).push(file@));
        }
    }
    let ghost all = videos_among(list, full, list.len() as int);
    assert(texts(names@) =~= playback_names(all)) by {
        assert forall|j: int| 0 <= j < names@.len() implies texts(names@)[j]
            == #[trigger] playback_names(all)[j] by {
            assert(names@[j] == found@[j].name);
            assert(views(found@)[j] == found@[j]@);
        }
    }
    let order: Vec<usize> = order_by(&names, false);
    let ghost sorted = ordered(playback_names(all), false);
    let mut r: Vec<PlaybackFile> = Vec::new();
    for q in 0..order.len()
        invariant
            all == views(found@),
            order@.map_values(|i: usize| i as int) == sorted,
            forall|k: int| 0 <= k < order@.len() ==> #[trigger] order@[k] < found@.len(),
            r@.len() == q,
            forall|k: int| 0 <= k < q ==> (#[trigger] r@[k])@ == all[sorted[k]],
    {
        assert(sorted[q as int] == order@[q as int]);
        assert(all[order@[q as int] as int] == found@[order@[q as int] as int]@);
        r.push(found[order[q]].clone());
    }
    assert(views(r@) =~= videos_by_name(list, full));
    r
}

/// What can be played of a download that the engine has: its videos by name, once it is finished.
pub open spec fn playback_told(
    finished: bool,
    files: Seq<(Seq<char>, u64)>,
    paths: Seq<Seq<char>>,
    r: Result<Vec<PlaybackFile>, String>,
) -> bool {
    let videos = videos_by_name(files, paths);
    match r {
        Ok(list) => finished && videos.len() > 0 && views(list@) == videos,
        Err(e) => if !finished {
            e@ == "下载尚未完成"@
        } else {
            videos.len() == 0 && e@ == "该任务中没有可播放的视频文件"@
        },
    }
}

/// The files to play of a download that the engine has: it must be finished and hold a
/// video.
pub fn playback_files_from_handle(
    finished: bool,
    files: &Vec<StoredFileInfo>,
    paths: &Vec<String>,
) -> (r: Result<Vec<PlaybackFile>, String>)
    requires
        paths@.len() == files@.len(),
    ensures
        playback_told(finished, stored_files(files@), texts(paths@), r),
{
    if !finished {
        return Err("下载尚未完成".to_owned());
    }
    let list: Vec<PlaybackFile> = playback_files(files, paths);
    assert(views(list@).len() == list@.len());
    if list.len() == 0 {
        return Err("该任务中没有可播放的视频文件".to_owned());
    }
    Ok(list)
}

/// What can be played of the files that are noted of a download: its videos by name, if there are
/// any.
pub open spec fn stored_playback_told(
    files: Option<Vec<StoredFileInfo>>,
    paths: Seq<Seq<char>>,
    r: Option<Vec<PlaybackFile>>,
) -> bool {
    match files {
        Some(list) => {
            let videos = videos_by_name(stored_files(list@), paths);
            match r {
                Some(found) => videos.len() > 0 && views(found@) == videos,
                None => videos.len() == 0,
            }
        },
        None => r is None,
    }
}

/// The files to play of a download that the engine does not have, where its files are known
/// and hold a video; nothing where the engine has to take it up again.
pub fn stored_playback_files(files: &Option<Vec<StoredFileInfo>>, paths: &Vec<String>) -> (r: Option<
    Vec<PlaybackFile>,
>)
    requires
        files matches Some(list) ==> paths@.len() == list@.len(),
    ensures
        stored_playback_told(*files, texts(paths@), r),
{
    match files {
        Some(list) => {
            let found: Vec<PlaybackFile> = playback_files(list, paths);
            assert(views(found@).len() == found@.len());
            if found.len() > 0 {
                Some(found)
            } else {
                None
            }
        },
        None => None,
    }
}

/// What can be played where the files of a download cannot be listed: the noted file, where it is
/// a file.
pub open spec fn fallback_told(
    error: Seq<char>,
    noted: Option<(String, bool, u64)>,
    r: Result<Vec<PlaybackFile>, String>,
) -> bool {
    match r {
        Ok(list) => noted matches Some(file) && file.1 && views(list@) == seq![
            PlaybackView {
                index: 0,
                name: shown_name(file.0@),
                size: file.2,
                path: file.0@,
            },
        ],
        Err(e) => !(noted matches Some(file) && file.1) && e@ == "读取合集文件列表失败（"@
            + error + "），且未找到本地可播放文件"@,
    }
}

/// The file to play where the files of a download could not be found out: the one that was
/// noted when the download completed, if it is still there. `noted` is its path, whether it is
/// a file, and its size.
pub fn playback_fallback(error: &str, noted: Option<(String, bool, u64)>) -> (r: Result<
    Vec<PlaybackFile>,
    String,
>)
    ensures
        fallback_told(error@, noted, r),
{
    if let Some((path, is_file, size)) = noted {
        if is_file {
            let file = PlaybackFile { index: 0, name: name_to_show(path.as_str()), size, path };
            let list: Vec<PlaybackFile> = vec![file];
            assert(views(list@) =~= seq![file@]);
            return Ok(list);
        }
    }
    let mut e: String = "读取合集文件列表失败（".to_owned();
    append(&mut e, error);
    append(&mut e, "），且未找到本地可播放文件");
    Err(e)
}

} // verus!
