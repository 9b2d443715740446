//! What holds of download sources: their keys, their trackers, and what is handed to the engine.

use crate::bt::{
    hands_trackers, names_tracker, read_by_engine, torrent_fault, trackers_in,
};
use crate::links::{
    is_magnet, names_content, new_ones, parsed_url, source_key, trackers_of, url_with_pairs,
    values_named, with_trackers,
};
use crate::rows::{first, lemma_first_at};
use crate::text::{ascii_lower, ascii_lower_char, trimmed};
use vstd::prelude::*;

verus! {

/// The key of a magnet link is what its first content pair names, in small letters; the name of
/// that pair may be written in letters of any case.
pub proof fn law_magnet_links_have_the_key_of_their_content(
    source: Seq<char>,
    scheme: Seq<char>,
    pairs: Seq<(Seq<char>, Seq<char>)>,
    k: int,
)
    requires
        is_magnet(trimmed(source)),
        parsed_url(trimmed(source)) == Some((scheme, pairs)),
        0 <= k < pairs.len(),
        ascii_lower(pairs[k].0) == "xt"@,
        forall|j: int| 0 <= j < k ==> ascii_lower((#[trigger] pairs[j]).0) != "xt"@,
    ensures
        source_key(source) == ascii_lower(pairs[k].1),
{
    let p = names_content();
    assert forall|j: int| 0 <= j < k implies !p(#[trigger] pairs[j]) by {}
    lemma_first_at(pairs, p, k);
}

/// A magnet link that names no content, or that is no link, is its own key.
pub proof fn law_magnet_links_without_content_are_their_own_key(
    source: Seq<char>,
    scheme: Seq<char>,
    pairs: Seq<(Seq<char>, Seq<char>)>,
)
    requires
        parsed_url(trimmed(source)) is None || (parsed_url(trimmed(source)) == Some(
            (scheme, pairs),
        ) && forall|j: int| 0 <= j < pairs.len() ==> ascii_lower((#[trigger] pairs[j]).0) != "xt"@),
    ensures
        source_key(source) == trimmed(source),
{
    let p = names_content();
    crate::rows::lemma_first_none(pairs, p);
}

/// Magnet links begin with that word in letters of any case.
pub proof fn law_magnet_links_begin_as_such(head: Seq<char>, rest: Seq<char>)
    ensures
        head.len() == 7 ==> (is_magnet(head + rest) <==> ascii_lower(head) == "magnet:"@),
        head.len() < 7 ==> !is_magnet(head),
{
    if head.len() == 7 {
        assert((head + rest).take(7) =~= head);
    }
}

/// Capital letters of ASCII become the small ones, and no other character changes.
pub proof fn law_small_letters(c: char)
    ensures
        'A' <= c && c <= 'Z' ==> ascii_lower_char(c) as u32 == c as u32 + 32,
        !('A' <= c && c <= 'Z') ==> ascii_lower_char(c) == c,
        ascii_lower(seq![c]) == seq![ascii_lower_char(c)],
{
    assert(ascii_lower(seq![c]) =~= seq![ascii_lower_char(c)]);
}

/// The trackers of a link are the values of its tracker pairs, in their order.
pub proof fn law_trackers_are_the_values_of_their_pairs(
    link: Seq<char>,
    scheme: Seq<char>,
    pairs: Seq<(Seq<char>, Seq<char>)>,
    name: Seq<char>,
    value: Seq<char>,
)
    ensures
        parsed_url(link) == Some((scheme, pairs)) ==> trackers_of(link) == values_named(
            pairs,
            "tr"@,
        ),
        parsed_url(link) is None ==> trackers_of(link).len() == 0,
        values_named(Seq::empty(), "tr"@).len() == 0,
        name == "tr"@ ==> values_named(pairs.push((name, value)), "tr"@) == values_named(
            pairs,
            "tr"@,
        ).push(value),
        name != "tr"@ ==> values_named(pairs.push((name, value)), "tr"@) == values_named(
            pairs,
            "tr"@,
        ),
{
    assert(pairs.push((name, value)).drop_last() =~= pairs);
}

/// A magnet link gains the trackers that it does not name yet, in the order of the list, up to
/// forty. Other sources, and what is no link, stay as they are.
pub proof fn law_magnet_links_gain_trackers(
    source: Seq<char>,
    list: Seq<Seq<char>>,
    tracker: Seq<char>,
    known: Seq<Seq<char>>,
)
    ensures
        !"magnet:"@.is_prefix_of(source) || parsed_url(source) is None ==> with_trackers(
            source,
            list,
        ) == source,
        "magnet:"@.is_prefix_of(source) && parsed_url(source) is Some ==> with_trackers(
            source,
            list,
        ) == url_with_pairs(source, "tr"@, new_ones(list, trackers_of(source), 40)),
        new_ones(Seq::empty(), known, 40).len() == 0,
        !known.contains(tracker) && new_ones(list, known, 40).len() < 40 ==> new_ones(
            list.push(tracker),
            known,
            40,
        ) == new_ones(list, known, 40).push(tracker),
        known.contains(tracker) || new_ones(list, known, 40).len() >= 40 ==> new_ones(
            list.push(tracker),
            known,
            40,
        ) == new_ones(list, known, 40),
        new_ones(list, known, 40).len() <= 40,
{
    assert(list.push(tracker).drop_last() =~= list);
    lemma_at_most(list, known);
}

proof fn lemma_at_most(list: Seq<Seq<char>>, known: Seq<Seq<char>>)
    ensures
        new_ones(list, known, 40).len() <= 40,
    decreases list.len(),
{
    if list.len() > 0 {
        lemma_at_most(list.drop_last(), known);
    }
}

/// A line of the list of trackers names one where it is neither blank nor a comment; the first
/// eighty count, each without the white space around it.
pub proof fn law_lines_name_trackers(lines: Seq<Seq<char>>, line: Seq<char>)
    ensures
        trackers_in(Seq::empty()).len() == 0,
        trackers_in(lines).len() <= 80,
        names_tracker(line) <==> trimmed(line).len() > 0 && trimmed(line)[0] != '#',
        names_tracker(line) && trackers_in(lines).len() < 80 ==> trackers_in(lines.push(line))
            == trackers_in(lines).push(trimmed(line)),
        !names_tracker(line) || trackers_in(lines).len() >= 80 ==> trackers_in(lines.push(line))
            == trackers_in(lines),
{
    assert(lines.push(line).drop_last() =~= lines);
    lemma_at_most_eighty(lines);
}

proof fn lemma_at_most_eighty(lines: Seq<Seq<char>>)
    ensures
        trackers_in(lines).len() <= 80,
    decreases lines.len(),
{
    if lines.len() > 0 {
        lemma_at_most_eighty(lines.drop_last());
    }
}

/// A torrent file is accepted exactly where it is not empty, has at most twenty megabytes and
/// begins as a dictionary does, with the letter d.
pub proof fn law_torrent_files_are_checked(bytes: Seq<u8>)
    ensures
        torrent_fault(bytes) is None <==> 0 < bytes.len() <= 20 * 1024 * 1024 && bytes[0]
            == 'd' as u8,
        bytes.len() == 0 ==> torrent_fault(bytes) == Some("种子文件为空"@),
        bytes.len() > 20 * 1024 * 1024 ==> torrent_fault(bytes) == Some(
            "种子文件超过 20 MB，已拒绝加载"@,
        ),
        0 < bytes.len() <= 20 * 1024 * 1024 && bytes[0] != 'd' as u8 ==> torrent_fault(bytes)
            == Some("订阅地址返回的不是有效 .torrent 文件"@),
{
}

/// Magnet links are read by the engine itself and carry their trackers; with any other source the
/// trackers are handed over, where there are any.
pub proof fn law_trackers_are_handed_over(source: Seq<char>, rest: Seq<char>, count: nat)
    ensures
        read_by_engine("magnet:"@ + rest),
        !hands_trackers("magnet:"@ + rest, count),
        !"magnet:"@.is_prefix_of(source) ==> !read_by_engine(source) && (hands_trackers(
            source,
            count,
        ) <==> count > 0),
{
    assert(("magnet:"@ + rest).subrange(0, "magnet:"@.len() as int) =~= "magnet:"@);
}

} // verus!
