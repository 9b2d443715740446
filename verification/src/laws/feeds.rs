//! What holds of feeds as they are read: what an item has, and which date belongs to which item.

use crate::feeds::{
    RawItemView, extension_link, feed_item, feed_items, is_download_link, item_body, nested_date,
    nested_dates,
};
use crate::rows::lemma_first_at;
use crate::text::{find_from, last_before, lemma_find_from, occurs_at, split_on, trimmed};
use vstd::prelude::*;

verus! {

/// As many items come out as the feed has, in their order.
pub proof fn law_items_come_in_order(
    raw: Seq<RawItemView>,
    dates: Seq<Option<Seq<char>>>,
    i: int,
)
    requires
        0 <= i < raw.len(),
    ensures
        ({
            let items = feed_items(raw, dates);
            &&& items.len() == raw.len()
            &&& raw[i].title is Some ==> items[i].title == raw[i].title->0
            &&& raw[i].link is Some ==> items[i].link == raw[i].link->0
            &&& raw[i].guid is Some ==> items[i].guid == raw[i].guid->0
        }),
{
}

/// An item that has a date of its own keeps it. One that has none has the nested date that
/// stands at the same place as the item, where there is one.
pub proof fn law_nested_dates_belong_to_their_items(
    raw: Seq<RawItemView>,
    dates: Seq<Option<Seq<char>>>,
    i: int,
)
    requires
        0 <= i < raw.len(),
    ensures
        ({
            let date = feed_items(raw, dates)[i].published_at;
            &&& raw[i].pub_date is Some ==> date == raw[i].pub_date
            &&& raw[i].pub_date is None && i < dates.len() ==> date == dates[i]
            &&& raw[i].pub_date is None && i >= dates.len() ==> date is None
        }),
{
}

/// Another nested date at one place changes the date of the item at that place, where it has no
/// date of its own, and nothing else.
pub proof fn law_one_nested_date_changes_one_item(
    raw: Seq<RawItemView>,
    dates: Seq<Option<Seq<char>>>,
    i: int,
    date: Option<Seq<char>>,
)
    requires
        0 <= i < dates.len(),
    ensures
        ({
            let before = feed_items(raw, dates);
            let after = feed_items(raw, dates.update(i, date));
            &&& after.len() == before.len()
            &&& forall|j: int| 0 <= j < before.len() && j != i ==> #[trigger] after[j] == before[j]
            &&& i < raw.len() && raw[i].pub_date is None ==> after[i].published_at == date
            &&& i < raw.len() && raw[i].pub_date is Some ==> after[i] == before[i]
        }),
{
}

/// What is read of an item: its own title, link and identifier, and what stands for each where it
/// is missing. Its torrent is the enclosure where that can be downloaded, or else the link of the
/// torrent extension. Nothing of it is downloaded yet.
pub proof fn law_items_are_read_whole(raw: RawItemView, date: Option<Seq<char>>)
    ensures
        ({
            let item = feed_item(raw, date);
            &&& raw.title is Some ==> item.title == raw.title->0
            &&& raw.title is None ==> item.title == "未命名资源"@
            &&& raw.link is Some ==> item.link == raw.link->0
            &&& raw.link is None ==> item.link.len() == 0
            &&& raw.guid is Some ==> item.guid == raw.guid->0
            &&& raw.guid is None ==> item.guid == item.link
            &&& raw.enclosure is Some && is_download_link(raw.enclosure->0) ==> item.torrent
                == raw.enclosure
            &&& !(raw.enclosure is Some && is_download_link(raw.enclosure->0)) ==> item.torrent
                == extension_link(raw.extensions)
            &&& !item.downloaded
            &&& item.download is None
        }),
{
}

/// Only magnet links and addresses of the web are downloaded from, whatever follows.
pub proof fn law_download_links_begin_as_such(rest: Seq<char>, url: Seq<char>)
    ensures
        is_download_link("magnet:"@ + rest),
        is_download_link("http://"@ + rest),
        is_download_link("https://"@ + rest),
        is_download_link(url) ==> exists|tail: Seq<char>|
            url == #[trigger] ("magnet:"@ + tail) || url == "http://"@ + tail || url == "https://"@
                + tail,
{
    assert(("magnet:"@ + rest).subrange(0, "magnet:"@.len() as int) =~= "magnet:"@);
    assert(("http://"@ + rest).subrange(0, "http://"@.len() as int) =~= "http://"@);
    assert(("https://"@ + rest).subrange(0, "https://"@.len() as int) =~= "https://"@);
    if "magnet:"@.is_prefix_of(url) {
        let tail = url.skip("magnet:"@.len() as int);
        assert(url =~= "magnet:"@ + tail);
    } else if "http://"@.is_prefix_of(url) {
        let tail = url.skip("http://"@.len() as int);
        assert(url =~= "http://"@ + tail);
        assert("magnet:"@ + tail == "magnet:"@ + tail);
    } else if "https://"@.is_prefix_of(url) {
        let tail = url.skip("https://"@.len() as int);
        assert(url =~= "https://"@ + tail);
        assert("magnet:"@ + tail == "magnet:"@ + tail);
    }
}

/// The link of the torrent extension is the first link of the first group of that name, whatever
/// other extensions there are.
pub proof fn law_the_torrent_extension_is_found(
    before: Seq<(Seq<char>, Seq<(Seq<char>, Seq<Option<Seq<char>>>)>)>,
    links: Seq<Option<Seq<char>>>,
    others: Seq<(Seq<char>, Seq<Option<Seq<char>>>)>,
    after: Seq<(Seq<char>, Seq<(Seq<char>, Seq<Option<Seq<char>>>)>)>,
)
    requires
        forall|i: int| 0 <= i < before.len() ==> (#[trigger] before[i]).0 != "torrent"@,
        forall|i: int| 0 <= i < others.len() ==> (#[trigger] others[i]).0 != "link"@,
    ensures
        extension_link(before) is None,
        extension_link(before.push(("torrent"@, others)) + after) is None,
        extension_link(before.push(("torrent"@, others.push(("link"@, links)))) + after)
            == if links.len() > 0 {
            links[0]
        } else {
            None
        },
{
    let p = crate::feeds::named::<Seq<(Seq<char>, Seq<Option<Seq<char>>>)>>("torrent"@);
    let q = crate::feeds::named::<Seq<Option<Seq<char>>>>("link"@);
    crate::rows::lemma_first_none(before, p);
    crate::rows::lemma_first_none(others, q);
    let n = before.len() as int;
    let with = others.push(("link"@, links));
    let a = before.push(("torrent"@, others)) + after;
    let b = before.push(("torrent"@, with)) + after;
    assert forall|j: int| 0 <= j < n implies !p(#[trigger] a[j]) && !p(b[j]) by {
        assert(a[j] == before[j] && b[j] == before[j]);
    }
    assert forall|j: int| 0 <= j < n implies !p(#[trigger] b[j]) by {
        assert(b[j] == before[j]);
    }
    assert(a[n] == ("torrent"@, others));
    assert(b[n] == ("torrent"@, with));
    lemma_first_at(a, p, n);
    lemma_first_at(b, p, n);
    let m = others.len() as int;
    assert forall|j: int| 0 <= j < m implies !q(#[trigger] with[j]) by {
        assert(with[j] == others[j]);
    }
    assert(with[m] == ("link"@, links));
    lemma_first_at(with, q, m);
}

proof fn lemma_first_occurrence(s: Seq<char>, part: Seq<char>, k: int)
    requires
        occurs_at(s, part, k),
        forall|j: int| 0 <= j < k ==> !occurs_at(s, part, j),
    ensures
        find_from(s, part, 0) == Some(k),
{
    lemma_find_from(s, part, 0);
}

/// The date of an item is the text between the tags of its first date, without the white space
/// around it, wherever in the item they stand.
pub proof fn law_dates_are_read_between_their_tags(
    before: Seq<char>,
    date: Seq<char>,
    after: Seq<char>,
)
    requires
        forall|j: int| !occurs_at(before, "pubDate>"@, j),
        forall|j: int| !occurs_at(date, "</pubDate>"@, j),
    ensures
        nested_date(before + "<pubDate>"@ + date + "</pubDate>"@ + after) == Some(trimmed(date)),
{
    reveal_strlit("pubDate>");
    reveal_strlit("<pubDate>");
    reveal_strlit("</pubDate>");
    reveal_strlit("pubDate");
    reveal_strlit("</");
    reveal_strlit(">");
    let s = before + "<pubDate>"@ + date + "</pubDate>"@ + after;
    let n = before.len() as int;
    let mark = "pubDate>"@;
    assert(s[n] == '<');
    assert(s.subrange(n + 1, n + 9) =~= mark);
    assert(occurs_at(s, mark, n + 1));
    assert forall|j: int| 0 <= j < n + 1 implies !occurs_at(s, mark, j) by {
        if occurs_at(s, mark, j) {
            if j + 8 <= n {
                assert(before.subrange(j, j + 8) =~= s.subrange(j, j + 8));
                assert(occurs_at(before, mark, j));
            } else {
                assert(s.subrange(j, j + 8)[n - j] == mark[n - j]);
            }
        }
    }
    lemma_first_occurrence(s, mark, n + 1);
    assert(last_before(s, '<', n + 1) == Some(n));
    let tag = s.subrange(n + 1, n + 8);
    assert(tag =~= "pubDate"@);
    let rest = s.skip(n + 9);
    assert(rest =~= date + "</pubDate>"@ + after);
    let closing = "</"@ + tag + ">"@;
    assert(closing =~= "</pubDate>"@);
    let d = date.len() as int;
    assert(rest.subrange(d, d + 10) =~= closing);
    assert(occurs_at(rest, closing, d));
    assert forall|j: int| 0 <= j < d implies !occurs_at(rest, closing, j) by {
        if occurs_at(rest, closing, j) {
            if j + 10 <= d {
                assert(date.subrange(j, j + 10) =~= rest.subrange(j, j + 10));
                assert(occurs_at(date, closing, j));
            } else {
                assert(rest.subrange(j, j + 10)[d - j] == closing[d - j]);
                assert(rest[d] == '<');
            }
        }
    }
    lemma_first_occurrence(rest, closing, d);
    assert(rest.take(d) =~= date);
}

/// An item without a date tag has no date, and what follows the end of an item is not part of it.
pub proof fn law_dates_stay_inside_their_items(item: Seq<char>, after: Seq<char>)
    requires
        forall|j: int| !occurs_at(item, "</item>"@, j),
    ensures
        item_body(item) == item,
        item_body(item + "</item>"@ + after) == item,
        (forall|j: int| !occurs_at(item, "pubDate>"@, j)) ==> nested_date(item) is None,
{
    reveal_strlit("</item>");
    let end = "</item>"@;
    lemma_find_from(item, end, 0);
    lemma_find_from(item, "pubDate>"@, 0);
    let s = item + end + after;
    let n = item.len() as int;
    assert(s.subrange(n, n + 7) =~= end);
    assert(occurs_at(s, end, n));
    assert forall|j: int| 0 <= j < n implies !occurs_at(s, end, j) by {
        if occurs_at(s, end, j) {
            if j + 7 <= n {
                assert(item.subrange(j, j + 7) =~= s.subrange(j, j + 7));
                assert(occurs_at(item, end, j));
            } else {
                assert(s.subrange(j, j + 7)[n - j] == end[n - j]);
                assert(s[n] == '<');
            }
        }
    }
    lemma_first_occurrence(s, end, n);
    assert(s.take(n) =~= item);
}

/// A text that begins an item and holds no other gives one date: that of the item.
pub proof fn law_each_item_gives_its_own_date(item: Seq<char>)
    requires
        forall|j: int| !occurs_at(item, "<item"@, j),
    ensures
        nested_dates("<item"@ + item) == seq![nested_date(item_body(item))],
        nested_dates(item).len() == 0,
{
    reveal_strlit("<item");
    let mark = "<item"@;
    let s = mark + item;
    lemma_find_from(item, mark, 0);
    assert(s.subrange(0, 5) =~= mark);
    assert(occurs_at(s, mark, 0));
    assert(find_from(s, mark, 0) == Some(0int));
    assert(s.skip(5) =~= item);
    assert(split_on(item, mark) == seq![item]);
    assert(split_on(s, mark) =~= seq![s.take(0), item]);
    assert(nested_dates(s) =~= seq![nested_date(item_body(item))]);
    assert(nested_dates(item) =~= Seq::empty());
}

} // verus!
