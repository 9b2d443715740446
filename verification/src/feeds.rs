//! Reading feeds.

use crate::links::{parse_url, parsed_url};
use crate::markup::{extension_depth, extension_nesting};
use crate::models::{ItemView, RssItem};
use crate::rows::{first, lemma_first_at, lemma_first_none, views};
use crate::text::{
    append, chars_of, copy_opt, find, find_from, last_before, lemma_find_from, occurs_at, opt_text,
    rfind, same, slice_to_vec, split, split_on, starts_with, string_of, trim_chars, trimmed,
};
use vstd::prelude::*;
use vstd::slice::slice_subrange;

verus! {

/// The item of a feed without its closing tag and what follows it.
pub open spec fn item_body(piece: Seq<char>) -> Seq<char> {
    match find_from(piece, "</item>"@, 0) {
        Some(end) => piece.take(end),
        None => piece,
    }
}

/// The publication date in the text of an item, wherever it is nested: the text between the
/// first tag whose name ends in `pubDate` and the tag that closes it.
pub open spec fn nested_date(item: Seq<char>) -> Option<Seq<char>> {
    match find_from(item, "pubDate>"@, 0) {
        Some(marker) => match last_before(item, '<', marker) {
            Some(opening) => {
                let tag = item.subrange(opening + 1, marker + 7);
                let rest = item.skip(marker + 8);
                match find_from(rest, "</"@ + tag + ">"@, 0) {
                    Some(end) => Some(trimmed(rest.take(end))),
                    None => None,
                }
            },
            None => None,
        },
        None => None,
    }
}

/// The publication dates of the items of a feed, read from its text.
pub open spec fn nested_dates(xml: Seq<char>) -> Seq<Option<Seq<char>>> {
    split_on(xml, "<item"@).skip(1).map_values(|piece: Seq<char>| nested_date(item_body(piece)))
}

/// Optional strings as plain values.
pub open spec fn opt_texts(list: Seq<Option<String>>) -> Seq<Option<Seq<char>>> {
    list.map_values(|s: Option<String>| opt_text(s))
}

/// The item of a feed without its closing tag and what follows it.
fn body_of(piece: &Vec<char>) -> (body: Vec<char>)
    ensures
        body@ == item_body(piece@),
{
    let closing: Vec<char> = chars_of("</item>");
    match find(piece, &closing, 0) {
        Some(end) => {
            let body: Vec<char> = slice_to_vec(slice_subrange(piece, 0, end));
            assert(body@ =~= piece@.take(end as int));
            body
        },
        None => slice_to_vec(piece),
    }
}

/// The publication date in the text of an item.
fn date_of(item: &Vec<char>) -> (date: Option<String>)
    ensures
        opt_text(date) == nested_date(item@),
{
    proof {
        reveal_strlit("pubDate>");
    }
    let mark: Vec<char> = chars_of("pubDate>");
    let marker: usize = find(item, &mark, 0)?;
    let opening: usize = rfind(item, '<', marker)?;
    let mut closing: String = "</".to_owned();
    append(&mut closing, string_of(slice_subrange(item, opening + 1, marker + 7)).as_str());
    append(&mut closing, ">");
    let closing: Vec<char> = chars_of(closing.as_str());
    let rest: &[char] = slice_subrange(item, marker + 8, item.len());
    assert(rest@ =~= item@.skip(marker + 8));
    let end: usize = find(rest, &closing, 0)?;
    assert(rest@.subrange(0, end as int) =~= rest@.take(end as int));
    Some(string_of(&trim_chars(slice_subrange(rest, 0, end))))
}

/// The publication dates of the items of a feed, read from its text. Some feeds nest the
/// dates where a reader of feeds does not look.
pub fn nested_pub_dates(xml: &str) -> (dates: Vec<Option<String>>)
    ensures
        opt_texts(dates@) == nested_dates(xml@),
{
    proof {
        reveal_strlit("<item");
    }
    let start: Vec<char> = chars_of("<item");
    let chars: Vec<char> = chars_of(xml);
    let pieces: Vec<Vec<char>> = split(&chars, &start);
    let ghost all = split_on(xml@, "<item"@);
    let mut dates: Vec<Option<String>> = Vec::new();
    let mut k: usize = 1;
    while k < pieces.len()
        invariant
            1 <= k <= pieces@.len(),
            all == pieces@.map_values(|piece: Vec<char>| piece@),
            dates@.len() == k - 1,
            forall|j: int|
                0 <= j < dates@.len() ==> opt_text(#[trigger] dates@[j]) == nested_date(
                    item_body(all[j + 1]),
                ),
        decreases pieces@.len() - k,
    {
        assert(all[k as int] == pieces@[k as int]@);
        let body: Vec<char> = body_of(&pieces[k]);
        dates.push(date_of(&body));
        k = k + 1;
    }
    assert(opt_texts(dates@) =~= nested_dates(xml@));
    dates
}

/// How often a text stands in another.
pub open spec fn occurrences(s: Seq<char>, part: Seq<char>) -> nat
    decreases s.len(),
{
    if s.len() == 0 {
        0
    } else {
        occurrences(s.drop_first(), part) + if occurs_at(s, part, 0) {
            1nat
        } else {
            0
        }
    }
}

/// Positions at which a text does not stand add nothing.
proof fn lemma_occurrences_skip(s: Seq<char>, part: Seq<char>, k: int)
    requires
        0 <= k <= s.len(),
        forall|j: int| 0 <= j < k ==> !occurs_at(s, part, j),
    ensures
        occurrences(s, part) == occurrences(s.skip(k), part),
    decreases k,
{
    if k == 0 {
        assert(s.skip(0) =~= s);
    } else {
        let rest = s.drop_first();
        assert(!occurs_at(s, part, 0));
        assert forall|j: int| 0 <= j < k - 1 implies !occurs_at(rest, part, j) by {
            if occurs_at(rest, part, j) {
                assert(s.subrange(j + 1, j + 1 + part.len()) =~= rest.subrange(
                    j,
                    j + part.len(),
                ));
                assert(occurs_at(s, part, j + 1));
            }
        }
        lemma_occurrences_skip(rest, part, k - 1);
        assert(rest.skip(k - 1) =~= s.skip(k));
    }
}

/// Where the text that begins an item stands, no other begins inside it.
proof fn lemma_starts_apart(s: Seq<char>, i: int, j: int)
    requires
        occurs_at(s, "<item"@, i),
        i < j < i + 5,
    ensures
        !occurs_at(s, "<item"@, j),
{
    reveal_strlit("<item");
    assert("<item"@.len() == 5);
    assert(s.subrange(i, i + 5)[j - i] == "<item"@[j - i]);
    if occurs_at(s, "<item"@, j) {
        assert(s.subrange(j, j + 5)[0] == "<item"@[0]);
    }
}

proof fn lemma_pieces(s: Seq<char>)
    ensures
        split_on(s, "<item"@).len() == occurrences(s, "<item"@) + 1,
    decreases s.len(),
{
    let part = "<item"@;
    reveal_strlit("<item");
    assert(part.len() == 5);
    lemma_find_from(s, part, 0);
    match find_from(s, part, 0) {
        Some(k) => {
            let from = s.skip(k);
            let rest = s.skip(k + 5);
            lemma_pieces(rest);
            lemma_occurrences_skip(s, part, k);
            assert(from.subrange(0, 5) =~= s.subrange(k, k + 5));
            assert(occurs_at(from, part, 0));
            let next = from.drop_first();
            assert forall|j: int| 0 <= j < 4 implies !occurs_at(next, part, j) by {
                lemma_starts_apart(from, 0, j + 1);
                if occurs_at(next, part, j) {
                    assert(from.subrange(j + 1, j + 6) =~= next.subrange(j, j + 5));
                    assert(occurs_at(from, part, j + 1));
                }
            }
            lemma_occurrences_skip(next, part, 4);
            assert(next.skip(4) =~= rest);
        },
        None => {
            lemma_occurrences_skip(s, part, s.len() as int);
            assert(s.skip(s.len() as int).len() == 0);
        },
    }
}

/// There is one date, or none, for each item that begins in the text.
pub proof fn law_one_entry_for_each_item(xml: Seq<char>)
    ensures
        nested_dates(xml).len() == occurrences(xml, "<item"@),
{
    lemma_pieces(xml);
}

/// The pieces of a text that is followed by one that begins an item.
proof fn lemma_pieces_in_turn(x: Seq<char>, y: Seq<char>)
    requires
        "<item"@.is_prefix_of(y),
    ensures
        split_on(x + y, "<item"@) == split_on(x, "<item"@) + split_on(y, "<item"@).skip(1),
        split_on(x, "<item"@).len() > 0,
        split_on(y, "<item"@).len() > 0,
    decreases x.len(),
{
    let part = "<item"@;
    reveal_strlit("<item");
    assert(part.len() == 5);
    let both = x + y;
    lemma_find_from(x, part, 0);
    lemma_find_from(y, part, 0);
    lemma_find_from(both, part, 0);
    assert(y.subrange(0, 5) == part);
    assert(occurs_at(y, part, 0));
    assert(both.subrange(x.len() as int, x.len() as int + 5) =~= y.subrange(0, 5));
    assert(occurs_at(both, part, x.len() as int));
    assert forall|j: int| 0 <= j < x.len() implies occurs_at(both, part, j) == occurs_at(
        x,
        part,
        j,
    ) by {
        if j + 5 <= x.len() {
            assert(both.subrange(j, j + 5) =~= x.subrange(j, j + 5));
        } else if occurs_at(both, part, j) {
            lemma_starts_apart(both, j, x.len() as int);
        }
    }
    match find_from(x, part, 0) {
        Some(k) => {
            assert(occurs_at(both, part, k));
            assert(find_from(both, part, 0) == Some(k));
            lemma_pieces_in_turn(x.skip(k + 5), y);
            assert(both.take(k) =~= x.take(k));
            assert(both.skip(k + 5) =~= x.skip(k + 5) + y);
            let first = seq![x.take(k)];
            let more = split_on(x.skip(k + 5), part);
            let last = split_on(y, part).skip(1);
            assert(first + (more + last) =~= (first + more) + last);
        },
        None => {
            assert(find_from(both, part, 0) == Some(x.len() as int));
            assert(both.take(x.len() as int) =~= x);
            assert(both.skip(x.len() as int + 5) =~= y.skip(5));
            assert(find_from(y, part, 0) == Some(0int));
            assert((seq![y.take(0)] + split_on(y.skip(5), part)).skip(1) =~= split_on(
                y.skip(5),
                part,
            ));
        },
    }
}

/// The dates of a text that is followed by one that begins an item are the dates of the two
/// in turn.
pub proof fn law_dates_come_in_turn(x: Seq<char>, y: Seq<char>)
    requires
        "<item"@.is_prefix_of(y),
    ensures
        nested_dates(x + y) == nested_dates(x) + nested_dates(y),
{
    lemma_pieces_in_turn(x, y);
    assert(nested_dates(x + y) =~= nested_dates(x) + nested_dates(y));
}

/// An item of a feed as it was read. The extensions stand by the prefix of their name space
/// and by their names.
#[derive(Debug)]
pub struct RawItem {
    pub title: Option<String>,
    pub link: Option<String>,
    pub enclosure: Option<String>,
    pub guid: Option<String>,
    pub pub_date: Option<String>,
    pub extensions: Vec<(String, Vec<(String, Vec<Option<String>>)>)>,
}

/// The extensions of one name space as plain values.
pub open spec fn group_view(group: Seq<(String, Vec<Option<String>>)>) -> Seq<
    (Seq<char>, Seq<Option<Seq<char>>>),
> {
    group.map_values(|g: (String, Vec<Option<String>>)| (g.0@, opt_texts(g.1@)))
}

/// The extensions of an item as plain values.
pub open spec fn extensions_view(list: Seq<(String, Vec<(String, Vec<Option<String>>)>)>) -> Seq<
    (Seq<char>, Seq<(Seq<char>, Seq<Option<Seq<char>>>)>),
> {
    list.map_values(
        |g: (String, Vec<(String, Vec<Option<String>>)>)| (g.0@, group_view(g.1@)),
    )
}

/// An item of a feed as it was read, as plain values.
#[verifier::ext_equal]
pub struct RawItemView {
    pub title: Option<Seq<char>>,
    pub link: Option<Seq<char>>,
    pub enclosure: Option<Seq<char>>,
    pub guid: Option<Seq<char>>,
    pub pub_date: Option<Seq<char>>,
    pub extensions: Seq<(Seq<char>, Seq<(Seq<char>, Seq<Option<Seq<char>>>)>)>,
}

impl View for RawItem {
    type V = RawItemView;

    open spec fn view(&self) -> RawItemView {
        RawItemView {
            title: opt_text(self.title),
            link: opt_text(self.link),
            enclosure: opt_text(self.enclosure),
            guid: opt_text(self.guid),
            pub_date: opt_text(self.pub_date),
            extensions: extensions_view(self.extensions@),
        }
    }
}

/// A feed as it was read.
#[derive(Debug)]
pub struct RawChannel {
    pub title: String,
    pub items: Vec<RawItem>,
}

/// The title and the items of a feed, or the reason why the bytes are none.
pub uninterp spec fn rss_channel(bytes: Seq<u8>) -> Result<
    (Seq<char>, Seq<RawItemView>),
    Seq<char>,
>;

/// The text that bytes stand for in UTF-8, with replacement characters where they stand for
/// none.
pub uninterp spec fn lossy_text(bytes: Seq<u8>) -> Seq<char>;

/// How deep the extensions of a feed may be nested. Feeds are read on threads whose stacks have
/// two megabytes, the smallest that the runtime gives its workers; each element that is open
/// inside an extension takes less than two kilobytes of it. This many leave half of the stack
/// to everything else.
pub const MAX_NESTING: usize = 512;

/// `rss::Channel::read_from` reads a feed. What it accepts, what it reads and how it explains
/// a refusal depend on the bytes alone. It reads extensions, the elements of channels and items
/// whose names have a prefix, by a function that calls itself once for each element inside
/// them, so it is handed only feeds in which that ends before the stack does. All other elements
/// are read or passed over in loops, and may be nested as deep as they like.
#[verifier::external_body]
pub(crate) fn read_channel(bytes: &[u8]) -> (r: Result<RawChannel, String>)
    requires
        extension_depth(bytes@) <= MAX_NESTING,
    ensures
        match r {
            Ok(channel) => rss_channel(bytes@) == Ok::<(Seq<char>, Seq<RawItemView>), Seq<char>>(
                (channel.title@, views(channel.items@)),
            ),
            Err(e) => rss_channel(bytes@) == Err::<(Seq<char>, Seq<RawItemView>), Seq<char>>(e@),
        },
{
    let channel = rss::Channel::read_from(bytes).map_err(|e| e.to_string())?;
    let items = channel.items.into_iter().map(|item| RawItem {
        title: item.title,
        link: item.link,
        enclosure: item.enclosure.map(|e| e.url),
        guid: item.guid.map(|g| g.value),
        pub_date: item.pub_date,
        extensions: item.extensions.into_iter().map(|(space, group)| (space, group.into_iter()
            .map(|(name, list)| (name, list.into_iter().map(|e| e.value).collect())).collect()))
            .collect(),
    }).collect();
    Ok(RawChannel { title: channel.title, items })
}

/// `String::from_utf8_lossy` reads bytes as UTF-8. Valid bytes give the text that they stand
/// for; the text of others depends on the bytes alone.
#[verifier::external_body]
pub(crate) fn read_text(bytes: &[u8]) -> (text: String)
    ensures
        text@ == lossy_text(bytes@),
        vstd::utf8::valid_utf8(bytes@) ==> text@ == vstd::utf8::decode_utf8(bytes@),
{
    String::from_utf8_lossy(bytes).into_owned()
}

/// Whether an address is one to download from.
pub open spec fn is_download_link(url: Seq<char>) -> bool {
    "magnet:"@.is_prefix_of(url) || "http://"@.is_prefix_of(url) || "https://"@.is_prefix_of(url)
}

/// Whether an address is one to download from.
pub fn download_link(url: &str) -> (r: bool)
    ensures
        r == is_download_link(url@),
{
    starts_with(url, "magnet:") || starts_with(url, "http://") || starts_with(url, "https://")
}

/// Whether a group of extensions has the name.
pub open spec fn named<V>(name: Seq<char>) -> spec_fn((Seq<char>, V)) -> bool {
    |g: (Seq<char>, V)| g.0 == name
}

/// The link of the torrent extension of an item: the first one.
pub open spec fn extension_link(
    extensions: Seq<(Seq<char>, Seq<(Seq<char>, Seq<Option<Seq<char>>>)>)>,
) -> Option<Seq<char>> {
    match first(extensions, named("torrent"@)) {
        Some(space) => match first(space.1, named("link"@)) {
            Some(group) => if group.1.len() > 0 {
                group.1[0]
            } else {
                None
            },
            None => None,
        },
        None => None,
    }
}

/// The link of the torrent extension of an item.
fn torrent_extension(item: &RawItem) -> (link: Option<String>)
    ensures
        opt_text(link) == extension_link(item@.extensions),
{
    let ghost all = item@.extensions;
    for i in 0..item.extensions.len()
        invariant
            all == extensions_view(item.extensions@),
            all == item@.extensions,
            forall|j: int| 0 <= j < i ==> !named("torrent"@)(#[trigger] all[j]),
    {
        assert(all[i as int] == (
            item.extensions@[i as int].0@,
            group_view(item.extensions@[i as int].1@),
        ));
        if same(item.extensions[i].0.as_str(), "torrent") {
            proof {
                lemma_first_at(all, named("torrent"@), i as int);
            }
            let group: &Vec<(String, Vec<Option<String>>)> = &item.extensions[i].1;
            let ghost names = group_view(group@);
            for k in 0..group.len()
                invariant
                    names == group_view(group@),
                    all == item@.extensions,
                    first(all, named("torrent"@)) == Some(all[i as int]),
                    all[i as int].1 == names,
                    forall|j: int| 0 <= j < k ==> !named("link"@)(#[trigger] names[j]),
            {
                assert(names[k as int] == (group@[k as int].0@, opt_texts(group@[k as int].1@)));
                if same(group[k].0.as_str(), "link") {
                    proof {
                        lemma_first_at(names, named("link"@), k as int);
                    }
                    let list: &Vec<Option<String>> = &group[k].1;
                    if list.len() > 0 {
                        assert(opt_texts(list@)[0] == opt_text(list@[0]));
                        return copy_opt(&list[0]);
                    }
                    return None;
                }
            }
            proof {
                lemma_first_none(names, named("link"@));
            }
            return None;
        }
    }
    proof {
        lemma_first_none(all, named("torrent"@));
    }
    None
}

/// An item of a feed. Its torrent is the enclosure, where that is an address to download from,
/// or else the link of the torrent extension. An item without an identifier is identified by
/// its link; one without a date has the nested one.
pub open spec fn feed_item(raw: RawItemView, date: Option<Seq<char>>) -> ItemView {
    let link = match raw.link {
        Some(l) => l,
        None => Seq::empty(),
    };
    ItemView {
        guid: match raw.guid {
            Some(g) => g,
            None => link,
        },
        feed_id: Seq::empty(),
        title: match raw.title {
            Some(t) => t,
            None => "未命名资源"@,
        },
        link,
        torrent: match raw.enclosure {
            Some(url) if is_download_link(url) => Some(url),
            _ => extension_link(raw.extensions),
        },
        published_at: match raw.pub_date {
            Some(d) => Some(d),
            None => date,
        },
        downloaded: false,
        download: None,
        matches_rule: false,
    }
}

/// The items of a feed with the dates that were found nested in its text.
pub open spec fn feed_items(raw: Seq<RawItemView>, dates: Seq<Option<Seq<char>>>) -> Seq<ItemView> {
    Seq::new(
        raw.len(),
        |i: int|
            feed_item(
                raw[i],
                if i < dates.len() {
                    dates[i]
                } else {
                    None
                },
            ),
    )
}

/// The items of a feed with the dates that were found nested in its text.
pub fn assemble_items(raw: &Vec<RawItem>, dates: &Vec<Option<String>>) -> (items: Vec<RssItem>)
    ensures
        views(items@) == feed_items(views(raw@), opt_texts(dates@)),
{
    let ghost all = views(raw@);
    let mut items: Vec<RssItem> = Vec::new();
    for i in 0..raw.len()
        invariant
            all == views(raw@),
            items@.len() == i,
            forall|j: int|
                0 <= j < i ==> (#[trigger] items@[j])@ == feed_items(all, opt_texts(dates@))[j],
    {
        let item: &RawItem = &raw[i];
        assert(all[i as int] == item@);
        let link: String = match &item.link {
            Some(link) => link.clone(),
            None => String::new(),
        };
        let guid: String = match &item.guid {
            Some(guid) => guid.clone(),
            None => link.clone(),
        };
        let title: String = match &item.title {
            Some(title) => title.clone(),
            None => "未命名资源".to_owned(),
        };
        let torrent: Option<String> = match &item.enclosure {
            Some(url) => if download_link(url.as_str()) {
                Some(url.clone())
            } else {
                torrent_extension(item)
            },
            None => torrent_extension(item),
        };
        let published_at: Option<String> = match &item.pub_date {
            Some(date) => Some(date.clone()),
            None => if i < dates.len() {
                copy_opt(&dates[i])
            } else {
                None
            },
        };
        let value = RssItem {
            guid,
            feed_id: String::new(),
            title,
            link,
            torrent,
            published_at,
            downloaded: false,
            download: None,
            matches_rule: false,
        };
        assert(value@ =~= feed_items(all, opt_texts(dates@))[i as int]);
        items.push(value);
    }
    assert(views(items@) =~= feed_items(all, opt_texts(dates@)));
    items
}

/// What is wrong with the address of a feed, if anything: it is to be a URL of the web.
pub open spec fn feed_url_fault(url: Seq<char>) -> Option<Seq<char>> {
    match parsed_url(url) {
        None => Some("RSS 地址无效"@),
        Some((scheme, _)) => if scheme == "http"@ || scheme == "https"@ {
            None
        } else {
            Some("RSS 地址必须使用 HTTP 或 HTTPS"@)
        },
    }
}

/// Whether an address is one of a feed: a URL of the web.
pub fn check_feed_url(url: &str) -> (r: Result<(), String>)
    ensures
        match r {
            Ok(_) => feed_url_fault(url@) is None,
            Err(e) => feed_url_fault(url@) == Some(e@),
        },
{
    match parse_url(url) {
        Some(link) => {
            if same(link.scheme.as_str(), "http") || same(link.scheme.as_str(), "https") {
                Ok(())
            } else {
                Err("RSS 地址必须使用 HTTP 或 HTTPS".to_owned())
            }
        },
        None => Err("RSS 地址无效".to_owned()),
    }
}

/// The title and the items of a feed, or what is said of bytes that are none. Bytes whose
/// extensions are nested too deep are refused, whatever else they hold.
pub open spec fn feed_of(bytes: Seq<u8>) -> Result<(Seq<char>, Seq<ItemView>), Seq<char>> {
    if extension_depth(bytes) > MAX_NESTING {
        Err("无法解析 RSS: 嵌套层级过深"@)
    } else {
        match rss_channel(bytes) {
            Ok(channel) => Ok((channel.0, feed_items(channel.1, nested_dates(lossy_text(bytes))))),
            Err(reason) => Err("无法解析 RSS: "@ + reason),
        }
    }
}

/// The title and the items of a feed. One whose extensions are nested too deep is refused.
pub fn parse_feed(bytes: &[u8]) -> (r: Result<(String, Vec<RssItem>), String>)
    ensures
        match r {
            Ok(feed) => feed_of(bytes@) == Ok::<(Seq<char>, Seq<ItemView>), Seq<char>>(
                (feed.0@, views(feed.1@)),
            ),
            Err(e) => feed_of(bytes@) == Err::<(Seq<char>, Seq<ItemView>), Seq<char>>(e@),
        },
{
    if extension_nesting(bytes) > MAX_NESTING {
        return Err("无法解析 RSS: 嵌套层级过深".to_owned());
    }
    let xml: String = read_text(bytes);
    let dates: Vec<Option<String>> = nested_pub_dates(xml.as_str());
    match read_channel(bytes) {
        Ok(channel) => {
            let items: Vec<RssItem> = assemble_items(&channel.items, &dates);
            Ok((channel.title, items))
        },
        Err(reason) => {
            let mut error: String = "无法解析 RSS: ".to_owned();
            append(&mut error, reason.as_str());
            Err(error)
        },
    }
}

} // verus!
