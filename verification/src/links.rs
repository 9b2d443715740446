//! Links: reading a URL, adding to its query, and the key by which two links to the
//! same download are recognised.

use crate::rows::{first, lemma_first_at, lemma_first_none};
use crate::text::{
    ascii_lower, ascii_lower_chars, chars_of, is_space, list_has, same, same_chars, starts_with,
    string_of, texts, trim, trim_end, trim_start, trimmed,
};
use vstd::prelude::*;
use vstd::slice::slice_subrange;

verus! {

/// The parts of a URL that matter here: its scheme, and the names and values of its
/// query in order.
#[derive(Debug)]
pub struct Link {
    pub scheme: String,
    pub pairs: Vec<(String, String)>,
}

/// The pairs of a query as plain values.
pub open spec fn pairs_view(pairs: Seq<(String, String)>) -> Seq<(Seq<char>, Seq<char>)> {
    pairs.map_values(|p: (String, String)| (p.0@, p.1@))
}

/// The scheme and the query pairs of a text, if it is an absolute URL.
pub uninterp spec fn parsed_url(text: Seq<char>) -> Option<
    (Seq<char>, Seq<(Seq<char>, Seq<char>)>),
>;

/// The scheme of a URL.
pub open spec fn url_scheme(text: Seq<char>) -> Seq<char> {
    match parsed_url(text) {
        Some((scheme, _)) => scheme,
        None => Seq::empty(),
    }
}

/// The query pairs of a URL.
pub open spec fn url_pairs(text: Seq<char>) -> Seq<(Seq<char>, Seq<char>)> {
    match parsed_url(text) {
        Some((_, pairs)) => pairs,
        None => Seq::empty(),
    }
}

/// The URL with pairs of one name and the given values behind its query.
pub uninterp spec fn url_with_pairs(
    text: Seq<char>,
    name: Seq<char>,
    values: Seq<Seq<char>>,
) -> Seq<char>;

/// `url::Url::parse` reads an absolute URL; `Url::scheme` and `Url::query_pairs` give
/// its parts. Whether a text is a URL, and its parts, depend on the text alone.
#[verifier::external_body]
pub(crate) fn parse_url(text: &str) -> (link: Option<Link>)
    ensures
        match link {
            Some(l) => parsed_url(text@) == Some((l.scheme@, pairs_view(l.pairs@))),
            None => parsed_url(text@) is None,
        },
{
    let url = url::Url::parse(text).ok()?;
    let pairs = url.query_pairs().map(|(k, v)| (k.into_owned(), v.into_owned())).collect();
    Some(Link { scheme: url.scheme().to_owned(), pairs })
}

/// `url::Url::query_pairs_mut` with `extend_pairs` writes pairs behind the query of a
/// URL. The text of the URL then depends on its arguments alone. A link that begins
/// with `magnet:?` still does; its text is made of visible ASCII characters, and
/// reading it gives the scheme and the pairs that it had, followed by the new ones.
/// The lengths keep the text below four gigabytes, where the call would panic.
#[verifier::external_body]
pub(crate) fn append_pairs(source: &str, name: &str, values: &Vec<String>) -> (text: String)
    requires
        parsed_url(source@) is Some,
        source@.len() <= 0x1000_0000,
        name@.len() <= 100,
        values@.len() <= 40,
        forall|i: int| 0 <= i < values@.len() ==> (#[trigger] values@[i])@.len() <= 0x10_0000,
    ensures
        text@ == url_with_pairs(source@, name@, texts(values@)),
        "magnet:?"@.is_prefix_of(source@) ==> "magnet:?"@.is_prefix_of(text@),
        "magnet:?"@.is_prefix_of(source@) ==> (forall|i: int|
            0 <= i < text@.len() ==> 33 <= #[trigger] text@[i] as u32 <= 126),
        "magnet:?"@.is_prefix_of(source@) ==> parsed_url(text@) == Some(
            (
                url_scheme(source@),
                url_pairs(source@) + texts(values@).map_values(|v: Seq<char>| (name@, v)),
            ),
        ),
{
    let mut url = url::Url::parse(source).unwrap();
    url.query_pairs_mut().extend_pairs(values.iter().map(|value| (name, value)));
    url.into()
}

/// Whether a text begins with `magnet:`, in letters of any case.
pub open spec fn is_magnet(s: Seq<char>) -> bool {
    s.len() >= 7 && ascii_lower(s.take(7)) == "magnet:"@
}

/// Whether a query pair is named `xt`, in letters of any case: it names the content of
/// a magnet link.
pub open spec fn names_content() -> spec_fn((Seq<char>, Seq<char>)) -> bool {
    |p: (Seq<char>, Seq<char>)| ascii_lower(p.0) == "xt"@
}

/// The key of a download source. Two magnet links with the same content have the same
/// key, whatever their names and trackers; any other source is its own key, without
/// the white space around it.
pub open spec fn source_key(source: Seq<char>) -> Seq<char> {
    let s = trimmed(source);
    match parsed_url(s) {
        Some((_, pairs)) if is_magnet(s) => match first(pairs, names_content()) {
            Some((_, content)) => ascii_lower(content),
            None => s,
        },
        _ => s,
    }
}

/// The key by which two sources of the same download are recognised.
pub fn canonical_download_source_key(source: &str) -> (key: String)
    ensures
        key@ == source_key(source@),
{
    let s = trim(source);
    if starts_like_magnet(&s) {
        if let Some(link) = parse_url(s.as_str()) {
            let xt: Vec<char> = chars_of("xt");
            let ghost all = pairs_view(link.pairs@);
            for i in 0..link.pairs.len()
                invariant
                    s@ == trimmed(source@),
                    is_magnet(s@),
                    xt@ == "xt"@,
                    all == pairs_view(link.pairs@),
                    parsed_url(s@) == Some((link.scheme@, all)),
                    forall|j: int| 0 <= j < i ==> !names_content()(#[trigger] all[j]),
            {
                let name: Vec<char> = ascii_lower_chars(&chars_of(link.pairs[i].0.as_str()));
                assert(all[i as int] == (link.pairs@[i as int].0@, link.pairs@[i as int].1@));
                if same_chars(&name, &xt) {
                    proof {
                        lemma_first_at(all, names_content(), i as int);
                    }
                    return string_of(&ascii_lower_chars(&chars_of(link.pairs[i].1.as_str())));
                }
            }
            proof {
                lemma_first_none(all, names_content());
            }
        }
    }
    s
}

/// Whether a string begins with `magnet:`, in letters of any case.
fn starts_like_magnet(s: &String) -> (r: bool)
    ensures
        r == is_magnet(s@),
{
    let chars: Vec<char> = chars_of(s.as_str());
    if chars.len() < 7 {
        return false;
    }
    let head: Vec<char> = ascii_lower_chars(slice_subrange(&chars, 0, 7));
    assert(s@.take(7) =~= chars@.subrange(0, 7));
    let magnet: Vec<char> = chars_of("magnet:");
    same_chars(&head, &magnet)
}

/// The key of a source is the key of the source with white space around it.
pub proof fn law_source_key_ignores_outer_space(source: Seq<char>)
    ensures
        source_key(trimmed(source)) == source_key(source),
{
    crate::text::law_trim_is_idempotent(source);
}

/// Two magnet links whose first content names are equal but for the case of ASCII
/// letters have the same key, whatever else stands in them.
pub proof fn law_magnet_key_is_its_content(
    a: Seq<char>,
    b: Seq<char>,
)
    requires
        is_magnet(trimmed(a)),
        is_magnet(trimmed(b)),
        parsed_url(trimmed(a)) is Some,
        parsed_url(trimmed(b)) is Some,
        first(url_pairs(trimmed(a)), names_content()) is Some,
        first(url_pairs(trimmed(b)), names_content()) is Some,
        ascii_lower((first(url_pairs(trimmed(a)), names_content())->0).1) == ascii_lower(
            (first(url_pairs(trimmed(b)), names_content())->0).1,
        ),
    ensures
        source_key(a) == source_key(b),
{
}

/// A source that is no magnet link is its own key, in every letter of it.
pub proof fn law_other_sources_keep_their_letters(source: Seq<char>)
    requires
        !is_magnet(trimmed(source)),
    ensures
        source_key(source) == trimmed(source),
{
}

/// The values of the pairs with a name.
pub open spec fn values_named(pairs: Seq<(Seq<char>, Seq<char>)>, name: Seq<char>) -> Seq<
    Seq<char>,
>
    decreases pairs.len(),
{
    if pairs.len() == 0 {
        Seq::empty()
    } else {
        let before = values_named(pairs.drop_last(), name);
        if pairs.last().0 == name {
            before.push(pairs.last().1)
        } else {
            before
        }
    }
}

/// The texts of `list` that do not stand in `known`, up to `max` of them.
pub open spec fn new_ones(list: Seq<Seq<char>>, known: Seq<Seq<char>>, max: nat) -> Seq<Seq<char>>
    decreases list.len(),
{
    if list.len() == 0 {
        Seq::empty()
    } else {
        let before = new_ones(list.drop_last(), known, max);
        if before.len() < max && !known.contains(list.last()) {
            before.push(list.last())
        } else {
            before
        }
    }
}

/// The trackers of a link: the values of its `tr` pairs.
pub open spec fn trackers_of(link: Seq<char>) -> Seq<Seq<char>> {
    match parsed_url(link) {
        Some((_, pairs)) => values_named(pairs, "tr"@),
        None => Seq::empty(),
    }
}

/// A magnet link with up to forty more trackers: those of the list that it does not
/// name yet. Any other source as it is.
pub open spec fn with_trackers(source: Seq<char>, trackers: Seq<Seq<char>>) -> Seq<char> {
    if "magnet:"@.is_prefix_of(source) && parsed_url(source) is Some {
        url_with_pairs(source, "tr"@, new_ones(trackers, trackers_of(source), 40))
    } else {
        source
    }
}

/// The longest link and the longest tracker that are put together.
pub open spec fn fit_together(source: Seq<char>, trackers: Seq<Seq<char>>) -> bool {
    source.len() <= 0x1000_0000 && forall|i: int|
        0 <= i < trackers.len() ==> (#[trigger] trackers[i]).len() <= 0x10_0000
}

/// Whether a link and trackers are short enough to be put together.
pub fn trackers_fit(source: &str, trackers: &Vec<String>) -> (r: bool)
    ensures
        r == fit_together(source@, texts(trackers@)),
{
    if chars_of(source).len() > 0x1000_0000 {
        return false;
    }
    for i in 0..trackers.len()
        invariant
            source@.len() <= 0x1000_0000,
            forall|j: int| 0 <= j < i ==> (#[trigger] texts(trackers@)[j]).len() <= 0x10_0000,
    {
        assert(texts(trackers@)[i as int] == trackers@[i as int]@);
        if chars_of(trackers[i].as_str()).len() > 0x10_0000 {
            return false;
        }
    }
    true
}

/// A magnet link with up to forty more trackers: those of the list that it does not
/// name yet. Any other source as it is.
pub fn magnet_with_trackers(source: &str, trackers: &Vec<String>) -> (prepared: String)
    requires
        fit_together(source@, texts(trackers@)),
    ensures
        prepared@ == with_trackers(source@, texts(trackers@)),
        "magnet:?"@.is_prefix_of(source@) && parsed_url(source@) is Some ==> {
            &&& parsed_url(prepared@) is Some
            &&& "magnet:?"@.is_prefix_of(prepared@)
            &&& trackers_of(prepared@) == trackers_of(source@) + new_ones(
                texts(trackers@),
                trackers_of(source@),
                40,
            )
            &&& trimmed(source@) == source@ && first(url_pairs(source@), names_content()) is Some
                ==> source_key(prepared@) == source_key(source@)
        },
{
    if !starts_with(source, "magnet:") {
        proof {
            if "magnet:?"@.is_prefix_of(source@) {
                lemma_magnet_prefix(source@);
            }
        }
        return source.to_owned();
    }
    let link = match parse_url(source) {
        Some(link) => link,
        None => {
            return source.to_owned();
        },
    };
    let existing: Vec<String> = values_with_name(&link.pairs, "tr");
    let fresh: Vec<String> = select_new(trackers, &existing);
    proof {
        reveal_strlit("tr");
        lemma_new_ones(texts(trackers@), texts(existing@), 40);
        assert forall|i: int| 0 <= i < fresh@.len() implies (#[trigger] fresh@[i])@.len()
            <= 0x10_0000 by {
            let v = texts(fresh@)[i];
            assert(texts(trackers@).contains(v));
            let k = choose|k: int| 0 <= k < trackers@.len() && texts(trackers@)[k] == v;
            assert(texts(trackers@)[k].len() <= 0x10_0000);
        }
    }
    let prepared = append_pairs(source, "tr", &fresh);
    proof {
        if "magnet:?"@.is_prefix_of(source@) {
            lemma_prepared(source@, texts(fresh@), prepared@);
        }
    }
    prepared
}

/// The new texts are among the listed ones and none of the known ones, and there are
/// at most `max`.
pub proof fn lemma_new_ones(list: Seq<Seq<char>>, known: Seq<Seq<char>>, max: nat)
    ensures
        new_ones(list, known, max).len() <= max,
        forall|i: int|
            0 <= i < new_ones(list, known, max).len() ==> list.contains(
                #[trigger] new_ones(list, known, max)[i],
            ) && !known.contains(new_ones(list, known, max)[i]),
    decreases list.len(),
{
    if list.len() > 0 {
        let rest = list.drop_last();
        lemma_new_ones(rest, known, max);
        let all = new_ones(list, known, max);
        let before = new_ones(rest, known, max);
        assert forall|i: int| 0 <= i < all.len() implies list.contains(#[trigger] all[i])
            && !known.contains(all[i]) by {
            if i < before.len() {
                assert(all[i] == before[i]);
                let k = choose|k: int| 0 <= k < rest.len() && rest[k] == before[i];
                assert(list[k] == all[i]);
            } else {
                assert(all[i] == list.last());
            }
        }
    }
}

proof fn lemma_values_append(
    pairs: Seq<(Seq<char>, Seq<char>)>,
    name: Seq<char>,
    values: Seq<Seq<char>>,
)
    ensures
        values_named(pairs + values.map_values(|v: Seq<char>| (name, v)), name) == values_named(
            pairs,
            name,
        ) + values,
    decreases values.len(),
{
    let added = values.map_values(|v: Seq<char>| (name, v));
    if values.len() == 0 {
        assert(pairs + added =~= pairs);
        assert(values_named(pairs, name) + values =~= values_named(pairs, name));
    } else {
        let rest = values.drop_last();
        lemma_values_append(pairs, name, rest);
        assert(added.drop_last() =~= rest.map_values(|v: Seq<char>| (name, v)));
        assert((pairs + added).drop_last() =~= pairs + added.drop_last());
        assert((pairs + added).last() == (name, values.last()));
        assert(values_named(pairs, name) + values =~= (values_named(pairs, name) + rest).push(
            values.last(),
        ));
    }
}

/// Trackers that are added change neither the content of a link nor the trackers that
/// it had.
proof fn lemma_prepared(source: Seq<char>, added: Seq<Seq<char>>, prepared: Seq<char>)
    requires
        "magnet:?"@.is_prefix_of(source),
        "magnet:?"@.is_prefix_of(prepared),
        parsed_url(source) is Some,
        forall|i: int| 0 <= i < prepared.len() ==> 33 <= #[trigger] prepared[i] as u32 <= 126,
        parsed_url(prepared) == Some(
            (
                url_scheme(source),
                url_pairs(source) + added.map_values(|v: Seq<char>| ("tr"@, v)),
            ),
        ),
    ensures
        trackers_of(prepared) == trackers_of(source) + added,
        trimmed(source) == source && first(url_pairs(source), names_content()) is Some
            ==> source_key(prepared) == source_key(source),
{
    let pairs = url_pairs(source);
    let more = added.map_values(|v: Seq<char>| ("tr"@, v));
    lemma_values_append(pairs, "tr"@, added);
    lemma_magnet_prefix(source);
    lemma_magnet_prefix(prepared);
    assert(trimmed(prepared) == prepared) by {
        reveal_strlit("magnet:?");
        assert(prepared.len() >= 8);
        assert(!is_space(prepared[0]));
        assert(!is_space(prepared.last()));
        assert(trim_start(prepared) == prepared);
        assert(trim_end(prepared) == prepared);
    }
    lemma_first_of_more(pairs, more);
}

/// A link that begins with `magnet:?` is a magnet link.
proof fn lemma_magnet_prefix(s: Seq<char>)
    requires
        "magnet:?"@.is_prefix_of(s),
    ensures
        "magnet:"@.is_prefix_of(s),
        is_magnet(s),
{
    reveal_strlit("magnet:");
    reveal_strlit("magnet:?");
    assert("magnet:?"@.subrange(0, 7) =~= "magnet:"@);
    assert(s.subrange(0, 8).subrange(0, 7) =~= s.subrange(0, 7));
    assert(s.take(7) =~= "magnet:"@);
    assert(ascii_lower("magnet:"@) =~= "magnet:"@);
}

/// Trackers behind the pairs of a link do not name its content.
proof fn lemma_first_of_more(
    pairs: Seq<(Seq<char>, Seq<char>)>,
    more: Seq<(Seq<char>, Seq<char>)>,
)
    requires
        forall|i: int| 0 <= i < more.len() ==> (#[trigger] more[i]).0 == "tr"@,
    ensures
        first(pairs + more, names_content()) == first(pairs, names_content()),
    decreases pairs.len(),
{
    reveal_strlit("tr");
    reveal_strlit("xt");
    assert(ascii_lower("tr"@)[0] == 't');
    if pairs.len() == 0 {
        assert(pairs + more =~= more);
        assert forall|j: int| 0 <= j < more.len() implies !names_content()(#[trigger] more[j]) by {
            assert(more[j].0 == "tr"@);
        }
        lemma_first_none(more, names_content());
    } else {
        assert((pairs + more).drop_first() =~= pairs.drop_first() + more);
        assert((pairs + more)[0] == pairs[0]);
        lemma_first_of_more(pairs.drop_first(), more);
    }
}

/// The values of the pairs with a name.
fn values_with_name(pairs: &Vec<(String, String)>, name: &str) -> (values: Vec<String>)
    ensures
        texts(values@) == values_named(pairs_view(pairs@), name@),
{
    let ghost all = pairs_view(pairs@);
    let mut values: Vec<String> = Vec::new();
    assert(texts(values@) =~= values_named(all.take(0), name@));
    for i in 0..pairs.len()
        invariant
            all == pairs_view(pairs@),
            texts(values@) == values_named(all.take(i as int), name@),
    {
        assert(all.take(i + 1).drop_last() =~= all.take(i as int));
        let ghost before = values@;
        if same(pairs[i].0.as_str(), name) {
            values.push(pairs[i].1.clone());
            assert(texts(values@) =~= texts(before).push(pairs@[i as int].1@));
        }
    }
    assert(all.take(pairs@.len() as int) =~= all);
    values
}

/// Up to forty of the listed texts that are not known.
fn select_new(list: &Vec<String>, known: &Vec<String>) -> (r: Vec<String>)
    ensures
        texts(r@) == new_ones(texts(list@), texts(known@), 40),
        r@.len() <= 40,
{
    let ghost all = texts(list@);
    let mut r: Vec<String> = Vec::new();
    assert(texts(r@) =~= new_ones(all.take(0), texts(known@), 40));
    for i in 0..list.len()
        invariant
            all == texts(list@),
            r@.len() <= 40,
            texts(r@) == new_ones(all.take(i as int), texts(known@), 40),
    {
        assert(all.take(i + 1).drop_last() =~= all.take(i as int));
        let ghost before = r@;
        if r.len() < 40 && !list_has(known, list[i].as_str()) {
            r.push(list[i].clone());
            assert(texts(r@) =~= texts(before).push(list@[i as int]@));
        }
    }
    assert(all.take(list@.len() as int) =~= all);
    r
}

} // verus!
