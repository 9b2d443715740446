//! What is read from and sent to Bangumi.

use crate::json::{
    Json, as_bits, as_i64, as_text, bits_of, deref, derefs, elements, elements_of, field, field2,
    int_of, json_int, lemma_lookup_at, member, member_names, text_of, text_or_empty, to_text,
};
use crate::models::{Score, Subject, SubjectView, greater_score};
use crate::numbers::{decimal, decimal_i64};
use crate::rows::views;
use crate::text::{append, opt_str, opt_text, same, starts_with, string_of};
use vstd::prelude::*;
use vstd::slice::slice_subrange;

verus! {

/// Whether an image stands on one of Bangumi's hosts and is addressed without encryption.
pub open spec fn plain_image(url: Seq<char>) -> bool {
    "http://lain.bgm.tv/"@.is_prefix_of(url) || "http://bgm.tv/"@.is_prefix_of(url)
}

/// The address of an image: on Bangumi's hosts always an encrypted one.
pub open spec fn secure_image(url: Seq<char>) -> Seq<char> {
    if plain_image(url) {
        "https://"@ + url.skip(7)
    } else {
        url
    }
}

/// The address of an optional image.
pub open spec fn secure_opt_image(url: Option<Seq<char>>) -> Option<Seq<char>> {
    match url {
        Some(u) => Some(secure_image(u)),
        None => None,
    }
}

/// The address of an image: on Bangumi's hosts always an encrypted one.
pub fn https_image(url: Option<String>) -> (r: Option<String>)
    ensures
        opt_text(r) == secure_opt_image(opt_text(url)),
{
    match url {
        Some(url) => {
            if starts_with(url.as_str(), "http://lain.bgm.tv/") || starts_with(
                url.as_str(),
                "http://bgm.tv/",
            ) {
                let chars: Vec<char> = crate::text::chars_of(url.as_str());
                proof {
                    reveal_strlit("http://lain.bgm.tv/");
                    reveal_strlit("http://bgm.tv/");
                    assert(url@.len() >= 7);
                }
                let rest: String = string_of(slice_subrange(&chars, 7, chars.len()));
                assert(rest@ =~= url@.skip(7));
                let mut secure = "https://".to_owned();
                append(&mut secure, rest.as_str());
                Some(secure)
            } else {
                Some(url)
            }
        },
        None => None,
    }
}

/// An address that was secured needs no securing.
pub proof fn law_securing_twice_is_securing_once(url: Seq<char>)
    ensures
        secure_image(secure_image(url)) == secure_image(url),
{
    reveal_strlit("https://");
    reveal_strlit("http://lain.bgm.tv/");
    reveal_strlit("http://bgm.tv/");
    if plain_image(url) {
        let secure = secure_image(url);
        assert(secure[4] == 's');
        assert("http://lain.bgm.tv/"@[4] == ':');
        assert("http://bgm.tv/"@[4] == ':');
        if "http://lain.bgm.tv/"@.is_prefix_of(secure) {
            assert(secure.subrange(0, 19)[4] == "http://lain.bgm.tv/"@[4]);
        }
        if "http://bgm.tv/"@.is_prefix_of(secure) {
            assert(secure.subrange(0, 14)[4] == "http://bgm.tv/"@[4]);
        }
    }
}

/// A rating that may be absent: zero stands for none.
pub open spec fn score_or_zero(value: Option<Json>) -> Score {
    match bits_of(value) {
        Some(bits) => Score { bits },
        None => Score { bits: 0 },
    }
}

/// The first of two whole numbers that is there.
pub open spec fn int_or(a: Option<i64>, b: Option<i64>) -> Option<i64> {
    match a {
        Some(_) => a,
        None => b,
    }
}

/// The subject that a document of Bangumi describes. Two forms of documents are read: the
/// full one, and the slim one in which some fields have other names and places. The number of
/// episodes goes by any of three names.
pub open spec fn v0_subject(
    value: Json,
    collection: Option<Seq<char>>,
    watched: i64,
) -> SubjectView {
    SubjectView {
        id: match int_of(field(value, "id"@)) {
            Some(id) => id,
            None => 0,
        },
        name: text_or_empty(field(value, "name"@)),
        name_cn: text_or_empty(field(value, "name_cn"@)),
        summary: match field(value, "summary"@) {
            Some(v) => text_or_empty(Some(v)),
            None => text_or_empty(field(value, "short_summary"@)),
        },
        image: secure_opt_image(text_of(field2(value, "images"@, "large"@))),
        score: greater_score(
            score_or_zero(field2(value, "rating"@, "score"@)),
            score_or_zero(field(value, "score"@)),
        ),
        rank: match int_or(
            int_of(field2(value, "rating"@, "rank"@)),
            int_of(field(value, "rank"@)),
        ) {
            Some(rank) if rank > 0 => Some(rank),
            _ => None,
        },
        air_weekday: (-1) as i64,
        collection,
        episodes: match int_or(
            int_or(int_of(field(value, "total_episodes"@)), int_of(field(value, "eps"@))),
            int_of(field(value, "eps_count"@)),
        ) {
            Some(n) => n,
            None => 0,
        },
        watched,
        update_state: "none"@,
    }
}

/// A rating that may be absent.
fn number(value: Option<&Json>) -> (score: Score)
    ensures
        score == score_or_zero(deref(value)),
{
    match as_bits(value) {
        Some(bits) => Score { bits },
        None => Score { bits: 0 },
    }
}

/// The subject that a document of Bangumi describes.
pub fn subject_from_v0(value: &Json, collection: Option<String>, watched: i64) -> (subject: Subject)
    ensures
        subject@ == v0_subject(*value, opt_text(collection), watched),
{
    let id: i64 = match as_i64(value.get("id")) {
        Some(id) => id,
        None => 0,
    };
    let summary: String = match value.get("summary") {
        Some(v) => to_text(Some(v)),
        None => to_text(value.get("short_summary")),
    };
    let image: Option<String> = match as_text(value.get2("images", "large")) {
        Some(s) => Some(s.to_owned()),
        None => None,
    };
    let rank: Option<i64> = match as_i64(value.get2("rating", "rank")) {
        Some(r) => Some(r),
        None => as_i64(value.get("rank")),
    };
    let rank: Option<i64> = match rank {
        Some(r) => if r > 0 {
            Some(r)
        } else {
            None
        },
        None => None,
    };
    let episodes: i64 = match as_i64(value.get("total_episodes")) {
        Some(n) => n,
        None => match as_i64(value.get("eps")) {
            Some(n) => n,
            None => match as_i64(value.get("eps_count")) {
                Some(n) => n,
                None => 0,
            },
        },
    };
    let subject = Subject {
        id,
        name: to_text(value.get("name")),
        name_cn: to_text(value.get("name_cn")),
        summary,
        image: https_image(image),
        score: number(value.get2("rating", "score")).greater(number(value.get("score"))),
        rank,
        air_weekday: -1,
        collection,
        episodes,
        watched,
        update_state: "none".to_owned(),
    };
    assert(subject@ =~= v0_subject(*value, opt_text(collection), watched));
    subject
}

/// The weekday of a day of the calendar: Bangumi counts from 1 for Monday, and 0 is Sunday
/// too.
pub open spec fn calendar_weekday(day: Json) -> i64 {
    match int_of(field2(day, "weekday"@, "id"@)) {
        Some(id) => if id == 0 {
            6
        } else if id == i64::MIN {
            i64::MAX
        } else {
            (id - 1) as i64
        },
        None => 0,
    }
}

/// The weekday of a day of the calendar.
fn weekday_of(day: &Json) -> (weekday: i64)
    ensures
        weekday == calendar_weekday(*day),
{
    match as_i64(day.get2("weekday", "id")) {
        Some(id) => if id == 0 {
            6
        } else if id == i64::MIN {
            i64::MAX
        } else {
            id - 1
        },
        None => 0,
    }
}

/// A subject of the calendar. Its own weekday, where it names one, counts more than the
/// day that it is listed under.
pub open spec fn calendar_subject(value: Json, weekday: i64) -> SubjectView {
    SubjectView {
        air_weekday: match int_of(field(value, "air_weekday"@)) {
            Some(day) if 1 <= day <= 7 => (day - 1) as i64,
            _ => weekday,
        },
        ..v0_subject(value, None, 0)
    }
}

/// The subjects of a day of the calendar.
pub open spec fn day_subjects(day: Json) -> Seq<SubjectView> {
    elements_of(field(day, "items"@)).map_values(
        |value: Json| calendar_subject(value, calendar_weekday(day)),
    )
}

/// The subjects of the calendar, day by day.
pub open spec fn week_subjects(days: Seq<Json>) -> Seq<SubjectView>
    decreases days.len(),
{
    if days.len() == 0 {
        Seq::empty()
    } else {
        week_subjects(days.drop_last()) + day_subjects(days.last())
    }
}

/// The subjects of the calendar, day by day.
pub fn calendar(days: &Vec<Json>) -> (out: Vec<Subject>)
    ensures
        views(out@) == week_subjects(days@),
{
    let mut out: Vec<Subject> = Vec::new();
    assert(views(out@) =~= week_subjects(days@.take(0)));
    for i in 0..days.len()
        invariant
            views(out@) == week_subjects(days@.take(i as int)),
    {
        let day: &Json = &days[i];
        let ghost before = views(out@);
        assert(days@.take(i + 1).drop_last() =~= days@.take(i as int));
        let weekday: i64 = weekday_of(day);
        let list: Vec<&Json> = elements(day.get("items"));
        let ghost items = elements_of(field(*day, "items"@));
        assert(views(out@) =~= before + day_subjects(*day).take(0));
        for k in 0..list.len()
            invariant
                weekday == calendar_weekday(*day),
                derefs(list@) == items,
                items == elements_of(field(*day, "items"@)),
                views(out@) == before + day_subjects(*day).take(k as int),
        {
            let value: &Json = list[k];
            assert(derefs(list@)[k as int] == *value);
            let ghost sofar = out@;
            let mut subject: Subject = subject_from_v0(value, None, 0);
            subject.air_weekday = match as_i64(value.get("air_weekday")) {
                Some(day) => if 1 <= day && day <= 7 {
                    day - 1
                } else {
                    weekday
                },
                None => weekday,
            };
            assert(subject@ =~= calendar_subject(*value, weekday));
            out.push(subject);
            assert(views(out@) =~= views(sofar).push(subject@));
            assert(day_subjects(*day)[k as int] == subject@);
            assert(day_subjects(*day).take(k + 1) =~= day_subjects(*day).take(k as int).push(
                subject@,
            ));
        }
        assert(day_subjects(*day).take(list@.len() as int) =~= day_subjects(*day));
    }
    assert(days@.take(days@.len() as int) =~= days@);
    out
}

/// How many subjects a search asks for.
pub open spec fn remote_limit(limit: u32) -> u32 {
    if limit < 30 {
        limit
    } else {
        30
    }
}

/// How many subjects a search asks for.
pub fn search_limit(limit: u32) -> (r: u32)
    ensures
        r == remote_limit(limit),
{
    if limit < 30 {
        limit
    } else {
        30
    }
}

/// Whether a document asks for the best matches of a keyword among the anime that are fit for
/// everyone, and holds nothing else.
pub open spec fn asks_for(body: Json, keyword: Seq<char>) -> bool {
    &&& text_of(field(body, "keyword"@)) == Some(keyword)
    &&& text_of(field(body, "sort"@)) == Some("match"@)
    &&& elements_of(field2(body, "filter"@, "type"@)).len() == 1
    &&& int_of(Some(elements_of(field2(body, "filter"@, "type"@))[0])) == Some(2i64)
    &&& field2(body, "filter"@, "nsfw"@) == Some(Json::Bool(false))
    &&& member_names(Some(body)) == seq!["keyword"@, "sort"@, "filter"@]
    &&& member_names(field(body, "filter"@)) == seq!["type"@, "nsfw"@]
}

/// What a search is asked with: the keyword, the best matches first, only anime that are
/// fit for everyone.
pub fn search_body(keyword: &str) -> (body: Json)
    ensures
        asks_for(body, keyword@),
{
    let filter: Vec<(String, Json)> = vec![
        member("type", Json::List(vec![json_int(2)])),
        member("nsfw", Json::Bool(false)),
    ];
    let members: Vec<(String, Json)> = vec![
        member("keyword", Json::Text(keyword.to_owned())),
        member("sort", Json::Text("match".to_owned())),
        member("filter", Json::Object(filter)),
    ];
    proof {
        reveal_strlit("keyword");
        reveal_strlit("sort");
        reveal_strlit("filter");
        reveal_strlit("type");
        reveal_strlit("nsfw");
        assert(filter@[0].0@[0] == 't' && filter@[1].0@[0] == 'n');
        assert(members@[0].0@.len() == 7 && members@[1].0@.len() == 4 && members@[2].0@.len()
            == 6);
        lemma_lookup_at(members@, 0);
        lemma_lookup_at(members@, 1);
        lemma_lookup_at(members@, 2);
        lemma_lookup_at(filter@, 0);
        lemma_lookup_at(filter@, 1);
        assert(member_names(Some(Json::Object(members))) =~= seq!["keyword"@, "sort"@, "filter"@]);
        assert(member_names(Some(Json::Object(filter))) =~= seq!["type"@, "nsfw"@]);
    }
    Json::Object(members)
}

/// The subjects of a page of search results.
pub open spec fn found_subjects(page: Json) -> Seq<SubjectView> {
    elements_of(field(page, "data"@)).map_values(|value: Json| v0_subject(value, None, 0))
}

/// The subjects of a page of search results.
pub fn search_subjects(page: &Json) -> (subjects: Vec<Subject>)
    ensures
        views(subjects@) == found_subjects(*page),
{
    let list: Vec<&Json> = elements(page.get("data"));
    let ghost items = elements_of(field(*page, "data"@));
    let mut subjects: Vec<Subject> = Vec::new();
    for k in 0..list.len()
        invariant
            derefs(list@) == items,
            subjects@.len() == k,
            forall|j: int|
                0 <= j < k ==> (#[trigger] subjects@[j])@ == v0_subject(items[j], None, 0),
    {
        assert(derefs(list@)[k as int] == *list@[k as int]);
        subjects.push(subject_from_v0(list[k], None, 0));
    }
    assert(views(subjects@) =~= items.map_values(|value: Json| v0_subject(value, None, 0)));
    subjects
}

/// The name of a collection kind.
pub open spec fn slug_of(kind: i64) -> Option<Seq<char>> {
    if kind == 1 {
        Some("wish"@)
    } else if kind == 2 {
        Some("collect"@)
    } else if kind == 3 {
        Some("doing"@)
    } else if kind == 4 {
        Some("on_hold"@)
    } else if kind == 5 {
        Some("dropped"@)
    } else {
        None
    }
}

/// The number of a collection kind.
pub open spec fn kind_of(slug: Seq<char>) -> Option<i64> {
    if slug == "wish"@ {
        Some(1)
    } else if slug == "collect"@ {
        Some(2)
    } else if slug == "doing"@ {
        Some(3)
    } else if slug == "on_hold"@ {
        Some(4)
    } else if slug == "dropped"@ {
        Some(5)
    } else {
        None
    }
}

/// The name of a collection kind.
pub fn collection_slug(kind: i64) -> (slug: Option<&'static str>)
    ensures
        opt_str(slug) == slug_of(kind),
{
    match kind {
        1 => Some("wish"),
        2 => Some("collect"),
        3 => Some("doing"),
        4 => Some("on_hold"),
        5 => Some("dropped"),
        _ => None,
    }
}

/// The number of a collection kind.
pub fn collection_kind(slug: &str) -> (kind: Option<i64>)
    ensures
        kind == kind_of(slug@),
{
    if same(slug, "wish") {
        Some(1)
    } else if same(slug, "collect") {
        Some(2)
    } else if same(slug, "doing") {
        Some(3)
    } else if same(slug, "on_hold") {
        Some(4)
    } else if same(slug, "dropped") {
        Some(5)
    } else {
        None
    }
}

/// The name of a kind gives the kind back, and the kind of a name the name.
pub proof fn law_kind_and_slug_are_inverses(kind: i64, slug: Seq<char>)
    ensures
        slug_of(kind) matches Some(s) ==> kind_of(s) == Some(kind),
        kind_of(slug) matches Some(k) ==> slug_of(k) == Some(slug),
{
    reveal_strlit("wish");
    reveal_strlit("collect");
    reveal_strlit("doing");
    reveal_strlit("on_hold");
    reveal_strlit("dropped");
    assert("wish"@.len() == 4 && "doing"@.len() == 5);
    assert("collect"@.len() == 7 && "on_hold"@.len() == 7 && "dropped"@.len() == 7);
    assert("collect"@[0] == 'c');
    assert("on_hold"@[0] == 'o');
    assert("dropped"@[0] == 'd');
}

/// The entries of a page of a collection. A page is an object; a value of another shape
/// has none.
pub fn collection_page_data(page: &Json) -> (data: Vec<&Json>)
    ensures
        derefs(data@) == elements_of(field(*page, "data"@)),
{
    elements(page.get("data"))
}

/// How many entries a full page of a collection has.
pub const PAGE_SIZE: usize = 50;

/// Where the page after one begins that begins at an offset and has some entries.
pub open spec fn page_after(offset: u64, count: usize) -> Option<u64> {
    if count < PAGE_SIZE || offset > u64::MAX - 50 {
        None
    } else {
        Some((offset + 50) as u64)
    }
}

/// Where the next page of a collection begins: nowhere after a page that is not full.
pub fn next_page(offset: u64, count: usize) -> (next: Option<u64>)
    ensures
        next == page_after(offset, count),
{
    if count < PAGE_SIZE || offset > u64::MAX - 50 {
        None
    } else {
        Some(offset + 50)
    }
}

/// Where the collection of a subject is changed.
pub open spec fn collection_url(subject_id: i64) -> Seq<char> {
    "https://api.bgm.tv/v0/users/-/collections/"@ + decimal(subject_id as int)
}

/// Whether a document changes a collection to a kind, with the watched episodes where they are
/// given, and holds nothing else.
pub open spec fn changes_collection(body: Json, kind: i64, ep: Option<i64>) -> bool {
    &&& int_of(field(body, "type"@)) == Some(kind)
    &&& int_of(field(body, "ep"@)) == ep
    &&& member_names(Some(body)) == if ep is Some {
        seq!["type"@, "ep"@]
    } else {
        seq!["type"@]
    }
}

/// How the collection of a subject is changed: the address and the document to send. The
/// watched episodes are sent only where they are given, and nothing else is sent.
pub fn collection_request(subject_id: i64, collection: &str, ep: Option<i64>) -> (r: Result<
    (String, Json),
    String,
>)
    ensures
        match r {
            Ok(request) => {
                &&& kind_of(collection@) is Some
                &&& request.0@ == collection_url(subject_id)
                &&& changes_collection(request.1, kind_of(collection@)->0, ep)
            },
            Err(e) => kind_of(collection@) is None && e@ == "收藏状态无效"@,
        },
{
    let kind: i64 = match collection_kind(collection) {
        Some(kind) => kind,
        None => {
            return Err("收藏状态无效".to_owned());
        },
    };
    let mut url = "https://api.bgm.tv/v0/users/-/collections/".to_owned();
    append(&mut url, decimal_i64(subject_id).as_str());
    let mut members: Vec<(String, Json)> = vec![member("type", json_int(kind as i128))];
    proof {
        reveal_strlit("type");
        reveal_strlit("ep");
        assert(members@[0].0@.len() == 4);
        reveal_with_fuel(crate::json::lookup, 3);
    }
    if let Some(ep) = ep {
        members.push(member("ep", json_int(ep as i128)));
        proof {
            assert(members@[1].0@.len() == 2);
            lemma_lookup_at(members@, 0);
            lemma_lookup_at(members@, 1);
            assert(member_names(Some(Json::Object(members))) =~= seq!["type"@, "ep"@]);
        }
    } else {
        assert(member_names(Some(Json::Object(members))) =~= seq!["type"@]);
    }
    Ok((url, Json::Object(members)))
}

/// Where the details of a subject are read.
pub open spec fn detail_address(subject_id: i64) -> Seq<char> {
    "https://api.bgm.tv/v0/subjects/"@ + decimal(subject_id as int)
}

/// Where the details of a subject are read.
pub fn subject_url(subject_id: i64) -> (url: String)
    ensures
        url@ == detail_address(subject_id),
{
    let mut url: String = "https://api.bgm.tv/v0/subjects/".to_owned();
    append(&mut url, decimal_i64(subject_id).as_str());
    url
}

/// Where the comments on a subject are read.
pub open spec fn comments_address(subject_id: i64) -> Seq<char> {
    "https://next.bgm.tv/p1/subjects/"@ + decimal(subject_id as int) + "/comments"@
}

/// Where the comments on a subject are read.
pub fn comments_url(subject_id: i64) -> (url: String)
    ensures
        url@ == comments_address(subject_id),
{
    let mut url: String = "https://next.bgm.tv/p1/subjects/".to_owned();
    append(&mut url, decimal_i64(subject_id).as_str());
    append(&mut url, "/comments");
    url
}

/// Where the collection of a user is read.
pub open spec fn collections_address(username: Seq<char>) -> Seq<char> {
    "https://api.bgm.tv/v0/users/"@ + username + "/collections"@
}

/// Where the collection of a user is read.
pub fn collections_url(username: &str) -> (url: String)
    ensures
        url@ == collections_address(username@),
{
    let mut url: String = "https://api.bgm.tv/v0/users/".to_owned();
    append(&mut url, username);
    append(&mut url, "/collections");
    url
}

/// The name of the user of a profile, or what is said where there is none.
pub open spec fn username_in(profile: Json) -> Result<Seq<char>, Seq<char>> {
    match text_of(field(profile, "username"@)) {
        Some(name) => Ok(name),
        None => Err("无法识别 Bangumi 用户"@),
    }
}

/// The name of the user of a profile.
pub fn profile_username<'a>(profile: &'a Json) -> (r: Result<&'a str, String>)
    ensures
        match r {
            Ok(name) => username_in(*profile) == Ok::<Seq<char>, Seq<char>>(name@),
            Err(e) => username_in(*profile) == Err::<Seq<char>, Seq<char>>(e@),
        },
{
    match as_text(profile.get("username")) {
        Some(name) => Ok(name),
        None => Err("无法识别 Bangumi 用户".to_owned()),
    }
}

} // verus!
