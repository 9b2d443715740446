//! What holds of what is read from Bangumi and of broadcast data: which member of a document stands
//! for what, and what the weekly calendar lists.

use crate::bangumi::{
    calendar_subject, calendar_weekday, day_subjects, page_after, secure_image, secure_opt_image,
    v0_subject, week_subjects,
};
use crate::bgmlist::{
    Item, chinese_title, first_mikan, id_on, item_subject, item_subjects, mikan_numbers,
    weekly_broadcast,
};
use crate::clock::{jst_weekday, rfc3339_moment};
use crate::collection::cover_of;
use crate::covers::{begins_as_jpeg, cover_address, cover_fits, cover_name, is_cover_name};
use crate::json::{Json, bits_of, elements_of, field, field2, int_of, list_of, text_of};
use crate::laws::collection::says;
use crate::models::{Score, SubjectView, greater_score, score_rank};
use crate::text::{find_from, lemma_find_from, occurs_at};
use vstd::prelude::*;

verus! {

/// What is read of a subject: its number, its names, its summary, which goes by another name in
/// slim documents, its rank where it has one, and its episodes by the first of three names that is
/// there. What is missing is empty or zero. The collection and the watched episodes are those that
/// were given, and no weekday and no badge are known.
pub proof fn law_subjects_are_read(value: Json, collection: Option<Seq<char>>, watched: i64)
    ensures
        ({
            let s = v0_subject(value, collection, watched);
            let nested = int_of(field2(value, "rating"@, "rank"@));
            let flat = int_of(field(value, "rank"@));
            &&& int_of(field(value, "id"@)) is Some ==> s.id == int_of(field(value, "id"@))->0
            &&& int_of(field(value, "id"@)) is None ==> s.id == 0
            &&& text_of(field(value, "name"@)) matches Some(t) ==> s.name == t
            &&& text_of(field(value, "name"@)) is None ==> s.name.len() == 0
            &&& text_of(field(value, "name_cn"@)) matches Some(t) ==> s.name_cn == t
            &&& text_of(field(value, "name_cn"@)) is None ==> s.name_cn.len() == 0
            &&& text_of(field(value, "summary"@)) matches Some(t) ==> s.summary == t
            &&& field(value, "summary"@) is None ==> (text_of(
                field(value, "short_summary"@),
            ) matches Some(t) ==> s.summary == t)
            &&& s.image == secure_opt_image(text_of(field2(value, "images"@, "large"@)))
            &&& nested is Some && nested->0 > 0 ==> s.rank == nested
            &&& nested is Some && nested->0 <= 0 ==> s.rank is None
            &&& nested is None && flat is Some && flat->0 > 0 ==> s.rank == flat
            &&& nested is None && !(flat is Some && flat->0 > 0) ==> s.rank is None
            &&& s.collection == collection
            &&& s.watched == watched
            &&& s.air_weekday == -1
            &&& s.update_state == "none"@
        }),
{
}

/// The episodes of a subject go by the first of three names that holds a whole number.
pub proof fn law_episodes_go_by_three_names(value: Json, n: i64)
    ensures
        ({
            let read = v0_subject(value, None, 0).episodes;
            let total = int_of(field(value, "total_episodes"@));
            let eps = int_of(field(value, "eps"@));
            let count = int_of(field(value, "eps_count"@));
            &&& total == Some(n) ==> read == n
            &&& total is None && eps == Some(n) ==> read == n
            &&& total is None && eps is None && count == Some(n) ==> read == n
            &&& total is None && eps is None && count is None ==> read == 0
        }),
{
}

/// Of the two ratings that a document may hold the greater one counts, and a missing one as zero.
pub proof fn law_the_greater_rating_counts(value: Json, a: u64, b: u64)
    ensures
        ({
            let nested = bits_of(field2(value, "rating"@, "score"@));
            let flat = bits_of(field(value, "score"@));
            let read = v0_subject(value, None, 0).score.bits;
            &&& nested == Some(a) && flat == Some(b) ==> (read == a || read == b) && score_rank(read)
                >= score_rank(a) && score_rank(read) >= score_rank(b)
            &&& nested == Some(a) && flat is None ==> score_rank(read) >= score_rank(a) && (read == a
                || read == 0)
            &&& nested is None && flat == Some(b) ==> score_rank(read) >= score_rank(b) && (read == b
                || read == 0)
            &&& nested is None && flat is None ==> read == 0
        }),
{
}

/// Ratings are ordered as the numbers that their bits stand for: positive ones by their bits,
/// negative ones the other way round and below them.
pub proof fn law_ratings_are_ordered_as_numbers(a: u64, b: u64)
    ensures
        a < 0x8000_0000_0000_0000 && b < 0x8000_0000_0000_0000 ==> (score_rank(a) < score_rank(b)
            <==> a < b),
        a > 0x8000_0000_0000_0000 && b > 0x8000_0000_0000_0000 ==> (score_rank(a) < score_rank(b)
            <==> a > b),
        a > 0x8000_0000_0000_0000 && b < 0x8000_0000_0000_0000 ==> score_rank(a) < score_rank(b),
        score_rank(0x8000_0000_0000_0000) == score_rank(0),
        greater_score(Score { bits: a }, Score { bits: b }).bits == if score_rank(a) < score_rank(
            b,
        ) {
            b
        } else {
            a
        },
{
}

/// Images of Bangumi's hosts are addressed with encryption; other addresses stay.
pub proof fn law_images_are_secured(rest: Seq<char>, url: Seq<char>)
    ensures
        secure_image("http://lain.bgm.tv/"@ + rest) == "https://lain.bgm.tv/"@ + rest,
        secure_image("http://bgm.tv/"@ + rest) == "https://bgm.tv/"@ + rest,
        !"http://lain.bgm.tv/"@.is_prefix_of(url) && !"http://bgm.tv/"@.is_prefix_of(url)
            ==> secure_image(url) == url,
        secure_opt_image(Some(url)) == Some(secure_image(url)),
        secure_opt_image(None) is None,
{
    reveal_strlit("http://lain.bgm.tv/");
    reveal_strlit("http://bgm.tv/");
    reveal_strlit("https://lain.bgm.tv/");
    reveal_strlit("https://bgm.tv/");
    reveal_strlit("https://");
    let a = "http://lain.bgm.tv/"@ + rest;
    let b = "http://bgm.tv/"@ + rest;
    assert(a.subrange(0, 19) =~= "http://lain.bgm.tv/"@);
    assert(b.subrange(0, 14) =~= "http://bgm.tv/"@);
    assert("https://"@ + a.skip(7) =~= "https://lain.bgm.tv/"@ + rest);
    assert("https://"@ + b.skip(7) =~= "https://bgm.tv/"@ + rest);
}

/// Days are counted from one for Monday to seven for Sunday, and zero is Sunday too. The weekday
/// that a subject names itself counts more than the day that lists it.
pub proof fn law_days_are_counted_from_monday(day: Json, value: Json, n: i64, weekday: i64)
    ensures
        int_of(field2(day, "weekday"@, "id"@)) == Some(n) && 1 <= n <= 7 ==> calendar_weekday(day)
            == n - 1,
        int_of(field2(day, "weekday"@, "id"@)) == Some(0i64) ==> calendar_weekday(day) == 6,
        int_of(field2(day, "weekday"@, "id"@)) is None ==> calendar_weekday(day) == 0,
        int_of(field(value, "air_weekday"@)) == Some(n) && 1 <= n <= 7 ==> calendar_subject(
            value,
            weekday,
        ).air_weekday == n - 1,
        int_of(field(value, "air_weekday"@)) == Some(n) && !(1 <= n <= 7) ==> calendar_subject(
            value,
            weekday,
        ).air_weekday == weekday,
        int_of(field(value, "air_weekday"@)) is None ==> calendar_subject(
            value,
            weekday,
        ).air_weekday == weekday,
        calendar_subject(value, weekday) == (SubjectView {
            air_weekday: calendar_subject(value, weekday).air_weekday,
            ..v0_subject(value, None, 0)
        }),
{
}

/// The calendar lists the subjects of each day in their order, day by day.
pub proof fn law_days_are_listed_in_turn(days: Seq<Json>, day: Json, k: int)
    ensures
        week_subjects(Seq::empty()).len() == 0,
        week_subjects(days.push(day)) == week_subjects(days) + day_subjects(day),
        list_of(field(day, "items"@)) is None ==> day_subjects(day).len() == 0,
        list_of(field(day, "items"@)) matches Some(items) ==> day_subjects(day).len() == items.len()
            && (0 <= k < items.len() ==> day_subjects(day)[k] == calendar_subject(
            items[k],
            calendar_weekday(day),
        )),
{
    assert(days.push(day).drop_last() =~= days);
}

/// A full page of fifty is followed by the next fifty, a shorter one by none.
pub proof fn law_pages_follow_full_pages(offset: u64, count: usize)
    ensures
        count < 50 ==> page_after(offset, count) is None,
        count >= 50 && offset <= u64::MAX - 50 ==> page_after(offset, count) == Some(
            (offset + 50) as u64,
        ),
{
}

/// Weekly broadcasts are those whose rule names a time and a period of seven days.
pub proof fn law_weekly_rules_are_read(time: Seq<char>, period: Seq<char>, rule: Seq<char>)
    requires
        !time.contains('/'),
    ensures
        weekly_broadcast("R/"@ + time + "/P7D"@) == rfc3339_moment(time),
        period != "P7D"@ ==> weekly_broadcast("R/"@ + time + "/"@ + period) is None,
        !"R/"@.is_prefix_of(rule) ==> weekly_broadcast(rule) is None,
{
    reveal_strlit("R/");
    reveal_strlit("/P7D");
    reveal_strlit("P7D");
    reveal_strlit("/");
    lemma_weekly(time, "P7D"@);
    lemma_weekly(time, period);
    assert("R/"@ + time + "/P7D"@ =~= "R/"@ + time + "/"@ + "P7D"@);
}

proof fn lemma_weekly(time: Seq<char>, period: Seq<char>)
    requires
        !time.contains('/'),
    ensures
        weekly_broadcast("R/"@ + time + "/"@ + period) == if period == "P7D"@ {
            rfc3339_moment(time)
        } else {
            None
        },
{
    reveal_strlit("R/");
    reveal_strlit("/");
    let rule = "R/"@ + time + "/"@ + period;
    assert(rule.subrange(0, 2) =~= "R/"@);
    let rest = rule.skip(2);
    let n = time.len() as int;
    let slash = seq!['/'];
    lemma_find_from(rest, slash, 0);
    assert(rest =~= time + "/"@ + period);
    assert(rest.subrange(n, n + 1) =~= slash);
    assert(occurs_at(rest, slash, n));
    assert forall|j: int| 0 <= j < n implies !occurs_at(rest, slash, j) by {
        if occurs_at(rest, slash, j) {
            assert(rest.subrange(j, j + 1)[0] == '/');
            assert(time[j] == '/');
        }
    }
    assert(find_from(rest, slash, 0) == Some(n));
    assert(rest.skip(n + 1) =~= period);
    assert(rest.take(n) =~= time);
}

/// A subject is listed weekly exactly where it has a number on Bangumi and a weekly broadcast, on
/// the weekday that it was in Japan at the first one, under its title and its first Chinese one.
pub proof fn law_weekly_subjects_are_listed(item: Item, id: i64, secs: i64, nanos: u32)
    ensures
        id_on(item, "bangumi"@) is None ==> item_subject(item) is None,
        weekly_broadcast(item.broadcast@) is None ==> item_subject(item) is None,
        id_on(item, "bangumi"@) == Some(id) && weekly_broadcast(item.broadcast@) == Some(
            (secs, nanos),
        ) ==> {
            let subject = item_subject(item);
            &&& subject is Some
            &&& subject->0.id == id
            &&& subject->0.name == item.title@
            &&& subject->0.name_cn == chinese_title(item.title_translate)
            &&& subject->0.air_weekday == jst_weekday(secs as int)
            &&& subject->0.collection is None
            &&& subject->0.watched == 0
            &&& subject->0.episodes == 0
            &&& subject->0.summary.len() == 0
            &&& subject->0.image is None
            &&& subject->0.rank is None
            &&& subject->0.score.bits == 0
            &&& subject->0.update_state == "none"@
        },
{
}

/// The first Chinese title of a subject is the first of the list.
pub proof fn law_the_first_chinese_title_counts(translations: Json)
    ensures
        ({
            let titles = elements_of(field(translations, "zh-Hans"@));
            &&& titles.len() == 0 ==> chinese_title(translations).len() == 0
            &&& titles.len() > 0 ==> (text_of(Some(titles[0])) matches Some(t) ==> chinese_title(
                translations,
            ) == t)
            &&& titles.len() > 0 && text_of(Some(titles[0])) is None ==> chinese_title(
                translations,
            ).len() == 0
        }),
{
}

/// One more item adds its subject behind the others, where it has one, and notes its number on
/// Mikan, where it has both numbers. A number on Mikan that is asked for is that of the first item.
pub proof fn law_broadcast_items_count_one_by_one(items: Seq<Item>, item: Item, id: i64)
    ensures
        item_subjects(Seq::empty()).len() == 0,
        mikan_numbers(Seq::empty()) == Map::<i64, i64>::empty(),
        item_subject(item) matches Some(s) ==> item_subjects(items.push(item)) == item_subjects(
            items,
        ).push(s),
        item_subject(item) is None ==> item_subjects(items.push(item)) == item_subjects(items),
        id_on(item, "bangumi"@) is Some && id_on(item, "mikan"@) is Some ==> mikan_numbers(
            items.push(item),
        ) == mikan_numbers(items).insert(
            id_on(item, "bangumi"@)->0,
            id_on(item, "mikan"@)->0,
        ),
        id_on(item, "bangumi"@) is None || id_on(item, "mikan"@) is None ==> mikan_numbers(
            items.push(item),
        ) == mikan_numbers(items),
        first_mikan(Seq::empty(), id) is None,
        first_mikan(items, id) is Some ==> first_mikan(items.push(item), id) == first_mikan(
            items,
            id,
        ),
        first_mikan(items, id) is None ==> first_mikan(items.push(item), id) == if id_on(
            item,
            "bangumi"@,
        ) == Some(id) {
            id_on(item, "mikan"@)
        } else {
            None
        },
{
    assert(items.push(item).drop_last() =~= items);
    lemma_first_mikan(items, item, id);
}

proof fn lemma_first_mikan(items: Seq<Item>, item: Item, id: i64)
    ensures
        first_mikan(items.push(item), id) == if first_mikan(items, id) is Some {
            first_mikan(items, id)
        } else if id_on(item, "bangumi"@) == Some(id) {
            id_on(item, "mikan"@)
        } else {
            None
        },
    decreases items.len(),
{
    let all = items.push(item);
    if items.len() == 0 {
        assert(all.drop_first() =~= items);
        assert(all[0] == item);
    } else {
        assert(all.drop_first() =~= items.drop_first().push(item));
        assert(all[0] == items[0]);
        lemma_first_mikan(items.drop_first(), item, id);
    }
}

/// The number of a subject on a site is the one that the first entry of that site holds.
pub proof fn law_sites_number_subjects(item: Item, name: Seq<char>, k: int)
    requires
        0 <= k < item.sites@.len(),
        item.sites@[k].site@ == name,
        forall|j: int| 0 <= j < k ==> (#[trigger] item.sites@[j]).site@ != name,
    ensures
        id_on(item, name) == crate::numbers::parse_i64_spec(item.sites@[k].id@),
{
    let all = crate::rows::views(item.sites@);
    let p = crate::bgmlist::on_site(name);
    assert(all[k] == item.sites@[k]@);
    assert forall|j: int| 0 <= j < k implies !p(#[trigger] all[j]) by {
        assert(all[j] == item.sites@[j]@);
    }
    crate::rows::lemma_first_at(all, p, k);
}

/// The cover of a document is its large image, or else its common, or else its medium one. It is
/// loaded where it is an address of the web and the document has a number, up to five megabytes.
pub proof fn law_covers_are_chosen(value: Json, url: Seq<char>, id: i64, len: nat)
    ensures
        ({
            let large = text_of(field2(value, "images"@, "large"@));
            let common = text_of(field2(value, "images"@, "common"@));
            let medium = text_of(field2(value, "images"@, "medium"@));
            &&& large is Some ==> cover_address(value) == large
            &&& large is None && common is Some ==> cover_address(value) == common
            &&& large is None && common is None ==> cover_address(value) == medium
            &&& cover_address(value) == Some(url) && says(value, "id"@, id) && "http"@.is_prefix_of(
                url,
            ) ==> cover_of(value) == Some((id, url))
            &&& cover_address(value) == Some(url) && !"http"@.is_prefix_of(url) ==> cover_of(
                value,
            ) is None
            &&& cover_address(value) is None || field(value, "id"@) is None ==> cover_of(
                value,
            ) is None
        }),
        cover_fits(len) <==> len <= 5 * 1024 * 1024,
        cover_name(id) == crate::numbers::decimal(id as int) + ".jpg"@,
{
}

/// A JPEG image begins with its two marks, whatever follows.
pub proof fn law_images_begin_with_their_marks(rest: Seq<u8>, bytes: Seq<u8>)
    ensures
        begins_as_jpeg(seq![0xFFu8, 0xD8u8] + rest),
        bytes.len() < 2 ==> !begins_as_jpeg(bytes),
        bytes.len() >= 2 && (bytes[0] != 0xFF || bytes[1] != 0xD8) ==> !begins_as_jpeg(bytes),
{
}

/// The name of a cover is a number of at most twenty digits with its extension, and nothing else is.
pub proof fn law_covers_are_named_by_numbers(stem: Seq<char>)
    ensures
        is_cover_name(stem + ".jpg"@) <==> 1 <= stem.len() <= 20 && (forall|i: int|
            0 <= i < stem.len() ==> '0' <= #[trigger] stem[i] <= '9'),
        is_cover_name(stem) ==> ".jpg"@.is_suffix_of(stem),
{
    reveal_strlit(".jpg");
    let name = stem + ".jpg"@;
    assert(name.subrange(name.len() - 4, name.len() as int) =~= ".jpg"@);
    assert forall|i: int| 0 <= i < stem.len() implies #[trigger] name[i] == stem[i] by {}
    if is_cover_name(name) {
        assert forall|i: int| 0 <= i < stem.len() implies '0' <= #[trigger] stem[i] <= '9' by {
            assert(crate::numbers::is_digit(name[i]));
        }
    }
}

} // verus!
