//! What holds of the calendar and the search: what is shown from what is stored, how both are
//! merged, and what is found.

use crate::bangumi::{secure_opt_image, v0_subject};
use crate::calendar::{
    cached_additions, cached_id, cached_subject, calendar_fresh, cover_jobs_of, decorated, id_taken,
    keyword_fault, local_limit, local_subjects, matches_among, merged, names_hold, rss_of,
    shows_detail, shows_stored, with_collection,
};
use crate::clock::{Moment, jst_weekday, nanos_between, rfc3339_moment};
use crate::db::DatabaseView;
use crate::db::collection_table::setting_of;
use crate::json::{Json, field, int_of};
use crate::matcher::normalized;
use crate::models::{SubjectRssState, SubjectView};
use crate::stored::stored_subject;
use crate::subscriptions::update_state;
use crate::text::contains_text;
use vstd::prelude::*;

verus! {

/// Between two moments lie their seconds and nanoseconds, where none lies in a leap second.
pub proof fn law_ages_are_differences(later: Moment, earlier: Moment)
    requires
        later.nanos < 1_000_000_000,
        earlier.nanos < 1_000_000_000,
    ensures
        nanos_between(later, earlier) == (later.secs * 1_000_000_000 + later.nanos) - (earlier.secs
            * 1_000_000_000 + earlier.nanos),
{
}

/// A calendar is fresh for six hours after it was fetched and details are for a day after they
/// were stored: up to then, not from then on. What bears no time stamp is never fresh.
pub proof fn law_caches_age(
    db: DatabaseView,
    id: i64,
    stamp: Seq<char>,
    payload: Json,
    secs: i64,
    nanos: u32,
    now: Moment,
)
    requires
        db.details.dom().contains(id),
        db.details[id] == (payload, stamp),
        rfc3339_moment(stamp) == Some((secs, nanos)),
        nanos < 1_000_000_000,
        now.nanos < 1_000_000_000,
    ensures
        calendar_fresh(Some(stamp), now) <==> now.secs < secs + 21600 || (now.secs == secs + 21600
            && now.nanos < nanos),
        shows_detail(db, id, now) <==> now.secs < secs + 86400 || (now.secs == secs + 86400
            && now.nanos < nanos),
        !calendar_fresh(None, now),
{
}

/// What bears a text that is no time stamp counts as old, and details that are not stored are not
/// shown.
pub proof fn law_without_a_time_nothing_is_fresh(
    db: DatabaseView,
    id: i64,
    stamp: Seq<char>,
    now: Moment,
)
    requires
        rfc3339_moment(stamp) is None,
    ensures
        !calendar_fresh(Some(stamp), now),
        !db.details.dom().contains(id) ==> !shows_detail(db, id, now),
        db.details.dom().contains(id) && db.details[id].1 == stamp ==> !shows_detail(db, id, now),
{
}

/// The stored calendar is shown as it is where no new one was demanded, it was fetched in the last
/// hours and lists something.
pub proof fn law_stored_calendars_are_shown(db: DatabaseView, now: Moment)
    ensures
        !shows_stored(db, true, now),
        shows_stored(db, false, now) <==> calendar_fresh(
            setting_of(db.settings, "calendar_refreshed_at"@),
            now,
        ) && db.calendar is Some && db.calendar->0.len() > 0,
{
}

/// A day of Japan begins nine hours before that of universal time. Weekdays follow one another,
/// and the first second of 1970 fell on a Thursday in Japan.
pub proof fn law_weekdays_follow_one_another(secs: int)
    ensures
        0 <= jst_weekday(secs) <= 6,
        jst_weekday(secs + 86400) == if jst_weekday(secs) == 6 {
            0
        } else {
            jst_weekday(secs) + 1
        },
        -32400 <= secs < 54000 ==> jst_weekday(secs) == 3,
{
    assert((secs + 86400 + 32400) / 86400 == (secs + 32400) / 86400 + 1) by (nonlinear_arith);
    let d = (secs + 32400) / 86400 + 3;
    assert((d + 1) % 7 == if d % 7 == 6 {
        0
    } else {
        d % 7 + 1
    }) by (nonlinear_arith);
}

/// A document that this application stored gives the subject that it holds, any other the one that
/// Bangumi describes; in both the image has an encrypted address, and all else is as it stands.
pub proof fn law_cached_documents_give_their_subjects(value: Json)
    ensures
        ({
            let shown = cached_subject(value);
            &&& stored_subject(value) matches Some(s) ==> shown == (SubjectView {
                image: secure_opt_image(s.image),
                ..s
            })
            &&& stored_subject(value) is None ==> shown == (SubjectView {
                image: secure_opt_image(v0_subject(value, None, 0).image),
                ..v0_subject(value, None, 0)
            })
        }),
{
}

/// A subject that is collected is shown with its collection and its watched episodes; one that is
/// not, as it is.
pub proof fn law_collections_are_shown(
    subject: SubjectView,
    id: i64,
    known: Map<i64, (Seq<char>, i64)>,
)
    ensures
        ({
            let shown = with_collection(subject, id, known);
            &&& !known.dom().contains(id) ==> shown == subject
            &&& known.dom().contains(id) ==> {
                &&& shown.collection == Some(known[id].0)
                &&& shown.watched == known[id].1
                &&& shown.id == subject.id
                &&& shown.name == subject.name
                &&& shown.name_cn == subject.name_cn
                &&& shown.image == subject.image
                &&& shown.episodes == subject.episodes
                &&& shown.air_weekday == subject.air_weekday
                &&& shown.score == subject.score
                &&& shown.rank == subject.rank
                &&& shown.summary == subject.summary
            }
        }),
{
}

/// Every collected subject of a cached document that the calendar does not list is added, with its
/// collection and its watched episodes and on no weekday.
pub proof fn law_collected_subjects_are_added(
    subjects: Seq<SubjectView>,
    cached: Seq<Json>,
    known: Map<i64, (Seq<char>, i64)>,
    k: int,
)
    requires
        0 <= k < cached.len(),
        known.dom().contains(cached_id(cached[k])),
        forall|i: int|
            0 <= i < subjects.len() ==> (#[trigger] subjects[i]).id != cached_id(cached[k]),
        forall|i: int| 0 <= i < k ==> cached_id(#[trigger] cached[i]) != cached_id(cached[k]),
    ensures
        exists|m: int|
            subjects.len() <= m < merged(subjects, cached, known).len() && {
                let shown = #[trigger] merged(subjects, cached, known)[m];
                let id = cached_id(cached[k]);
                &&& shown.collection == Some(known[id].0)
                &&& shown.watched == known[id].1
                &&& shown.air_weekday == -1
                &&& shown.id == cached_subject(cached[k]).id
                &&& shown.name == cached_subject(cached[k]).name
            },
{
    let m = lemma_added(subjects, cached, known, k);
    let all = merged(subjects, cached, known);
    assert(all[subjects.len() + m] == cached_additions(subjects, cached, known)[m]);
}

proof fn lemma_added(
    subjects: Seq<SubjectView>,
    cached: Seq<Json>,
    known: Map<i64, (Seq<char>, i64)>,
    k: int,
) -> (m: int)
    requires
        0 <= k < cached.len(),
        known.dom().contains(cached_id(cached[k])),
        forall|i: int|
            0 <= i < subjects.len() ==> (#[trigger] subjects[i]).id != cached_id(cached[k]),
        forall|i: int| 0 <= i < k ==> cached_id(#[trigger] cached[i]) != cached_id(cached[k]),
    ensures
        0 <= m < cached_additions(subjects, cached, known).len(),
        ({
            let shown = cached_additions(subjects, cached, known)[m];
            let id = cached_id(cached[k]);
            &&& shown.collection == Some(known[id].0)
            &&& shown.watched == known[id].1
            &&& shown.air_weekday == -1
            &&& shown.id == cached_subject(cached[k]).id
            &&& shown.name == cached_subject(cached[k]).name
        }),
    decreases cached.len(),
{
    let rest = cached.drop_last();
    if k == cached.len() - 1 {
        let id = cached_id(cached[k]);
        assert(!id_taken(subjects, rest, id)) by {
            assert forall|i: int| 0 <= i < rest.len() implies cached_id(#[trigger] rest[i]) != id by {
                assert(rest[i] == cached[i]);
            }
        }
        cached_additions(subjects, rest, known).len() as int
    } else {
        assert(rest[k] == cached[k]);
        assert forall|i: int| 0 <= i < k implies cached_id(#[trigger] rest[i]) != cached_id(
            rest[k],
        ) by {
            assert(rest[i] == cached[i]);
        }
        lemma_added(subjects, rest, known, k)
    }
}

/// The covers to load are those of the subjects, in their order, whose image is an address of the
/// web.
pub proof fn law_covers_of_the_web_are_loaded(subjects: Seq<SubjectView>, subject: SubjectView)
    ensures
        cover_jobs_of(Seq::empty()).len() == 0,
        subject.image matches Some(url) && "http"@.is_prefix_of(url) ==> cover_jobs_of(
            subjects.push(subject),
        ) == cover_jobs_of(subjects).push((subject.id, subject.image->0)),
        !(subject.image matches Some(url) && "http"@.is_prefix_of(url)) ==> cover_jobs_of(
            subjects.push(subject),
        ) == cover_jobs_of(subjects),
{
    assert(subjects.push(subject).drop_last() =~= subjects);
}

/// A shown subject has the badge that its collection, its episodes, its weekday and its feeds call
/// for, and the local address of its cover where that is stored. All else stays.
pub proof fn law_shown_subjects_have_badges_and_covers(
    subject: SubjectView,
    overview: Map<i64, SubjectRssState>,
    today: i64,
)
    ensures
        ({
            let rss = rss_of(overview, subject.id);
            let plain = decorated(subject, rss, today, false);
            let covered = decorated(subject, rss, today, true);
            &&& overview.dom().contains(subject.id) ==> rss == Some(overview[subject.id])
            &&& !overview.dom().contains(subject.id) ==> rss is None
            &&& plain.image == subject.image
            &&& covered.image == Some(
                "http://cover.localhost/"@ + crate::numbers::decimal(subject.id as int) + ".jpg"@,
            )
            &&& plain.update_state == update_state(
                subject.collection,
                subject.watched,
                subject.episodes,
                subject.air_weekday,
                today,
                rss,
            )
            &&& covered.update_state == plain.update_state
            &&& plain == (SubjectView { update_state: plain.update_state, ..subject })
            &&& covered == (SubjectView { image: covered.image, ..plain })
        }),
{
    assert("http://cover.localhost/"@ + crate::covers::cover_name(subject.id)
        =~= "http://cover.localhost/"@ + crate::numbers::decimal(subject.id as int) + ".jpg"@);
}

/// Keywords of two to eighty characters are searched for, and no others.
pub proof fn law_keywords_have_two_to_eighty_characters(keyword: Seq<char>)
    ensures
        keyword_fault(keyword) is None <==> 2 <= keyword.len() <= 80,
        keyword.len() < 2 ==> keyword_fault(keyword) == Some("请输入至少 2 个字符"@),
        keyword.len() > 80 ==> keyword_fault(keyword) == Some("搜索关键词过长"@),
{
}

/// The names of a subject hold a keyword where its two names, one behind the other, do, apart from
/// punctuation and case.
pub proof fn law_both_names_are_searched(subject: SubjectView, keyword: Seq<char>)
    ensures
        names_hold(subject, keyword) <==> contains_text(
            normalized(subject.name) + normalized(subject.name_cn),
            normalized(keyword),
        ),
{
    crate::matcher::law_parts_are_normalized_in_turn(subject.name, subject.name_cn);
}

/// A search goes through the subjects in their order. One more subject is found where its names
/// hold the keyword, no earlier one has its number, and fewer were found than may be.
pub proof fn law_searches_find_in_order(
    subjects: Seq<SubjectView>,
    subject: SubjectView,
    keyword: Seq<char>,
    limit: nat,
)
    ensures
        ({
            let before = matches_among(subjects, keyword, limit);
            let after = matches_among(subjects.push(subject), keyword, limit);
            let known = exists|i: int|
                0 <= i < subjects.len() && (#[trigger] subjects[i]).id == subject.id;
            &&& matches_among(Seq::empty(), keyword, limit).len() == 0
            &&& names_hold(subject, keyword) && !known && before.len() < limit ==> after
                == before.push(subject)
            &&& !names_hold(subject, keyword) || known || before.len() >= limit ==> after == before
        }),
{
    assert(subjects.push(subject).drop_last() =~= subjects);
}

/// Without the network the stored documents are searched and behind them the stored calendar; at
/// most twenty are found where no number is asked for, and never more than thirty.
pub proof fn law_local_searches_cover_what_is_stored(
    documents: Seq<Json>,
    calendar: Seq<SubjectView>,
    k: int,
    n: u32,
)
    ensures
        local_limit(None) == 20,
        n <= 30 ==> local_limit(Some(n)) == n,
        n > 30 ==> local_limit(Some(n)) == 30,
        local_subjects(documents, None).len() == documents.len(),
        local_subjects(documents, Some(calendar)).len() == documents.len() + calendar.len(),
        0 <= k < documents.len() ==> local_subjects(documents, None)[k] == cached_subject(
            documents[k],
        ) && local_subjects(documents, Some(calendar))[k] == cached_subject(documents[k]),
        0 <= k < calendar.len() ==> local_subjects(documents, Some(calendar))[documents.len() + k]
            == calendar[k],
{
}

/// A cached document has the number that it says, or zero.
pub proof fn law_cached_documents_have_numbers(value: Json, id: i64)
    ensures
        int_of(field(value, "id"@)) == Some(id) ==> cached_id(value) == id,
        int_of(field(value, "id"@)) is None ==> cached_id(value) == 0,
{
}

} // verus!
