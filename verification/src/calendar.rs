//! The weekly calendar, the search and the details of subjects: what is shown from caches,
//! what is fetched, and how both are merged.

use crate::bangumi::{https_image, secure_opt_image, subject_from_v0, v0_subject};
use crate::clock::{
    Moment, jst_weekday, nanos_between, parse_rfc3339, rfc3339_moment, weekday_in_japan,
    within_hours,
};
use crate::covers::{cover_local_url, cover_name};
use crate::db::collection_table::setting_of;
use crate::db::{Database, DatabaseView};
use crate::json::{Json, as_i64, derefs, field, int_of};
use crate::matcher::{normalize_title, normalized};
use crate::models::{Subject, SubjectRssState, SubjectView};
use crate::rows::views;
use crate::stored::stored_subject;
use crate::subscriptions::{compute_update_state, update_state};
use crate::text::{
    append, chars_of, contains_chars, contains_text, copy_opt, opt_str, opt_text, starts_with,
    trim, trimmed,
};
use std::collections::HashMap;
use vstd::prelude::*;

verus! {

/// For how many hours the calendar is shown without asking for a new one.
pub const CALENDAR_TTL: u32 = 6;

/// For how many hours the details of a subject are shown without asking for new ones.
pub const DETAIL_TTL: u32 = 24;

/// The key of the setting that holds when the calendar was fetched.
pub const CALENDAR_REFRESHED_KEY: &'static str = "calendar_refreshed_at";

/// The weekday in Japan: 0 for Monday to 6 for Sunday.
pub fn jst_weekday_today(now: Moment) -> (day: i64)
    ensures
        day == jst_weekday(now.secs as int),
        0 <= day <= 6,
{
    weekday_in_japan(now)
}

/// Whether a time stamp is less than some hours old. A text that is no time stamp is not.
pub open spec fn younger_than(stamp: Seq<char>, now: Moment, hours: u32) -> bool {
    match rfc3339_moment(stamp) {
        Some((secs, nanos)) => nanos_between(now, Moment { secs, nanos }) < hours * 3600
            * 1_000_000_000,
        None => false,
    }
}

/// Whether a time stamp is less than some hours old.
fn is_younger(stamp: &str, now: Moment, hours: u32) -> (r: bool)
    ensures
        r == younger_than(stamp@, now, hours),
{
    match parse_rfc3339(stamp) {
        Some(moment) => within_hours(now, moment, hours),
        None => false,
    }
}

/// Whether the calendar was fetched in the last hours. Without a usable time stamp it
/// counts as old.
pub open spec fn calendar_fresh(refreshed_at: Option<Seq<char>>, now: Moment) -> bool {
    refreshed_at matches Some(stamp) && younger_than(stamp, now, CALENDAR_TTL)
}

/// Whether the calendar was fetched in the last hours.
pub fn calendar_cache_fresh(refreshed_at: Option<&str>, now: Moment) -> (r: bool)
    ensures
        r == calendar_fresh(opt_str(refreshed_at), now),
{
    match refreshed_at {
        Some(stamp) => is_younger(stamp, now, CALENDAR_TTL),
        None => false,
    }
}

/// What is fresh at a time was fresh at every earlier time, where none of the times lies in
/// a leap second.
pub proof fn law_freshness_only_ends(stamp: Seq<char>, earlier: Moment, later: Moment, hours: u32)
    requires
        younger_than(stamp, later, hours),
        earlier.secs <= later.secs,
        earlier.secs == later.secs ==> earlier.nanos <= later.nanos,
        earlier.nanos < 1_000_000_000,
        later.nanos < 1_000_000_000,
        rfc3339_moment(stamp) matches Some((_, nanos)) && nanos < 1_000_000_000,
    ensures
        younger_than(stamp, earlier, hours),
{
}

/// The subject of a cached document: one that this application stored, or one as Bangumi
/// sends it. The image has an encrypted address.
pub open spec fn cached_subject(value: Json) -> SubjectView {
    let subject = match stored_subject(value) {
        Some(s) => s,
        None => v0_subject(value, None, 0),
    };
    SubjectView { image: secure_opt_image(subject.image), ..subject }
}

/// The subject of a cached document.
pub fn subject_from_cache(value: &Json) -> (subject: Subject)
    ensures
        subject@ == cached_subject(*value),
{
    let mut subject: Subject = match Subject::from_json(value) {
        Some(s) => s,
        None => subject_from_v0(value, None, 0),
    };
    let ghost before = subject@;
    subject.image = https_image(copy_opt(&subject.image));
    assert(subject@ =~= (SubjectView { image: secure_opt_image(before.image), ..before }));
    subject
}

/// The collections and watched episodes of subjects as plain values.
pub open spec fn collected(map: Map<i64, (String, i64)>) -> Map<i64, (Seq<char>, i64)> {
    map.map_values(|v: (String, i64)| (v.0@, v.1))
}

/// A subject with its collection and its watched episodes, where something is known of it.
pub open spec fn with_collection(
    subject: SubjectView,
    id: i64,
    known: Map<i64, (Seq<char>, i64)>,
) -> SubjectView {
    if known.dom().contains(id) {
        SubjectView { collection: Some(known[id].0), watched: known[id].1, ..subject }
    } else {
        subject
    }
}

/// Notes the collection and the watched episodes of a subject.
fn note_collection(subject: &mut Subject, id: i64, collections: &HashMap<i64, (String, i64)>)
    ensures
        final(subject)@ == with_collection(old(subject)@, id, collected(collections@)),
{
    broadcast use vstd::std_specs::hash::group_hash_axioms;

    let ghost before = subject@;
    if let Some(state) = collections.get(&id) {
        subject.collection = Some(state.0.clone());
        subject.watched = state.1;
        assert(collected(collections@)[id] == (state.0@, state.1));
    }
    assert(subject@ =~= with_collection(before, id, collected(collections@)));
}

/// The number of a cached document.
pub open spec fn cached_id(value: Json) -> i64 {
    match int_of(field(value, "id"@)) {
        Some(id) => id,
        None => 0,
    }
}

/// Whether a number is that of one of the subjects or of one of the documents.
pub open spec fn id_taken(subjects: Seq<SubjectView>, cached: Seq<Json>, id: i64) -> bool {
    ||| exists|i: int| 0 <= i < subjects.len() && (#[trigger] subjects[i]).id == id
    ||| exists|i: int| 0 <= i < cached.len() && cached_id(#[trigger] cached[i]) == id
}

/// The subject of a cached document as it is added to the calendar: with its collection, and
/// on no weekday.
pub open spec fn cached_addition(value: Json, known: Map<i64, (Seq<char>, i64)>) -> SubjectView {
    SubjectView {
        air_weekday: (-1) as i64,
        ..with_collection(cached_subject(value), cached_id(value), known)
    }
}

/// The subjects of the documents that stand in a collection and are neither among the
/// given subjects nor repeated.
pub open spec fn cached_additions(
    subjects: Seq<SubjectView>,
    cached: Seq<Json>,
    known: Map<i64, (Seq<char>, i64)>,
) -> Seq<SubjectView>
    decreases cached.len(),
{
    if cached.len() == 0 {
        Seq::empty()
    } else {
        let rest = cached.drop_last();
        let value = cached.last();
        let before = cached_additions(subjects, rest, known);
        if !id_taken(subjects, rest, cached_id(value)) && known.dom().contains(cached_id(value)) {
            before.push(cached_addition(value, known))
        } else {
            before
        }
    }
}

/// The subjects of the calendar with their collections, followed by the collected subjects
/// that the calendar does not list. Those stand on no weekday.
pub open spec fn merged(
    subjects: Seq<SubjectView>,
    cached: Seq<Json>,
    known: Map<i64, (Seq<char>, i64)>,
) -> Seq<SubjectView> {
    subjects.map_values(|s: SubjectView| with_collection(s, s.id, known)) + cached_additions(
        subjects,
        cached,
        known,
    )
}

/// Whether a number stands in a list.
fn holds_id(ids: &Vec<i64>, id: i64) -> (r: bool)
    ensures
        r == ids@.contains(id),
{
    for i in 0..ids.len()
        invariant
            forall|j: int| 0 <= j < i ==> ids@[j] != id,
    {
        if ids[i] == id {
            return true;
        }
    }
    false
}

/// The subjects of the calendar with their collections, followed by the collected subjects
/// that the calendar does not list. Those stand on no weekday.
pub fn merge_calendar_with_collections(
    subjects: Vec<Subject>,
    cached: &Vec<&Json>,
    collections: &HashMap<i64, (String, i64)>,
) -> (all: Vec<Subject>)
    ensures
        views(all@) == merged(views(subjects@), derefs(cached@), collected(collections@)),
{
    let ghost given = views(subjects@);
    let ghost known = collected(collections@);
    let ghost values = derefs(cached@);
    let mut all: Vec<Subject> = subjects;
    let mut ids: Vec<i64> = Vec::new();
    let n: usize = all.len();
    for i in 0..n
        invariant
            n == all@.len(),
            n == given.len(),
            ids@.len() == i,
            given == views(subjects@),
            known == collected(collections@),
            forall|j: int| 0 <= j < i ==> #[trigger] ids@[j] == given[j].id,
            forall|j: int|
                0 <= j < i ==> (#[trigger] all@[j])@ == with_collection(
                    given[j],
                    given[j].id,
                    known,
                ),
            forall|j: int| i <= j < n ==> #[trigger] all@[j] == subjects@[j],
    {
        assert(given[i as int] == subjects@[i as int]@);
        let id: i64 = all[i].id;
        ids.push(id);
        let mut subject: Subject = all[i].clone();
        note_collection(&mut subject, id, collections);
        all[i] = subject;
    }
    let ghost listed = given.map_values(|s: SubjectView| with_collection(s, s.id, known));
    assert(views(all@) =~= listed);
    assert(cached_additions(given, values.take(0), known) =~= Seq::<SubjectView>::empty());
    assert(views(all@) =~= listed + cached_additions(given, values.take(0), known));
    assert forall|id: i64| #[trigger] ids@.contains(id) <==> id_taken(given, values.take(0), id) by {
        if ids@.contains(id) {
            let j = choose|j: int| 0 <= j < ids@.len() && ids@[j] == id;
            assert(given[j].id == id);
        }
        if exists|j: int| 0 <= j < given.len() && (#[trigger] given[j]).id == id {
            let j = choose|j: int| 0 <= j < given.len() && (#[trigger] given[j]).id == id;
            assert(ids@[j] == id);
        }
    }
    for i in 0..cached.len()
        invariant
            known == collected(collections@),
            values == derefs(cached@),
            given == views(subjects@),
            forall|id: i64| #[trigger]
                ids@.contains(id) <==> id_taken(given, values.take(i as int), id),
            views(all@) == listed + cached_additions(given, values.take(i as int), known),
    {
        broadcast use vstd::std_specs::hash::group_hash_axioms;

        let value: &Json = cached[i];
        assert(values[i as int] == *value);
        assert(values.take(i + 1).drop_last() =~= values.take(i as int));
        assert(values.take(i + 1).last() == *value);
        let id: i64 = match as_i64(value.get("id")) {
            Some(id) => id,
            None => 0,
        };
        let ghost sofar = all@;
        let ghost taken = ids@;
        if !holds_id(&ids, id) {
            ids.push(id);
            if collections.contains_key(&id) {
                let mut subject: Subject = subject_from_cache(value);
                note_collection(&mut subject, id, collections);
                subject.air_weekday = -1;
                assert(subject@ =~= cached_addition(*value, known));
                all.push(subject);
                assert(views(all@) =~= views(sofar).push(subject@));
                assert(cached_additions(given, values.take(i + 1), known) == cached_additions(
                    given,
                    values.take(i as int),
                    known,
                ).push(subject@));
                assert(views(all@) =~= listed + cached_additions(given, values.take(i + 1), known));
            }
            assert(taken.push(id).contains(id)) by {
                assert(taken.push(id)[taken.len() as int] == id);
            }
        }
        assert forall|k: i64| #[trigger]
            ids@.contains(k) <==> id_taken(given, values.take(i + 1), k) by {
            lemma_taken_step(given, values, i as int, k);
            assert(taken.contains(k) <==> id_taken(given, values.take(i as int), k));
            if ids@.contains(k) && k != id {
                let j = choose|j: int| 0 <= j < ids@.len() && ids@[j] == k;
                assert(taken[j] == k);
            }
            if taken.contains(k) {
                let j = choose|j: int| 0 <= j < taken.len() && taken[j] == k;
                assert(ids@[j] == k);
            }
        }
    }
    assert(values.take(values.len() as int) =~= values);
    all
}

/// One more document adds its number to those that are taken.
proof fn lemma_taken_step(subjects: Seq<SubjectView>, cached: Seq<Json>, i: int, id: i64)
    requires
        0 <= i < cached.len(),
    ensures
        id_taken(subjects, cached.take(i + 1), id) <==> id_taken(subjects, cached.take(i), id)
            || cached_id(cached[i]) == id,
{
    let a = cached.take(i);
    let b = cached.take(i + 1);
    assert(b[i] == cached[i]);
    if exists|k: int| 0 <= k < a.len() && cached_id(#[trigger] a[k]) == id {
        let k = choose|k: int| 0 <= k < a.len() && cached_id(#[trigger] a[k]) == id;
        assert(b[k] == a[k]);
    }
    if exists|k: int| 0 <= k < b.len() && cached_id(#[trigger] b[k]) == id {
        let k = choose|k: int| 0 <= k < b.len() && cached_id(#[trigger] b[k]) == id;
        if k < i {
            assert(a[k] == b[k]);
        }
    }
}

/// Merging keeps the subjects of the calendar, their order and their weekdays, and notes the
/// collection and the watched episodes of those that are collected. What it adds is collected,
/// comes from a cached document and stands on no weekday.
pub proof fn law_merging_keeps_the_calendar(
    subjects: Seq<SubjectView>,
    cached: Seq<Json>,
    known: Map<i64, (Seq<char>, i64)>,
)
    ensures
        merged(subjects, cached, known).len() >= subjects.len(),
        forall|i: int|
            0 <= i < subjects.len() ==> {
                let m = #[trigger] merged(subjects, cached, known)[i];
                &&& m.id == subjects[i].id
                &&& m.air_weekday == subjects[i].air_weekday
                &&& known.dom().contains(m.id) ==> m.collection == Some(known[m.id].0)
                    && m.watched == known[m.id].1
                &&& !known.dom().contains(m.id) ==> m == subjects[i]
            },
        forall|i: int|
            subjects.len() <= i < merged(subjects, cached, known).len() ==> addition_from(
                cached,
                known,
                #[trigger] merged(subjects, cached, known)[i],
            ) && merged(subjects, cached, known)[i].air_weekday == -1,
{
    lemma_additions_collected(subjects, cached, known);
    let all = merged(subjects, cached, known);
    let more = cached_additions(subjects, cached, known);
    assert forall|i: int| subjects.len() <= i < all.len() implies addition_from(
        cached,
        known,
        #[trigger] all[i],
    ) && all[i].air_weekday == -1 by {
        assert(all[i] == more[i - subjects.len()]);
    }
}

/// Whether a subject is that of one of the documents, as it is added to the calendar.
pub open spec fn addition_from(
    cached: Seq<Json>,
    known: Map<i64, (Seq<char>, i64)>,
    subject: SubjectView,
) -> bool {
    exists|k: int|
        0 <= k < cached.len() && known.dom().contains(cached_id(#[trigger] cached[k])) && subject
            == cached_addition(cached[k], known)
}

proof fn lemma_additions_collected(
    subjects: Seq<SubjectView>,
    cached: Seq<Json>,
    known: Map<i64, (Seq<char>, i64)>,
)
    ensures
        forall|i: int|
            0 <= i < cached_additions(subjects, cached, known).len() ==> addition_from(
                cached,
                known,
                #[trigger] cached_additions(subjects, cached, known)[i],
            ),
    decreases cached.len(),
{
    if cached.len() > 0 {
        let rest = cached.drop_last();
        lemma_additions_collected(subjects, rest, known);
        let before = cached_additions(subjects, rest, known);
        let all = cached_additions(subjects, cached, known);
        assert forall|i: int| 0 <= i < all.len() implies addition_from(
            cached,
            known,
            #[trigger] all[i],
        ) by {
            if i < before.len() {
                assert(all[i] == before[i]);
                let k = choose|k: int|
                    0 <= k < rest.len() && known.dom().contains(cached_id(#[trigger] rest[k]))
                        && before[i] == cached_addition(rest[k], known);
                assert(cached[k] == rest[k]);
            } else {
                assert(cached[cached.len() - 1] == cached.last());
            }
        }
    }
}

/// The number of a cached object is that of its subject.
proof fn lemma_cached_id(value: Json)
    requires
        value is Object,
    ensures
        cached_subject(value).id == cached_id(value),
{
}

/// Merging adds no number that the calendar lists, and none twice, where the documents are
/// objects.
pub proof fn law_merging_repeats_nothing(
    subjects: Seq<SubjectView>,
    cached: Seq<Json>,
    known: Map<i64, (Seq<char>, i64)>,
)
    requires
        forall|k: int| 0 <= k < cached.len() ==> #[trigger] cached[k] is Object,
    ensures
        forall|i: int, j: int|
            0 <= i < j < merged(subjects, cached, known).len() && subjects.len() <= j ==> (
            #[trigger] merged(subjects, cached, known)[i]).id != (#[trigger] merged(
                subjects,
                cached,
                known,
            )[j]).id,
{
    lemma_additions_differ(subjects, cached, known);
    let all = merged(subjects, cached, known);
    let more = cached_additions(subjects, cached, known);
    let n = subjects.len() as int;
    assert forall|i: int, j: int| 0 <= i < j < all.len() && n <= j implies (#[trigger] all[i]).id
        != (#[trigger] all[j]).id by {
        assert(all[j] == more[j - n]);
        if i < n {
            assert(all[i].id == subjects[i].id);
        } else {
            assert(all[i] == more[i - n]);
        }
    }
}

proof fn lemma_additions_differ(
    subjects: Seq<SubjectView>,
    cached: Seq<Json>,
    known: Map<i64, (Seq<char>, i64)>,
)
    requires
        forall|k: int| 0 <= k < cached.len() ==> #[trigger] cached[k] is Object,
    ensures
        forall|i: int, j: int|
            0 <= i < j < cached_additions(subjects, cached, known).len() ==> (
            #[trigger] cached_additions(subjects, cached, known)[i]).id != (
            #[trigger] cached_additions(subjects, cached, known)[j]).id,
        forall|i: int, j: int|
            0 <= i < subjects.len() && 0 <= j < cached_additions(subjects, cached, known).len()
                ==> (#[trigger] subjects[i]).id != (#[trigger] cached_additions(
                subjects,
                cached,
                known,
            )[j]).id,
        forall|j: int|
            0 <= j < cached_additions(subjects, cached, known).len() ==> id_taken(
                subjects,
                cached,
                (#[trigger] cached_additions(subjects, cached, known)[j]).id,
            ),
    decreases cached.len(),
{
    if cached.len() > 0 {
        let rest = cached.drop_last();
        let value = cached.last();
        assert forall|k: int| 0 <= k < rest.len() implies #[trigger] rest[k] is Object by {
            assert(cached[k] == rest[k]);
        }
        assert(cached[cached.len() - 1] == value);
        lemma_cached_id(value);
        lemma_additions_differ(subjects, rest, known);
        let before = cached_additions(subjects, rest, known);
        let all = cached_additions(subjects, cached, known);
        let id = cached_id(value);
        assert forall|j: int| 0 <= j < all.len() implies id_taken(
            subjects,
            cached,
            (#[trigger] all[j]).id,
        ) by {
            assert(cached.take(cached.len() as int) =~= cached);
            assert(cached.take(cached.len() - 1) =~= rest);
            lemma_taken_step(subjects, cached, cached.len() - 1, all[j].id);
            if j < before.len() {
                assert(all[j] == before[j]);
            }
        }
        assert forall|i: int, j: int| 0 <= i < j < all.len() implies (#[trigger] all[i]).id != (
        #[trigger] all[j]).id by {
            assert(all[i] == before[i]);
            assert(id_taken(subjects, rest, before[i].id));
            if j < before.len() {
                assert(all[j] == before[j]);
            }
        }
        assert forall|i: int, j: int|
            0 <= i < subjects.len() && 0 <= j < all.len() implies (#[trigger] subjects[i]).id != (
        #[trigger] all[j]).id by {
            if j < before.len() {
                assert(all[j] == before[j]);
            } else if subjects[i].id == id {
                assert(id_taken(subjects, rest, id));
            }
        }
    }
}

/// A calendar to show: its subjects, when it was fetched, whether it is out of date, and
/// what went wrong.
#[derive(Debug)]
pub struct CalendarPayload {
    pub subjects: Vec<Subject>,
    pub refreshed_at: Option<String>,
    pub stale: bool,
    pub warning: Option<String>,
}

/// Whether the stored calendar is shown as it is: it was fetched in the last hours, is not
/// empty, and no new one was demanded.
pub open spec fn shows_stored(db: DatabaseView, force: bool, now: Moment) -> bool {
    &&& !force
    &&& calendar_fresh(setting_of(db.settings, CALENDAR_REFRESHED_KEY@), now)
    &&& db.calendar matches Some(list) && list.len() > 0
}

/// The stored calendar where it is shown as it is; nothing where a new one is to be
/// fetched.
pub fn stored_calendar(db: &Database, force: bool, now: Moment) -> (r: Option<CalendarPayload>)
    ensures
        r is Some <==> shows_stored(db@, force, now),
        r matches Some(p) ==> db@.calendar == Some(views(p.subjects@)) && opt_text(p.refreshed_at)
            == setting_of(db@.settings, CALENDAR_REFRESHED_KEY@) && !p.stale && p.warning is None,
{
    let refreshed_at: Option<String> = match db.get_setting(CALENDAR_REFRESHED_KEY) {
        Ok(value) => value,
        Err(_) => None,
    };
    if force {
        return None;
    }
    let fresh: bool = match &refreshed_at {
        Some(stamp) => calendar_cache_fresh(Some(stamp.as_str()), now),
        None => false,
    };
    if !fresh {
        return None;
    }
    match db.cached_calendar() {
        Ok(subjects) => {
            if subjects.len() > 0 {
                Some(CalendarPayload { subjects, refreshed_at, stale: false, warning: None })
            } else {
                assert(views(subjects@).len() == 0);
                None
            }
        },
        Err(_) => None,
    }
}

/// What is shown of a calendar that was fetched, or could not be, and what is kept of it: a fresh
/// calendar is shown and kept with the time; without one the kept calendar is shown as stale with a
/// warning, and nothing changes.
pub open spec fn calendar_answers(
    before: DatabaseView,
    after: DatabaseView,
    fetched: Result<Vec<Subject>, String>,
    now: Seq<char>,
    r: Result<CalendarPayload, String>,
) -> bool {
    match (fetched, r) {
        (Ok(fresh), Ok(p)) => {
            &&& views(p.subjects@) == views(fresh@)
            &&& opt_text(p.refreshed_at) == Some(now)
            &&& !p.stale
            &&& p.warning is None
            &&& after == (DatabaseView {
                calendar: Some(views(fresh@)),
                settings: after.settings,
                ..before
            })
            &&& setting_of(after.settings, CALENDAR_REFRESHED_KEY@) == Some(now)
            &&& forall|k: Seq<char>|
                k != CALENDAR_REFRESHED_KEY@ ==> #[trigger] setting_of(after.settings, k)
                    == setting_of(before.settings, k)
        },
        (Err(error), Ok(p)) => {
            &&& after == before
            &&& before.calendar == Some(views(p.subjects@))
            &&& p.subjects@.len() > 0
            &&& opt_text(p.refreshed_at) == setting_of(
                before.settings,
                CALENDAR_REFRESHED_KEY@,
            )
            &&& p.stale
            &&& opt_text(p.warning) == Some(error@ + "，已显示上次缓存"@)
        },
        (Ok(_), Err(_)) => false,
        (Err(error), Err(e)) => after == before && e@ == error@ && !(
        before.calendar matches Some(list) && list.len() > 0),
    }
}

/// What is shown after a new calendar was asked for. A new calendar is stored with the time
/// `now`; where none came, the stored one is shown with a warning, if there is one.
pub fn fetched_calendar(db: &mut Database, fetched: Result<Vec<Subject>, String>, now: &str) -> (r:
    Result<CalendarPayload, String>)
    requires
        old(db).wf(),
    ensures
        final(db).wf(),
        fetched is Err ==> *final(db) == *old(db),
        calendar_answers(old(db)@, final(db)@, fetched, now@, r),
{
    match fetched {
        Ok(fresh) => {
            let _ = db.save_calendar(&fresh);
            let _ = db.set_setting(CALENDAR_REFRESHED_KEY, now);
            Ok(
                CalendarPayload {
                    subjects: fresh,
                    refreshed_at: Some(now.to_owned()),
                    stale: false,
                    warning: None,
                },
            )
        },
        Err(error) => {
            let refreshed_at: Option<String> = match db.get_setting(CALENDAR_REFRESHED_KEY) {
                Ok(value) => value,
                Err(_) => None,
            };
            match db.cached_calendar() {
                Ok(subjects) => {
                    if subjects.len() > 0 {
                        let mut warning: String = error.clone();
                        append(&mut warning, "，已显示上次缓存");
                        return Ok(
                            CalendarPayload {
                                subjects,
                                refreshed_at,
                                stale: true,
                                warning: Some(warning),
                            },
                        );
                    }
                    assert(views(subjects@).len() == 0);
                    Err(error)
                },
                Err(_) => Err(error),
            }
        },
    }
}

/// The subjects of the calendar with their collections, followed by the collected subjects
/// that the calendar does not list, as the records know them.
pub fn merge_with_records(db: &Database, subjects: Vec<Subject>) -> (r: Result<
    Vec<Subject>,
    String,
>)
    requires
        db.wf(),
    ensures
        r is Ok,
        views(r->Ok_0@) == merged(views(subjects@), db_documents(*db), db_collections(db@)),
{
    let collections: HashMap<i64, (String, i64)> = db.collections()?;
    let documents: Vec<&Json> = db.cached_subjects()?;
    proof {
        assert(collected(collections@) =~= db_collections(db@));
        assert(derefs(documents@) =~= db_documents(*db));
    }
    Ok(merge_calendar_with_collections(subjects, &documents, &collections))
}

/// The subjects with the addresses of their covers, where those are addresses of the web.
pub open spec fn cover_jobs_of(subjects: Seq<SubjectView>) -> Seq<(i64, Seq<char>)>
    decreases subjects.len(),
{
    if subjects.len() == 0 {
        Seq::empty()
    } else {
        let before = cover_jobs_of(subjects.drop_last());
        match subjects.last().image {
            Some(url) if "http"@.is_prefix_of(url) => before.push((subjects.last().id, url)),
            _ => before,
        }
    }
}

/// The covers to load for subjects.
pub fn cover_jobs(subjects: &Vec<Subject>) -> (jobs: Vec<(i64, String)>)
    ensures
        jobs@.map_values(|j: (i64, String)| (j.0, j.1@)) == cover_jobs_of(views(subjects@)),
{
    let ghost all = views(subjects@);
    let mut jobs: Vec<(i64, String)> = Vec::new();
    assert(jobs@.map_values(|j: (i64, String)| (j.0, j.1@)) =~= cover_jobs_of(all.take(0)));
    for i in 0..subjects.len()
        invariant
            all == views(subjects@),
            jobs@.map_values(|j: (i64, String)| (j.0, j.1@)) == cover_jobs_of(all.take(i as int)),
    {
        assert(all.take(i + 1).drop_last() =~= all.take(i as int));
        assert(all.take(i + 1).last() == subjects@[i as int]@);
        let ghost before = jobs@;
        if let Some(url) = &subjects[i].image {
            if starts_with(url.as_str(), "http") {
                jobs.push((subjects[i].id, url.clone()));
                assert(jobs@.map_values(|j: (i64, String)| (j.0, j.1@)) =~= before.map_values(
                    |j: (i64, String)| (j.0, j.1@),
                ).push((subjects@[i as int].id, url@)));
            }
        }
    }
    assert(all.take(all.len() as int) =~= all);
    jobs
}

/// A subject as it is shown: with its badge, and with the local address of its cover where
/// that is cached.
pub open spec fn decorated(
    subject: SubjectView,
    rss: Option<SubjectRssState>,
    today: i64,
    cached: bool,
) -> SubjectView {
    SubjectView {
        update_state: update_state(
            subject.collection,
            subject.watched,
            subject.episodes,
            subject.air_weekday,
            today,
            rss,
        ),
        image: if cached {
            Some("http://cover.localhost/"@ + cover_name(subject.id))
        } else {
            subject.image
        },
        ..subject
    }
}

/// What the feeds hold for a subject, if it has any.
pub open spec fn rss_of(overview: Map<i64, SubjectRssState>, id: i64) -> Option<SubjectRssState> {
    if overview.dom().contains(id) {
        Some(overview[id])
    } else {
        None
    }
}

/// Gives subjects their badges, and those whose covers are cached the local addresses.
pub fn decorate(
    subjects: &mut Vec<Subject>,
    overview: &HashMap<i64, SubjectRssState>,
    today: i64,
    cached: &Vec<bool>,
)
    requires
        cached@.len() == old(subjects)@.len(),
    ensures
        final(subjects)@.len() == old(subjects)@.len(),
        forall|i: int|
            0 <= i < old(subjects)@.len() ==> (#[trigger] final(subjects)@[i])@ == decorated(
                old(subjects)@[i]@,
                rss_of(overview@, old(subjects)@[i].id),
                today,
                cached@[i],
            ),
{
    broadcast use vstd::std_specs::hash::group_hash_axioms;

    let ghost before = subjects@;
    let n: usize = subjects.len();
    for i in 0..n
        invariant
            n == subjects@.len(),
            n == before.len(),
            n == cached@.len(),
            forall|j: int|
                0 <= j < i ==> (#[trigger] subjects@[j])@ == decorated(
                    before[j]@,
                    rss_of(overview@, before[j].id),
                    today,
                    cached@[j],
                ),
            forall|j: int| i <= j < n ==> #[trigger] subjects@[j] == before[j],
    {
        broadcast use vstd::std_specs::hash::group_hash_axioms;

        let mut subject: Subject = subjects[i].clone();
        let rss: Option<&SubjectRssState> = overview.get(&subject.id);
        let collection: Option<&str> = match &subject.collection {
            Some(c) => Some(c.as_str()),
            None => None,
        };
        let badge: &'static str = compute_update_state(
            collection,
            subject.watched,
            subject.episodes,
            subject.air_weekday,
            today,
            rss,
        );
        subject.update_state = badge.to_owned();
        if let Some(url) = cover_local_url(subject.id, cached[i]) {
            subject.image = Some(url);
        }
        assert(subject@ =~= decorated(
            before[i as int]@,
            rss_of(overview@, before[i as int].id),
            today,
            cached@[i as int],
        ));
        subjects[i] = subject;
    }
}

/// What is wrong with a keyword without the white space around it, if anything.
pub open spec fn keyword_fault(keyword: Seq<char>) -> Option<Seq<char>> {
    if keyword.len() < 2 {
        Some("请输入至少 2 个字符"@)
    } else if keyword.len() > 80 {
        Some("搜索关键词过长"@)
    } else {
        None
    }
}

/// The keyword of a search without the white space around it. It must have from two to
/// eighty characters.
pub fn search_keyword(keyword: &str) -> (r: Result<String, String>)
    ensures
        match r {
            Ok(k) => k@ == trimmed(keyword@) && keyword_fault(k@) is None,
            Err(e) => keyword_fault(trimmed(keyword@)) == Some(e@),
        },
{
    let keyword: String = trim(keyword);
    let count: usize = chars_of(keyword.as_str()).len();
    if count < 2 {
        return Err("请输入至少 2 个字符".to_owned());
    }
    if count > 80 {
        return Err("搜索关键词过长".to_owned());
    }
    Ok(keyword)
}

/// Whether the names of a subject hold the keyword, leaving aside punctuation and case.
pub open spec fn names_hold(subject: SubjectView, keyword: Seq<char>) -> bool {
    contains_text(normalized(subject.name + subject.name_cn), normalized(keyword))
}

/// The subjects whose names hold the keyword, each number once, at most `limit`.
pub open spec fn matches_among(
    subjects: Seq<SubjectView>,
    keyword: Seq<char>,
    limit: nat,
) -> Seq<SubjectView>
    decreases subjects.len(),
{
    if subjects.len() == 0 {
        Seq::empty()
    } else {
        let rest = subjects.drop_last();
        let subject = subjects.last();
        let before = matches_among(rest, keyword, limit);
        if before.len() < limit && !id_taken(rest, Seq::empty(), subject.id) && names_hold(
            subject,
            keyword,
        ) {
            before.push(subject)
        } else {
            before
        }
    }
}

/// A search finds at most as many subjects as asked for, only such whose names hold the
/// keyword, and no number twice.
pub proof fn law_search_is_limited(subjects: Seq<SubjectView>, keyword: Seq<char>, limit: nat)
    ensures
        matches_among(subjects, keyword, limit).len() <= limit,
        forall|i: int|
            0 <= i < matches_among(subjects, keyword, limit).len() ==> names_hold(
                #[trigger] matches_among(subjects, keyword, limit)[i],
                keyword,
            ) && subjects.contains(matches_among(subjects, keyword, limit)[i]),
        forall|i: int, j: int|
            0 <= i < j < matches_among(subjects, keyword, limit).len() ==> (
            #[trigger] matches_among(subjects, keyword, limit)[i]).id != (
            #[trigger] matches_among(subjects, keyword, limit)[j]).id,
    decreases subjects.len(),
{
    if subjects.len() > 0 {
        let rest = subjects.drop_last();
        law_search_is_limited(rest, keyword, limit);
        let before = matches_among(rest, keyword, limit);
        let all = matches_among(subjects, keyword, limit);
        assert forall|i: int| 0 <= i < all.len() implies names_hold(#[trigger] all[i], keyword)
            && subjects.contains(all[i]) by {
            if i < before.len() {
                assert(all[i] == before[i]);
                let k = choose|k: int| 0 <= k < rest.len() && rest[k] == before[i];
                assert(subjects[k] == all[i]);
            } else {
                assert(subjects[subjects.len() - 1] == all[i]);
            }
        }
        assert forall|i: int, j: int| 0 <= i < j < all.len() implies (#[trigger] all[i]).id != (
        #[trigger] all[j]).id by {
            assert(all[i] == before[i]);
            if j < before.len() {
                assert(all[j] == before[j]);
            } else {
                let k = choose|k: int| 0 <= k < rest.len() && rest[k] == before[i];
                if before[i].id == all[j].id {
                    assert(rest[k].id == subjects.last().id);
                    assert(id_taken(rest, Seq::empty(), subjects.last().id));
                }
            }
        }
    }
}

/// What a search without the network looks through: the cached subjects, then the stored
/// calendar.
pub open spec fn local_subjects(documents: Seq<Json>, calendar: Option<Seq<SubjectView>>) -> Seq<
    SubjectView,
> {
    documents.map_values(|v: Json| cached_subject(v)) + match calendar {
        Some(list) => list,
        None => Seq::empty(),
    }
}

/// The subjects that are found without the network: those of the cache and of the stored
/// calendar whose names hold the keyword, each number once, at most `limit` and thirty.
pub fn search_locally(
    documents: &Vec<&Json>,
    calendar: Option<Vec<Subject>>,
    keyword: &str,
    limit: u32,
) -> (found: Vec<Subject>)
    ensures
        views(found@) == matches_among(
            local_subjects(derefs(documents@), crate::db::opt_subjects(calendar)),
            keyword@,
            local_limit(Some(limit)),
        ),
{
    let most: usize = if limit < 30 {
        limit as usize
    } else {
        30
    };
    let ghost values = derefs(documents@);
    let mut local: Vec<Subject> = Vec::new();
    for i in 0..documents.len()
        invariant
            values == derefs(documents@),
            local@.len() == i,
            forall|j: int| 0 <= j < i ==> (#[trigger] local@[j])@ == cached_subject(values[j]),
    {
        assert(values[i as int] == *documents@[i as int]);
        local.push(subject_from_cache(documents[i]));
    }
    if let Some(list) = &calendar {
        let n: usize = local.len();
        for i in 0..list.len()
            invariant
                n == values.len(),
                local@.len() == n + i,
                forall|j: int| 0 <= j < n ==> (#[trigger] local@[j])@ == cached_subject(values[j]),
                forall|j: int| n <= j < n + i ==> #[trigger] local@[j] == list@[j - n],
        {
            local.push(list[i].clone());
        }
    }
    let ghost all = local_subjects(values, crate::db::opt_subjects(calendar));
    assert(views(local@) =~= all);
    let needle: Vec<char> = chars_of(normalize_title(keyword).as_str());
    let mut found: Vec<Subject> = Vec::new();
    let mut ids: Vec<i64> = Vec::new();
    assert(views(found@) =~= matches_among(all.take(0), keyword@, most as nat));
    for i in 0..local.len()
        invariant
            all == views(local@),
            needle@ == normalized(keyword@),
            ids@.len() == i,
            forall|j: int| 0 <= j < i ==> #[trigger] ids@[j] == all[j].id,
            found@.len() <= most,
            views(found@) == matches_among(all.take(i as int), keyword@, most as nat),
    {
        let subject: &Subject = &local[i];
        assert(all[i as int] == subject@);
        assert(all.take(i + 1).drop_last() =~= all.take(i as int));
        assert(all.take(i + 1).last() == subject@);
        let known: bool = holds_id(&ids, subject.id);
        assert(known == id_taken(all.take(i as int), Seq::empty(), subject.id)) by {
            if known {
                let j = choose|j: int| 0 <= j < ids@.len() && ids@[j] == subject.id;
                assert(all.take(i as int)[j].id == subject.id);
            }
            if id_taken(all.take(i as int), Seq::empty(), subject.id) {
                let j = choose|j: int|
                    0 <= j < i && (#[trigger] all.take(i as int)[j]).id == subject.id;
                assert(ids@[j] == subject.id);
            }
        }
        let ghost before = found@;
        if found.len() < most && !known {
            let mut names: String = subject.name.clone();
            append(&mut names, subject.name_cn.as_str());
            let title: Vec<char> = chars_of(normalize_title(names.as_str()).as_str());
            if contains_chars(&title, &needle) {
                found.push(subject.clone());
                assert(views(found@) =~= views(before).push(subject@));
            }
        }
        ids.push(subject.id);
    }
    assert(all.take(all.len() as int) =~= all);
    found
}

/// What a search shows: the subjects with their collections, whether only local data was
/// searched, and what went wrong.
#[derive(Debug)]
pub struct SearchPayload {
    pub subjects: Vec<Subject>,
    pub local_only: bool,
    pub warning: Option<String>,
}

/// Whether an answer is the one to a search: what was found remotely, or without it the matches
/// among the known subjects with a warning, either way with the collections that are known.
pub open spec fn search_answers(
    db: DatabaseView,
    documents: Seq<Json>,
    keyword: Seq<char>,
    limit: Option<u32>,
    remote: Result<Vec<Subject>, String>,
    p: SearchPayload,
) -> bool {
    match remote {
        Ok(subjects) => !p.local_only && p.warning is None && views(
            p.subjects@,
        ) == views(subjects@).map_values(
            |s: SubjectView| with_collection(s, s.id, db_collections(db)),
        ),
        Err(error) => p.local_only && opt_text(p.warning) == Some(
            error@ + "，当前显示本地匹配结果"@,
        ) && views(p.subjects@) == matches_among(
            local_subjects(documents, db.calendar),
            keyword,
            local_limit(limit),
        ).map_values(|s: SubjectView| with_collection(s, s.id, db_collections(db))),
    }
}

/// What a search shows, given what came over the network. Where nothing came, local data is
/// searched and the reason is told.
pub fn search_anime(
    db: &Database,
    keyword: &str,
    limit: Option<u32>,
    remote: Result<Vec<Subject>, String>,
) -> (r: Result<SearchPayload, String>)
    requires
        db.wf(),
    ensures
        r is Ok,
        search_answers(db@, db_documents(*db), keyword@, limit, remote, r->Ok_0),
{
    let collections: HashMap<i64, (String, i64)> = db.collections()?;
    let asked: u32 = match limit {
        Some(n) => n,
        None => 20,
    };
    proof {
        assert(collected(collections@) =~= db_collections(db@));
    }
    let (mut subjects, local_only, warning): (Vec<Subject>, bool, Option<String>) = match remote {
        Ok(subjects) => (subjects, false, None),
        Err(error) => {
            let documents: Vec<&Json> = db.cached_subjects()?;
            assert(derefs(documents@) =~= db_documents(*db));
            let calendar: Option<Vec<Subject>> = match db.cached_calendar() {
                Ok(list) => Some(list),
                Err(_) => None,
            };
            let mut warning: String = error.clone();
            append(&mut warning, "，当前显示本地匹配结果");
            (search_locally(&documents, calendar, keyword, asked), true, Some(warning))
        },
    };
    let ghost before = subjects@;
    let n: usize = subjects.len();
    for i in 0..n
        invariant
            n == subjects@.len(),
            n == before.len(),
            collected(collections@) == db_collections(db@),
            forall|j: int|
                0 <= j < i ==> (#[trigger] subjects@[j])@ == with_collection(
                    before[j]@,
                    before[j].id,
                    db_collections(db@),
                ),
            forall|j: int| i <= j < n ==> #[trigger] subjects@[j] == before[j],
    {
        let mut subject: Subject = subjects[i].clone();
        let id: i64 = subject.id;
        note_collection(&mut subject, id, &collections);
        subjects[i] = subject;
    }
    assert(views(subjects@) =~= views(before).map_values(
        |s: SubjectView| with_collection(s, s.id, db_collections(db@)),
    ));
    Ok(SearchPayload { subjects, local_only, warning })
}

/// The collections of a database with the watched episodes.
pub open spec fn db_collections(db: DatabaseView) -> Map<i64, (Seq<char>, i64)> {
    db.collections.map_values(
        |row: crate::db::CollectionRowView| (row.collection, row.watched),
    )
}

/// The documents of the cached subjects in the order of their numbers.
pub open spec fn db_documents(db: Database) -> Seq<Json> {
    db.subjects.numbers().map_values(|k: i64| db@.subjects[k].0)
}

/// At most how many subjects a search without the network gives.
pub open spec fn local_limit(limit: Option<u32>) -> nat {
    match limit {
        Some(n) => if n < 30 {
            n as nat
        } else {
            30
        },
        None => 20,
    }
}

/// Whether the stored details of a subject are shown without asking for new ones.
pub open spec fn shows_detail(db: DatabaseView, subject_id: i64, now: Moment) -> bool {
    db.details.dom().contains(subject_id) && younger_than(
        db.details[subject_id].1,
        now,
        DETAIL_TTL,
    )
}

/// The stored details of a subject where they were stored in the last hours; nothing where
/// new ones are to be fetched.
pub fn fresh_detail(db: &Database, subject_id: i64, now: Moment) -> (r: Option<&Json>)
    requires
        db.wf(),
    ensures
        r is Some <==> shows_detail(db@, subject_id, now),
        r matches Some(value) ==> *value == db@.details[subject_id].0,
{
    match db.cached_detail(subject_id) {
        Ok(Some((value, updated_at))) => {
            if is_younger(updated_at, now, DETAIL_TTL) {
                Some(value)
            } else {
                None
            }
        },
        _ => None,
    }
}

/// The details of a subject that are kept.
pub open spec fn kept_detail(db: DatabaseView, subject_id: i64) -> Option<Json> {
    if db.details.dom().contains(subject_id) {
        Some(db.details[subject_id].0)
    } else {
        None
    }
}

/// What is shown after new details were asked for and none came: the stored ones, however
/// old, or the reason.
pub fn detail_after_failure(db: &Database, subject_id: i64, error: String) -> (r: Result<
    &Json,
    String,
>)
    requires
        db.wf(),
    ensures
        match r {
            Ok(value) => kept_detail(db@, subject_id) == Some(*value),
            Err(e) => kept_detail(db@, subject_id) is None && e == error,
        },
{
    match db.cached_detail(subject_id)? {
        Some((value, _)) => Ok(value),
        None => Err(error),
    }
}

} // verus!
