//! Broadcast data: which subjects air weekly, on which day, and where their feeds are.

use crate::clock::{Moment, jst_weekday, parse_rfc3339, rfc3339_moment, weekday_in_japan};
use crate::json::{Json, as_text, elements, elements_of, field, text_of};
use crate::models::{Score, Subject, SubjectView};
use crate::numbers::{parse_i64, parse_i64_spec};
use crate::rows::{first, lemma_first_at, lemma_first_none, views};
use crate::text::{chars_of, find, find_from, same, starts_with, string_of};
use std::collections::HashMap;
use vstd::prelude::*;
use vstd::slice::slice_subrange;

verus! {

/// A subject of the broadcast data.
#[derive(Debug)]
pub struct Item {
    pub title: String,
    pub title_translate: Json,
    pub broadcast: String,
    pub sites: Vec<Site>,
}

/// The number of a subject on a site.
#[derive(Debug)]
pub struct Site {
    pub site: String,
    pub id: String,
}

impl View for Site {
    type V = (Seq<char>, Seq<char>);

    open spec fn view(&self) -> (Seq<char>, Seq<char>) {
        (self.site@, self.id@)
    }
}

/// The time at which a subject was first broadcast, where it is broadcast weekly since: the
/// rule reads `R/`, the time, and `/P7D`.
pub open spec fn weekly_broadcast(rule: Seq<char>) -> Option<(i64, u32)> {
    if !"R/"@.is_prefix_of(rule) {
        None
    } else {
        let rest = rule.skip(2);
        match find_from(rest, seq!['/'], 0) {
            Some(k) => if rest.skip(k + 1) == "P7D"@ {
                rfc3339_moment(rest.take(k))
            } else {
                None
            },
            None => None,
        }
    }
}

/// The time at which a subject was first broadcast, where it is broadcast weekly since.
pub fn broadcast_datetime(item: &Item) -> (r: Option<Moment>)
    ensures
        match r {
            Some(m) => weekly_broadcast(item.broadcast@) == Some((m.secs, m.nanos)),
            None => weekly_broadcast(item.broadcast@) is None,
        },
{
    proof {
        reveal_strlit("R/");
    }
    if !starts_with(item.broadcast.as_str(), "R/") {
        return None;
    }
    let rule: Vec<char> = chars_of(item.broadcast.as_str());
    let rest: &[char] = slice_subrange(&rule, 2, rule.len());
    assert(rest@ =~= item.broadcast@.skip(2));
    let slash: Vec<char> = vec!['/'];
    assert(slash@ =~= seq!['/']);
    let k: usize = find(rest, &slash, 0)?;
    let period: String = string_of(slice_subrange(rest, k + 1, rest.len()));
    assert(period@ =~= rest@.skip(k + 1));
    if !same(period.as_str(), "P7D") {
        return None;
    }
    let value: String = string_of(slice_subrange(rest, 0, k));
    assert(value@ =~= rest@.take(k as int));
    parse_rfc3339(value.as_str())
}

/// Whether a number is that of the site.
pub open spec fn on_site(name: Seq<char>) -> spec_fn((Seq<char>, Seq<char>)) -> bool {
    |s: (Seq<char>, Seq<char>)| s.0 == name
}

/// The number of a subject on a site.
pub open spec fn id_on(item: Item, name: Seq<char>) -> Option<i64> {
    match first(views(item.sites@), on_site(name)) {
        Some(site) => parse_i64_spec(site.1),
        None => None,
    }
}

/// The number of a subject on a site.
pub fn site_id(item: &Item, name: &str) -> (r: Option<i64>)
    ensures
        r == id_on(*item, name@),
{
    let ghost all = views(item.sites@);
    for i in 0..item.sites.len()
        invariant
            all == views(item.sites@),
            forall|j: int| 0 <= j < i ==> !on_site(name@)(#[trigger] all[j]),
    {
        assert(all[i as int] == item.sites@[i as int]@);
        if same(item.sites[i].site.as_str(), name) {
            proof {
                lemma_first_at(all, on_site(name@), i as int);
            }
            return parse_i64(item.sites[i].id.as_str());
        }
    }
    proof {
        lemma_first_none(all, on_site(name@));
    }
    None
}

/// The first Chinese title of a subject.
pub open spec fn chinese_title(translations: Json) -> Seq<char> {
    let titles = elements_of(field(translations, "zh-Hans"@));
    if titles.len() > 0 {
        match text_of(Some(titles[0])) {
            Some(title) => title,
            None => Seq::empty(),
        }
    } else {
        Seq::empty()
    }
}

/// The subject of an item: it has a number on Bangumi and is broadcast weekly, on the day
/// that it is in Japan.
pub open spec fn item_subject(item: Item) -> Option<SubjectView> {
    match (id_on(item, "bangumi"@), weekly_broadcast(item.broadcast@)) {
        (Some(id), Some((secs, _))) => Some(
            SubjectView {
                id,
                name: item.title@,
                name_cn: chinese_title(item.title_translate),
                summary: Seq::empty(),
                image: None,
                score: Score { bits: 0 },
                rank: None,
                air_weekday: jst_weekday(secs as int) as i64,
                collection: None,
                episodes: 0,
                watched: 0,
                update_state: "none"@,
            },
        ),
        _ => None,
    }
}

/// The subject of an item.
pub fn subject_from_item(item: &Item) -> (r: Option<Subject>)
    ensures
        crate::rows::opt_view(r) == item_subject(*item),
{
    let id: i64 = site_id(item, "bangumi")?;
    let air: Moment = broadcast_datetime(item)?;
    let titles: Vec<&Json> = elements(item.title_translate.get("zh-Hans"));
    let ghost all = elements_of(field(item.title_translate, "zh-Hans"@));
    let name_cn: String = if titles.len() > 0 {
        assert(crate::json::derefs(titles@)[0] == *titles@[0]);
        match as_text(Some(titles[0])) {
            Some(title) => title.to_owned(),
            None => String::new(),
        }
    } else {
        assert(crate::json::derefs(titles@).len() == 0);
        String::new()
    };
    let subject = Subject {
        id,
        name: item.title.clone(),
        name_cn,
        summary: String::new(),
        image: None,
        score: Score { bits: 0 },
        rank: None,
        air_weekday: weekday_in_japan(air),
        collection: None,
        episodes: 0,
        watched: 0,
        update_state: "none".to_owned(),
    };
    assert(subject@ =~= item_subject(*item)->0);
    Some(subject)
}

/// The subjects that air weekly, and the numbers of subjects on Mikan.
#[derive(Debug)]
pub struct CalendarData {
    pub subjects: Vec<Subject>,
    pub mikan_ids: HashMap<i64, i64>,
}

/// The subjects of the items that have one.
pub open spec fn item_subjects(items: Seq<Item>) -> Seq<SubjectView>
    decreases items.len(),
{
    if items.len() == 0 {
        Seq::empty()
    } else {
        let before = item_subjects(items.drop_last());
        match item_subject(items.last()) {
            Some(subject) => before.push(subject),
            None => before,
        }
    }
}

/// The numbers on Mikan by the numbers on Bangumi. Of two items with the same number on
/// Bangumi the later one counts.
pub open spec fn mikan_numbers(items: Seq<Item>) -> Map<i64, i64>
    decreases items.len(),
{
    if items.len() == 0 {
        Map::empty()
    } else {
        let before = mikan_numbers(items.drop_last());
        match (id_on(items.last(), "bangumi"@), id_on(items.last(), "mikan"@)) {
            (Some(bangumi), Some(mikan)) => before.insert(bangumi, mikan),
            _ => before,
        }
    }
}

/// The subjects that air weekly, and the numbers of subjects on Mikan.
pub fn calendar(items: &Vec<Item>) -> (data: CalendarData)
    ensures
        views(data.subjects@) == item_subjects(items@),
        data.mikan_ids@ == mikan_numbers(items@),
{
    broadcast use vstd::std_specs::hash::group_hash_axioms;

    let mut subjects: Vec<Subject> = Vec::new();
    let mut mikan_ids: HashMap<i64, i64> = HashMap::new();
    assert(views(subjects@) =~= item_subjects(items@.take(0)));
    assert(mikan_ids@ =~= mikan_numbers(items@.take(0)));
    for i in 0..items.len()
        invariant
            views(subjects@) == item_subjects(items@.take(i as int)),
            mikan_ids@ == mikan_numbers(items@.take(i as int)),
    {
        broadcast use vstd::std_specs::hash::group_hash_axioms;

        let item: &Item = &items[i];
        assert(items@.take(i + 1).drop_last() =~= items@.take(i as int));
        assert(items@.take(i + 1).last() == *item);
        if let (Some(bangumi), Some(mikan)) = (site_id(item, "bangumi"), site_id(item, "mikan")) {
            mikan_ids.insert(bangumi, mikan);
        }
        let ghost before = subjects@;
        if let Some(subject) = subject_from_item(item) {
            subjects.push(subject);
            assert(views(subjects@) =~= views(before).push(subject@));
        }
    }
    assert(items@.take(items@.len() as int) =~= items@);
    CalendarData { subjects, mikan_ids }
}

/// The number on Mikan of the first item that has the number on Bangumi and one on Mikan.
pub open spec fn first_mikan(items: Seq<Item>, subject_id: i64) -> Option<i64>
    decreases items.len(),
{
    if items.len() == 0 {
        None
    } else if id_on(items[0], "bangumi"@) == Some(subject_id) && id_on(
        items[0],
        "mikan"@,
    ) is Some {
        id_on(items[0], "mikan"@)
    } else {
        first_mikan(items.drop_first(), subject_id)
    }
}

/// The number of a subject on Mikan.
pub fn mikan_id_for_bangumi(items: &Vec<Item>, subject_id: i64) -> (r: Result<i64, String>)
    ensures
        match r {
            Ok(id) => first_mikan(items@, subject_id) == Some(id),
            Err(e) => first_mikan(items@, subject_id) is None && e@
                == "bgmlist 暂无这部番的 Mikan ID，无法创建单番订阅"@,
        },
{
    assert(items@.skip(0) =~= items@);
    for i in 0..items.len()
        invariant
            first_mikan(items@, subject_id) == first_mikan(items@.skip(i as int), subject_id),
    {
        assert(items@.skip(i as int).drop_first() =~= items@.skip(i + 1));
        if site_id(&items[i], "bangumi") == Some(subject_id) {
            if let Some(mikan) = site_id(&items[i], "mikan") {
                return Ok(mikan);
            }
        }
    }
    Err("bgmlist 暂无这部番的 Mikan ID，无法创建单番订阅".to_owned())
}

/// A subject that is not broadcast weekly does not get into the weekly calendar.
pub proof fn law_only_weekly_broadcasts_are_listed(item: Item)
    requires
        weekly_broadcast(item.broadcast@) is None,
    ensures
        item_subject(item) is None,
{
}

} // verus!
