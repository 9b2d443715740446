//! Subjects as stored documents.

use crate::json::{
    Json, Number, as_bits, as_i64, as_opt_i64, as_opt_text, as_text, bits_of, deref, int_of,
    field, is_record, json_int, json_opt_text, lemma_lookup_at, member, member_names, opt_int_of,
    opt_text_of, part, text_of,
};
use crate::models::{Score, Subject, SubjectView};
use crate::text::opt_text;
use vstd::prelude::*;

verus! {

/// The subject that a stored document holds: every field must be there and of its kind, but
/// for the optional ones.
pub open spec fn stored_subject(value: Json) -> Option<SubjectView> {
    let id = int_of(part(value, "id"@, 0));
    let name = text_of(part(value, "name"@, 1));
    let name_cn = text_of(part(value, "nameCn"@, 2));
    let summary = text_of(part(value, "summary"@, 3));
    let image = opt_text_of(part(value, "image"@, 4));
    let score = bits_of(part(value, "score"@, 5));
    let rank = opt_int_of(part(value, "rank"@, 6));
    let air_weekday = int_of(part(value, "airWeekday"@, 7));
    let collection = opt_text_of(part(value, "collection"@, 8));
    let episodes = int_of(part(value, "episodes"@, 9));
    let watched = int_of(part(value, "watched"@, 10));
    let update_state = text_of(part(value, "updateState"@, 11));
    if is_record(value, 12, 12) && id is Some && name is Some && name_cn is Some && summary is Some
        && image is Some && score is Some && rank is Some && air_weekday is Some
        && collection is Some && episodes is Some && watched is Some && update_state is Some {
        Some(
            SubjectView {
                id: id->0,
                name: name->0,
                name_cn: name_cn->0,
                summary: summary->0,
                image: image->0,
                score: Score { bits: score->0 },
                rank: rank->0,
                air_weekday: air_weekday->0,
                collection: collection->0,
                episodes: episodes->0,
                watched: watched->0,
                update_state: update_state->0,
            },
        )
    } else {
        None
    }
}

/// The names of the fields of a stored document.
pub open spec fn subject_names() -> Seq<Seq<char>> {
    seq![
        "id"@,
        "name"@,
        "nameCn"@,
        "summary"@,
        "image"@,
        "score"@,
        "rank"@,
        "airWeekday"@,
        "collection"@,
        "episodes"@,
        "watched"@,
        "updateState"@,
    ]
}

/// Whether a document is the one that is stored for a subject: an object with one member for
/// each field, which reading gives back. The score is written as a fraction.
pub open spec fn stores_subject(value: Json, subject: SubjectView) -> bool {
    &&& stored_subject(value) == Some(subject)
    &&& int_of(field(value, "id"@)) == Some(subject.id)
    &&& member_names(Some(value)) == subject_names()
    &&& field(value, "score"@) == Some(
        Json::Number((Number { integer: None, bits: Some(subject.score.bits) })),
    )
}

fn read_text(value: Option<&Json>) -> (r: Option<String>)
    ensures
        opt_text(r) == text_of(deref(value)),
{
    match as_text(value) {
        Some(s) => Some(s.to_owned()),
        None => None,
    }
}

impl Subject {
    /// The subject that a stored document holds.
    pub fn from_json(value: &Json) -> (r: Option<Subject>)
        ensures
            match r {
                Some(s) => stored_subject(*value) == Some(s@),
                None => stored_subject(*value) is None,
            },
    {
        if !value.is_record(12, 12) {
            return None;
        }
        let id: i64 = as_i64(value.part("id", 0))?;
        let name: String = read_text(value.part("name", 1))?;
        let name_cn: String = read_text(value.part("nameCn", 2))?;
        let summary: String = read_text(value.part("summary", 3))?;
        let image: Option<String> = as_opt_text(value.part("image", 4))?;
        let score: u64 = as_bits(value.part("score", 5))?;
        let rank: Option<i64> = as_opt_i64(value.part("rank", 6))?;
        let air_weekday: i64 = as_i64(value.part("airWeekday", 7))?;
        let collection: Option<String> = as_opt_text(value.part("collection", 8))?;
        let episodes: i64 = as_i64(value.part("episodes", 9))?;
        let watched: i64 = as_i64(value.part("watched", 10))?;
        let update_state: String = read_text(value.part("updateState", 11))?;
        Some(
            Subject {
                id,
                name,
                name_cn,
                summary,
                image,
                score: Score { bits: score },
                rank,
                air_weekday,
                collection,
                episodes,
                watched,
                update_state,
            },
        )
    }

    /// The document that is stored for a subject. Reading it gives the subject back.
    pub fn to_json(&self) -> (value: Json)
        ensures
            stores_subject(value, self@),
    {
        let rank: Json = match self.rank {
            Some(rank) => json_int(rank as i128),
            None => Json::Null,
        };
        let members: Vec<(String, Json)> = vec![
            member("id", json_int(self.id as i128)),
            member("name", Json::Text(self.name.clone())),
            member("nameCn", Json::Text(self.name_cn.clone())),
            member("summary", Json::Text(self.summary.clone())),
            member("image", json_opt_text(&self.image)),
            member("score", Json::Number(Number { integer: None, bits: Some(self.score.bits) })),
            member("rank", rank),
            member("airWeekday", json_int(self.air_weekday as i128)),
            member("collection", json_opt_text(&self.collection)),
            member("episodes", json_int(self.episodes as i128)),
            member("watched", json_int(self.watched as i128)),
            member("updateState", Json::Text(self.update_state.clone())),
        ];
        proof {
            reveal_strlit("id");
            reveal_strlit("name");
            reveal_strlit("nameCn");
            reveal_strlit("summary");
            reveal_strlit("image");
            reveal_strlit("score");
            reveal_strlit("rank");
            reveal_strlit("airWeekday");
            reveal_strlit("collection");
            reveal_strlit("episodes");
            reveal_strlit("watched");
            reveal_strlit("updateState");
            assert(members@[0].0@.len() == 2);
            assert(members@[1].0@.len() == 4 && members@[1].0@[0] == 'n');
            assert(members@[2].0@.len() == 6);
            assert(members@[3].0@.len() == 7 && members@[3].0@[0] == 's');
            assert(members@[4].0@.len() == 5 && members@[4].0@[0] == 'i');
            assert(members@[5].0@.len() == 5 && members@[5].0@[0] == 's');
            assert(members@[6].0@.len() == 4 && members@[6].0@[0] == 'r');
            assert(members@[7].0@.len() == 10 && members@[7].0@[0] == 'a');
            assert(members@[8].0@.len() == 10 && members@[8].0@[0] == 'c');
            assert(members@[9].0@.len() == 8);
            assert(members@[10].0@.len() == 7 && members@[10].0@[0] == 'w');
            assert(members@[11].0@.len() == 11);
            lemma_lookup_at(members@, 0);
            lemma_lookup_at(members@, 1);
            lemma_lookup_at(members@, 2);
            lemma_lookup_at(members@, 3);
            lemma_lookup_at(members@, 4);
            lemma_lookup_at(members@, 5);
            lemma_lookup_at(members@, 6);
            lemma_lookup_at(members@, 7);
            lemma_lookup_at(members@, 8);
            lemma_lookup_at(members@, 9);
            lemma_lookup_at(members@, 10);
            lemma_lookup_at(members@, 11);
            assert(member_names(Some(Json::Object(members))) =~= subject_names());
        }
        Json::Object(members)
    }
}

} // verus!
