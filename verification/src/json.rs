//! JSON values as plain data.

use crate::text::same;
use vstd::prelude::*;

verus! {

/// A JSON number: its value where it is a whole number that fits, and the bits of
/// the double-precision number nearest to it, which is finite. A whole number that
/// this library writes carries no bits.
#[derive(Debug, Clone, Copy)]
pub struct Number {
    pub integer: Option<i128>,
    pub bits: Option<u64>,
}

/// A JSON value. The members of an object stand in order, each name once.
#[derive(Debug)]
pub enum Json {
    Null,
    Bool(bool),
    Number(Number),
    Text(String),
    List(Vec<Json>),
    Object(Vec<(String, Json)>),
}

/// The value of the first member with a name.
pub open spec fn lookup(members: Seq<(String, Json)>, name: Seq<char>) -> Option<Json>
    decreases members.len(),
{
    if members.len() == 0 {
        None
    } else if members[0].0@ == name {
        Some(members[0].1)
    } else {
        lookup(members.drop_first(), name)
    }
}

/// The member of an object with a name; nothing for a value of another kind.
pub open spec fn field(value: Json, name: Seq<char>) -> Option<Json> {
    match value {
        Json::Object(members) => lookup(members@, name),
        _ => None,
    }
}

/// A member of a member.
pub open spec fn field2(value: Json, outer: Seq<char>, inner: Seq<char>) -> Option<Json> {
    match field(value, outer) {
        Some(v) => field(v, inner),
        None => None,
    }
}

/// The names of the members of an object in order; none for a value of another kind.
pub open spec fn member_names(value: Option<Json>) -> Seq<Seq<char>> {
    match value {
        Some(Json::Object(members)) => members@.map_values(|m: (String, Json)| m.0@),
        _ => Seq::empty(),
    }
}

/// A whole number in the range of `i64`.
pub open spec fn int_of(value: Option<Json>) -> Option<i64> {
    match value {
        Some(Json::Number(n)) => match n.integer {
            Some(v) if i64::MIN <= v <= i64::MAX => Some(v as i64),
            _ => None,
        },
        _ => None,
    }
}

/// A whole number between 0 and `max`.
pub open spec fn nat_of(value: Option<Json>, max: int) -> Option<int> {
    match value {
        Some(Json::Number(n)) => match n.integer {
            Some(v) if 0 <= v <= max => Some(v as int),
            _ => None,
        },
        _ => None,
    }
}

/// The bits of a number.
pub open spec fn bits_of(value: Option<Json>) -> Option<u64> {
    match value {
        Some(Json::Number(n)) => n.bits,
        _ => None,
    }
}

/// A text.
pub open spec fn text_of(value: Option<Json>) -> Option<Seq<char>> {
    match value {
        Some(Json::Text(s)) => Some(s@),
        _ => None,
    }
}

/// A truth value.
pub open spec fn bool_of(value: Option<Json>) -> Option<bool> {
    match value {
        Some(Json::Bool(b)) => Some(b),
        _ => None,
    }
}

/// The elements of a list.
pub open spec fn list_of(value: Option<Json>) -> Option<Seq<Json>> {
    match value {
        Some(Json::List(v)) => Some(v@),
        _ => None,
    }
}

/// What an optional reference refers to.
pub open spec fn deref(value: Option<&Json>) -> Option<Json> {
    match value {
        Some(v) => Some(*v),
        None => None,
    }
}

impl Json {
    /// The member of an object with a name; nothing for a value of another kind.
    pub fn get(&self, name: &str) -> (r: Option<&Json>)
        ensures
            deref(r) == field(*self, name@),
    {
        match self {
            Json::Object(members) => {
                assert(members@.skip(0) =~= members@);
                for i in 0..members.len()
                    invariant
                        *self == Json::Object(*members),
                        lookup(members@, name@) == lookup(members@.skip(i as int), name@),
                {
                    if same(members[i].0.as_str(), name) {
                        return Some(&members[i].1);
                    }
                    assert(members@.skip(i as int).drop_first() =~= members@.skip(i + 1));
                }
                None
            },
            _ => None,
        }
    }

    /// A member of a member.
    pub fn get2(&self, outer: &str, inner: &str) -> (r: Option<&Json>)
        ensures
            deref(r) == field2(*self, outer@, inner@),
    {
        match self.get(outer) {
            Some(v) => v.get(inner),
            None => None,
        }
    }
}

/// A whole number in the range of `i64`.
pub fn as_i64(value: Option<&Json>) -> (r: Option<i64>)
    ensures
        r == int_of(deref(value)),
{
    match value {
        Some(Json::Number(n)) => match n.integer {
            Some(v) => if -9223372036854775808 <= v && v <= 9223372036854775807 {
                Some(v as i64)
            } else {
                None
            },
            None => None,
        },
        _ => None,
    }
}

/// A whole number between 0 and `max`.
pub fn as_nat(value: Option<&Json>, max: u64) -> (r: Option<u64>)
    ensures
        match r {
            Some(v) => nat_of(deref(value), max as int) == Some(v as int),
            None => nat_of(deref(value), max as int) is None,
        },
        r matches Some(v) ==> v <= max,
{
    match value {
        Some(Json::Number(n)) => match n.integer {
            Some(v) => if 0 <= v && v <= max as i128 {
                Some(v as u64)
            } else {
                None
            },
            None => None,
        },
        _ => None,
    }
}

/// The bits of a number.
pub fn as_bits(value: Option<&Json>) -> (r: Option<u64>)
    ensures
        r == bits_of(deref(value)),
{
    match value {
        Some(Json::Number(n)) => n.bits,
        _ => None,
    }
}

/// A text.
pub fn as_text<'a>(value: Option<&'a Json>) -> (r: Option<&'a str>)
    ensures
        crate::text::opt_str(r) == text_of(deref(value)),
{
    match value {
        Some(Json::Text(s)) => Some(s.as_str()),
        _ => None,
    }
}

/// A truth value.
pub fn as_bool(value: Option<&Json>) -> (r: Option<bool>)
    ensures
        r == bool_of(deref(value)),
{
    match value {
        Some(Json::Bool(b)) => Some(*b),
        _ => None,
    }
}

/// The elements of a list; none for a value of another kind.
pub open spec fn elements_of(value: Option<Json>) -> Seq<Json> {
    match list_of(value) {
        Some(list) => list,
        None => Seq::empty(),
    }
}

/// What references refer to.
pub open spec fn derefs(list: Seq<&Json>) -> Seq<Json> {
    list.map_values(|v: &Json| *v)
}

/// The elements of a list; none for a value of another kind.
pub fn elements<'a>(value: Option<&'a Json>) -> (r: Vec<&'a Json>)
    ensures
        derefs(r@) == elements_of(deref(value)),
{
    let mut r: Vec<&'a Json> = Vec::new();
    match value {
        Some(Json::List(list)) => {
            for i in 0..list.len()
                invariant
                    r@.len() == i,
                    forall|j: int| 0 <= j < i ==> *(#[trigger] r@[j]) == list@[j],
            {
                r.push(&list[i]);
            }
        },
        _ => {},
    }
    assert(derefs(r@) =~= elements_of(deref(value)));
    r
}

/// A text, or the empty text.
pub open spec fn text_or_empty(value: Option<Json>) -> Seq<char> {
    match text_of(value) {
        Some(s) => s,
        None => Seq::empty(),
    }
}

/// A text, or the empty text.
pub fn to_text(value: Option<&Json>) -> (r: String)
    ensures
        r@ == text_or_empty(deref(value)),
{
    match as_text(value) {
        Some(s) => s.to_owned(),
        None => String::new(),
    }
}

/// A member with a name and a value.
pub fn member(name: &str, value: Json) -> (m: (String, Json))
    ensures
        m.0@ == name@,
        m.1 == value,
{
    (name.to_owned(), value)
}

/// The JSON value of a whole number.
pub fn json_int(n: i128) -> (v: Json)
    ensures
        v == Json::Number((Number { integer: Some(n), bits: None })),
{
    Json::Number(Number { integer: Some(n), bits: None })
}

/// The JSON value of an optional text: null where there is none.
pub fn json_opt_text(value: &Option<String>) -> (v: Json)
    ensures
        match *value {
            Some(s) => v == Json::Text(s),
            None => v == Json::Null,
        },
{
    match value {
        Some(s) => Json::Text(s.clone()),
        None => Json::Null,
    }
}

/// A field of a record: the member of an object with the name of the field, or the
/// element of a list at its position.
pub open spec fn part(value: Json, name: Seq<char>, at: int) -> Option<Json> {
    match value {
        Json::Object(members) => lookup(members@, name),
        Json::List(list) => if 0 <= at < list@.len() {
            Some(list@[at])
        } else {
            None
        },
        _ => None,
    }
}

/// Whether a value can be a record: an object, or a list of at most `most` fields.
pub open spec fn is_record(value: Json, least: int, most: int) -> bool {
    match value {
        Json::Object(_) => true,
        Json::List(list) => least <= list@.len() <= most,
        _ => false,
    }
}

/// An optional text of a record: none where the field is absent or null; nothing where it
/// is of another kind.
pub open spec fn opt_text_of(value: Option<Json>) -> Option<Option<Seq<char>>> {
    match value {
        None => Some(None),
        Some(Json::Null) => Some(None),
        Some(Json::Text(s)) => Some(Some(s@)),
        _ => None,
    }
}

/// An optional whole number of a record: none where the field is absent or null; nothing
/// where it is of another kind.
pub open spec fn opt_int_of(value: Option<Json>) -> Option<Option<i64>> {
    match value {
        None => Some(None),
        Some(Json::Null) => Some(None),
        _ => match int_of(value) {
            Some(n) => Some(Some(n)),
            None => None,
        },
    }
}

impl Json {
    /// A field of a record.
    pub fn part(&self, name: &str, at: usize) -> (r: Option<&Json>)
        ensures
            deref(r) == part(*self, name@, at as int),
    {
        match self {
            Json::Object(_) => self.get(name),
            Json::List(list) => if at < list.len() {
                Some(&list[at])
            } else {
                None
            },
            _ => None,
        }
    }

    /// Whether a value can be a record.
    pub fn is_record(&self, least: usize, most: usize) -> (r: bool)
        ensures
            r == is_record(*self, least as int, most as int),
    {
        match self {
            Json::Object(_) => true,
            Json::List(list) => least <= list.len() && list.len() <= most,
            _ => false,
        }
    }
}

/// An optional text of a record.
pub fn as_opt_text(value: Option<&Json>) -> (r: Option<Option<String>>)
    ensures
        match r {
            Some(v) => opt_text_of(deref(value)) == Some(crate::text::opt_text(v)),
            None => opt_text_of(deref(value)) is None,
        },
{
    match value {
        None => Some(None),
        Some(Json::Null) => Some(None),
        Some(Json::Text(s)) => Some(Some(s.clone())),
        _ => None,
    }
}

/// An optional whole number of a record.
pub fn as_opt_i64(value: Option<&Json>) -> (r: Option<Option<i64>>)
    ensures
        r == opt_int_of(deref(value)),
{
    match value {
        None => Some(None),
        Some(Json::Null) => Some(None),
        _ => match as_i64(value) {
            Some(n) => Some(Some(n)),
            None => None,
        },
    }
}

/// Takes the member with a name out of an object.
pub fn take_field(value: Json, name: &str) -> (r: Option<Json>)
    ensures
        r == field(value, name@),
{
    let ghost whole = value;
    match value {
        Json::Object(members) => {
            let mut members: Vec<(String, Json)> = members;
            let ghost all = members@;
            assert(all.skip(0) =~= all);
            let n: usize = members.len();
            for i in 0..n
                invariant
                    n == all.len(),
                    members@ == all,
                    field(whole, name@) == lookup(all, name@),
                    whole == value,
                    lookup(all, name@) == lookup(all.skip(i as int), name@),
            {
                if same(members[i].0.as_str(), name) {
                    let found: (String, Json) = members.swap_remove(i);
                    return Some(found.1);
                }
                assert(all.skip(i as int).drop_first() =~= all.skip(i + 1));
            }
            None
        },
        _ => None,
    }
}

/// The member at a position is found by its name where no earlier one has the name.
pub proof fn lemma_lookup_at(members: Seq<(String, Json)>, at: int)
    requires
        0 <= at < members.len(),
        forall|j: int| 0 <= j < at ==> (#[trigger] members[j]).0@ != members[at].0@,
    ensures
        lookup(members, members[at].0@) == Some(members[at].1),
    decreases members.len(),
{
    if at > 0 {
        let rest = members.drop_first();
        assert(members[0].0@ != members[at].0@);
        assert forall|j: int| 0 <= j < at - 1 implies (#[trigger] rest[j]).0@ != rest[at - 1].0@ by {
            assert(members[j + 1].0@ != members[at].0@);
        }
        lemma_lookup_at(rest, at - 1);
    }
}

} // verus!
