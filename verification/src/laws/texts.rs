//! What holds of texts, numbers and documents: how they are trimmed, joined, split, written and
//! looked up.

use crate::json::{
    Json, Number, bits_of, bool_of, field, field2, int_of, list_of, lookup, member_names, nat_of,
    opt_int_of, opt_text_of, text_of,
};
use crate::models::SubjectView;
use crate::numbers::{decimal, parse_i64_spec};
use crate::stored::{stored_subject, stores_subject};
use crate::text::{
    find_from, is_space, joined, lemma_find_from, lines_of, occurs_at, split_on, trim_end,
    trim_start, trimmed,
};
use vstd::prelude::*;

verus! {

/// Whether a text is white space throughout.
pub open spec fn all_space(s: Seq<char>) -> bool {
    forall|i: int| 0 <= i < s.len() ==> is_space(#[trigger] s[i])
}

proof fn lemma_start(a: Seq<char>, s: Seq<char>)
    requires
        all_space(a),
    ensures
        trim_start(a + s) == trim_start(s),
    decreases a.len(),
{
    if a.len() == 0 {
        assert(a + s =~= s);
    } else {
        assert(is_space(a[0]));
        assert((a + s).drop_first() =~= a.drop_first() + s);
        assert forall|i: int| 0 <= i < a.drop_first().len() implies is_space(
            #[trigger] a.drop_first()[i],
        ) by {
            assert(a.drop_first()[i] == a[i + 1]);
        }
        lemma_start(a.drop_first(), s);
    }
}

proof fn lemma_end(s: Seq<char>, b: Seq<char>)
    requires
        all_space(b),
    ensures
        trim_end(s + b) == trim_end(s),
    decreases b.len(),
{
    if b.len() == 0 {
        assert(s + b =~= s);
    } else {
        assert(is_space(b[b.len() - 1]));
        assert((s + b).last() == b[b.len() - 1]);
        assert((s + b).drop_last() =~= s + b.drop_last());
        assert forall|i: int| 0 <= i < b.drop_last().len() implies is_space(
            #[trigger] b.drop_last()[i],
        ) by {
            assert(b.drop_last()[i] == b[i]);
        }
        lemma_end(s, b.drop_last());
    }
}

/// White space at both ends of a text goes, and all between stays. A text of white space has
/// nothing left.
pub proof fn law_outer_space_goes(a: Seq<char>, s: Seq<char>, b: Seq<char>)
    requires
        all_space(a),
        all_space(b),
    ensures
        s.len() > 0 && !is_space(s[0]) && !is_space(s.last()) ==> trimmed(a + s + b) == s,
        trimmed(a).len() == 0,
        is_space(' ') && is_space('\n') && is_space('\t') && is_space('\r'),
{
    assert(a + s + b =~= a + (s + b));
    lemma_start(a, s + b);
    lemma_start(a, Seq::empty());
    assert(a + Seq::<char>::empty() =~= a);
    if s.len() > 0 && !is_space(s[0]) && !is_space(s.last()) {
        assert((s + b)[0] == s[0]);
        lemma_end(s, b);
    }
}

/// Texts are joined in their order with the separator between each two, and nowhere else.
pub proof fn law_texts_are_joined(parts: Seq<Seq<char>>, part: Seq<char>, sep: Seq<char>)
    ensures
        joined(Seq::empty(), sep).len() == 0,
        joined(seq![part], sep) == part,
        parts.len() > 0 ==> joined(parts.push(part), sep) == joined(parts, sep) + sep + part,
{
    assert(parts.push(part).drop_last() =~= parts);
}

/// A text is split at each place where the separator stands, from left to right; the first piece
/// is what stands before the first one.
pub proof fn law_texts_are_split(piece: Seq<char>, sep: Seq<char>, rest: Seq<char>)
    requires
        sep.len() > 0,
        forall|j: int| 0 <= j < piece.len() ==> !occurs_at(piece + sep + rest, sep, j),
    ensures
        split_on(piece + sep + rest, sep) == seq![piece] + split_on(rest, sep),
        (forall|j: int| !occurs_at(rest, sep, j)) ==> split_on(rest, sep) == seq![rest],
{
    let s = piece + sep + rest;
    let n = piece.len() as int;
    let m = sep.len() as int;
    lemma_find_from(s, sep, 0);
    lemma_find_from(rest, sep, 0);
    assert(s.subrange(n, n + m) =~= sep);
    assert(occurs_at(s, sep, n));
    assert(find_from(s, sep, 0) == Some(n));
    assert(s.take(n) =~= piece);
    assert(s.skip(n + m) =~= rest);
}

/// A line ends at a line feed, with or without a carriage return before it.
pub proof fn law_lines_end_at_line_feeds(line: Seq<char>, rest: Seq<char>)
    requires
        !line.contains('\n'),
    ensures
        lines_of(Seq::empty()).len() == 0,
        line.len() > 0 ==> lines_of(line) == seq![line],
        line.len() == 0 || line.last() != '\r' ==> lines_of(line.push('\n') + rest) == seq![line]
            + lines_of(rest),
        lines_of(line.push('\r').push('\n') + rest) == seq![line] + lines_of(rest),
{
    lemma_line(line, rest);
    let more = line.push('\r');
    assert(!more.contains('\n')) by {
        if more.contains('\n') {
            let i = choose|i: int| 0 <= i < more.len() && more[i] == '\n';
            assert(line[i] == '\n');
        }
    }
    lemma_line(more, rest);
    assert(more.drop_last() =~= line);
    let feed = seq!['\n'];
    lemma_find_from(line, feed, 0);
    if line.len() > 0 {
        if let Some(k) = find_from(line, feed, 0) {
            assert(line.subrange(k, k + 1)[0] == '\n');
            assert(line.contains(line[k]));
        }
    }
}

proof fn lemma_line(line: Seq<char>, rest: Seq<char>)
    requires
        !line.contains('\n'),
    ensures
        lines_of(line.push('\n') + rest) == seq![crate::text::strip_cr(line)] + lines_of(rest),
{
    let s = line.push('\n') + rest;
    let feed = seq!['\n'];
    let n = line.len() as int;
    lemma_find_from(s, feed, 0);
    assert(s.subrange(n, n + 1) =~= feed);
    assert(occurs_at(s, feed, n));
    assert forall|j: int| 0 <= j < n implies !occurs_at(s, feed, j) by {
        if occurs_at(s, feed, j) {
            assert(s.subrange(j, j + 1)[0] == '\n');
            assert(s[j] == line[j]);
            assert(line.contains(line[j]));
        }
    }
    assert(s.take(n) =~= line);
    assert(s.skip(n + 1) =~= rest);
}

/// A number is written in decimal with its last digit last and a minus sign before a negative one,
/// and reading what was written gives it back.
pub proof fn law_numbers_are_written_in_decimal(n: i64, d: int)
    ensures
        0 <= d <= 9 ==> decimal(d) == seq![('0' as u32 + d) as char],
        n >= 10 ==> decimal(n as int) == decimal(n as int / 10) + decimal(n as int % 10),
        n < 0 ==> decimal(n as int) == seq!['-'] + decimal(-n),
        parse_i64_spec(decimal(n as int)) == Some(n),
        n >= 0 ==> parse_i64_spec(seq!['+'] + decimal(n as int)) == Some(n),
{
    crate::numbers::law_parse_reads_decimal(n);
    if n >= 0 {
        let s = decimal(n as int);
        assert((seq!['+'] + s).skip(1) =~= s);
        crate::numbers::lemma_digits_value(n as nat);
    }
    if n >= 10 {
        assert(decimal(n as int) =~= decimal(n as int / 10) + decimal(n as int % 10));
    }
}

/// A text that holds anything but digits behind an optional sign is no number.
pub proof fn law_other_texts_are_no_numbers(s: Seq<char>, k: int)
    requires
        0 <= k < s.len(),
        !('0' <= s[k] && s[k] <= '9'),
        k > 0 || (s[k] != '-' && s[k] != '+') || s.len() == 1,
    ensures
        parse_i64_spec(s) is None,
        parse_i64_spec(Seq::empty()) is None,
{
    let signed = s[0] == '-' || s[0] == '+';
    if signed {
        let body = s.skip(1);
        if k > 0 {
            assert(body[k - 1] == s[k]);
            assert(!crate::numbers::is_digit(body[k - 1]));
        }
    } else {
        assert(!crate::numbers::is_digit(s[k]));
    }
}

/// The member of an object is the first with its name; other values have no members.
pub proof fn law_members_are_found(
    members: Seq<(String, Json)>,
    name: Seq<char>,
    k: int,
    list: Vec<Json>,
)
    ensures
        0 <= k < members.len() && members[k].0@ == name && (forall|j: int|
            0 <= j < k ==> (#[trigger] members[j]).0@ != name) ==> lookup(members, name) == Some(
            members[k].1,
        ),
        (forall|j: int| 0 <= j < members.len() ==> (#[trigger] members[j]).0@ != name) ==> lookup(
            members,
            name,
        ) is None,
        field(Json::Null, name) is None,
        field(Json::List(list), name) is None,
    decreases members.len(),
{
    if members.len() > 0 {
        let rest = members.drop_first();
        law_members_are_found(rest, name, k - 1, list);
        if members[0].0@ != name {
            assert forall|j: int| 0 <= j < rest.len() implies #[trigger] rest[j] == members[j + 1] by {}
            if forall|j: int| 0 <= j < members.len() ==> (#[trigger] members[j]).0@ != name {
                assert forall|j: int| 0 <= j < rest.len() implies (#[trigger] rest[j]).0@ != name by {
                    assert(rest[j] == members[j + 1]);
                }
            }
            if 0 <= k < members.len() && members[k].0@ == name && (forall|j: int|
                0 <= j < k ==> (#[trigger] members[j]).0@ != name) {
                assert(rest[k - 1] == members[k]);
                assert forall|j: int| 0 <= j < k - 1 implies (#[trigger] rest[j]).0@ != name by {
                    assert(rest[j] == members[j + 1]);
                }
            }
        }
    }
}

/// A value is read only as what it is: a whole number within its range, the bits of a number, a
/// text, a truth value or a list; null and what is missing stand for an optional text that is not
/// there.
pub proof fn law_values_are_read_as_they_are(n: Number, s: String, b: bool, list: Vec<Json>, i: i64)
    ensures
        n.integer == Some(i as i128) ==> int_of(Some(Json::Number(n))) == Some(i),
        n.integer is None ==> int_of(Some(Json::Number(n))) is None,
        n.integer matches Some(v) && !(i64::MIN <= v <= i64::MAX) ==> int_of(
            Some(Json::Number(n)),
        ) is None,
        n.integer == Some(i as i128) && 0 <= i <= 100 ==> nat_of(Some(Json::Number(n)), 100)
            == Some(i as int),
        n.integer matches Some(v) && !(0 <= v <= 100) ==> nat_of(Some(Json::Number(n)), 100) is None,
        bits_of(Some(Json::Number(n))) == n.bits,
        text_of(Some(Json::Text(s))) == Some(s@),
        bool_of(Some(Json::Bool(b))) == Some(b),
        list_of(Some(Json::List(list))) == Some(list@),
        int_of(Some(Json::Text(s))) is None && int_of(None) is None && int_of(Some(Json::Null)) is None,
        text_of(Some(Json::Number(n))) is None && text_of(None) is None && text_of(
            Some(Json::Null),
        ) is None,
        bool_of(Some(Json::Text(s))) is None && list_of(Some(Json::Text(s))) is None,
        opt_text_of(None) == Some(None::<Seq<char>>),
        opt_text_of(Some(Json::Null)) == Some(None::<Seq<char>>),
        opt_text_of(Some(Json::Text(s))) == Some(Some(s@)),
        opt_text_of(Some(Json::Bool(b))) is None,
{
}

/// A member of a member is found where both are there.
pub proof fn law_inner_members_are_found(value: Json, outer: Seq<char>, inner: Seq<char>)
    ensures
        field(value, outer) matches Some(v) ==> field2(value, outer, inner) == field(v, inner),
        field(value, outer) is None ==> field2(value, outer, inner) is None,
{
}

/// The subject of a stored object has the values of its members, under their names.
pub proof fn law_stored_subjects_have_their_members(value: Json, s: SubjectView)
    requires
        value is Object,
        stored_subject(value) == Some(s),
    ensures
        int_of(field(value, "id"@)) == Some(s.id),
        text_of(field(value, "name"@)) == Some(s.name),
        text_of(field(value, "nameCn"@)) == Some(s.name_cn),
        text_of(field(value, "summary"@)) == Some(s.summary),
        opt_text_of(field(value, "image"@)) == Some(s.image),
        bits_of(field(value, "score"@)) == Some(s.score.bits),
        opt_int_of(field(value, "rank"@)) == Some(s.rank),
        int_of(field(value, "airWeekday"@)) == Some(s.air_weekday),
        opt_text_of(field(value, "collection"@)) == Some(s.collection),
        int_of(field(value, "episodes"@)) == Some(s.episodes),
        int_of(field(value, "watched"@)) == Some(s.watched),
        text_of(field(value, "updateState"@)) == Some(s.update_state),
{
}

/// A stored object with a value of the right kind for each member is a subject.
pub proof fn law_whole_objects_are_subjects(value: Json)
    requires
        value is Object,
        int_of(field(value, "id"@)) is Some,
        text_of(field(value, "name"@)) is Some,
        text_of(field(value, "nameCn"@)) is Some,
        text_of(field(value, "summary"@)) is Some,
        opt_text_of(field(value, "image"@)) is Some,
        bits_of(field(value, "score"@)) is Some,
        opt_int_of(field(value, "rank"@)) is Some,
        int_of(field(value, "airWeekday"@)) is Some,
        opt_text_of(field(value, "collection"@)) is Some,
        int_of(field(value, "episodes"@)) is Some,
        int_of(field(value, "watched"@)) is Some,
        text_of(field(value, "updateState"@)) is Some,
    ensures
        stored_subject(value) is Some,
{
}

/// The subject of a stored list has its values in the order of the members, all twelve of them.
pub proof fn law_stored_lists_have_their_order(list: Vec<Json>, s: SubjectView)
    requires
        stored_subject(Json::List(list)) == Some(s),
    ensures
        list@.len() == 12,
        int_of(Some(list@[0])) == Some(s.id),
        text_of(Some(list@[1])) == Some(s.name),
        text_of(Some(list@[2])) == Some(s.name_cn),
        text_of(Some(list@[3])) == Some(s.summary),
        opt_text_of(Some(list@[4])) == Some(s.image),
        bits_of(Some(list@[5])) == Some(s.score.bits),
        opt_int_of(Some(list@[6])) == Some(s.rank),
        int_of(Some(list@[7])) == Some(s.air_weekday),
        opt_text_of(Some(list@[8])) == Some(s.collection),
        int_of(Some(list@[9])) == Some(s.episodes),
        int_of(Some(list@[10])) == Some(s.watched),
        text_of(Some(list@[11])) == Some(s.update_state),
{
}

/// What is written of a subject is an object with one member for each value, which reads back as
/// the subject.
pub proof fn law_written_subjects_read_back(value: Json, s: SubjectView)
    requires
        stores_subject(value, s),
    ensures
        stored_subject(value) == Some(s),
        member_names(Some(value)) == seq![
            "id"@,
            "name"@,
            "nameCn"@,
            "summary"@,
            "image"@,
            "score"@,
            "rank"@,
            "airWeekday"@,
            "collection"@,
            "episodes"@,
            "watched"@,
            "updateState"@,
        ],
        bits_of(field(value, "score"@)) == Some(s.score.bits),
{
}

} // verus!
