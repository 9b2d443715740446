//! Which resources a rule accepts, by the titles under which they are published.

use crate::text::{
    ascii_lower, ascii_lower_char, chars_of, contains_chars, contains_text, copy_opt, copy_texts,
    opt_text, string_of, texts,
};
use vstd::prelude::*;

verus! {

/// What a title has to hold and must not hold.
#[derive(Debug, Default)]
pub struct MatchRule {
    pub includes: Vec<String>,
    pub excludes: Vec<String>,
    pub resolution: Option<String>,
    pub subtitle_group: Option<String>,
}

/// A rule as plain texts.
#[verifier::ext_equal]
pub struct RuleView {
    pub includes: Seq<Seq<char>>,
    pub excludes: Seq<Seq<char>>,
    pub resolution: Option<Seq<char>>,
    pub subtitle_group: Option<Seq<char>>,
}

impl View for MatchRule {
    type V = RuleView;

    open spec fn view(&self) -> RuleView {
        RuleView {
            includes: texts(self.includes@),
            excludes: texts(self.excludes@),
            resolution: opt_text(self.resolution),
            subtitle_group: opt_text(self.subtitle_group),
        }
    }
}

impl Clone for MatchRule {
    fn clone(&self) -> (copy: Self)
        ensures
            copy@ == self@,
    {
        MatchRule {
            includes: copy_texts(&self.includes),
            excludes: copy_texts(&self.excludes),
            resolution: copy_opt(&self.resolution),
            subtitle_group: copy_opt(&self.subtitle_group),
        }
    }
}

/// Whether a character beyond ASCII is alphabetic or numeric.
pub uninterp spec fn unicode_alphanumeric(c: char) -> bool;

/// The lower-case form of a character beyond ASCII: its first character, and those that
/// follow, if it is longer than one.
pub uninterp spec fn unicode_lowercase(c: char) -> (char, Seq<char>);

/// Letters and digits: those of ASCII, and beyond it what Unicode calls alphabetic
/// or numeric.
pub open spec fn is_alphanumeric(c: char) -> bool {
    if c as u32 <= 127 {
        ('0' <= c && c <= '9') || ('A' <= c && c <= 'Z') || ('a' <= c && c <= 'z')
    } else {
        unicode_alphanumeric(c)
    }
}

/// The lower-case form of a character.
pub open spec fn lowercase(c: char) -> Seq<char> {
    if c as u32 <= 127 {
        seq![ascii_lower_char(c)]
    } else {
        seq![unicode_lowercase(c).0] + unicode_lowercase(c).1
    }
}

/// `char::is_alphanumeric` holds of the ASCII letters and digits, and beyond ASCII
/// of what Unicode calls alphabetic or numeric.
pub assume_specification[ char::is_alphanumeric ](c: char) -> (r: bool)
    ensures
        c as u32 <= 127 ==> r == is_alphanumeric(c),
        c as u32 > 127 ==> r == unicode_alphanumeric(c),
;

/// `char::to_lowercase` gives the characters of the lower-case form: for ASCII the
/// one ASCII character, beyond it the one or more characters that Unicode maps the character
/// to.
#[verifier::external_body]
fn to_lowercase(c: char) -> (chars: Vec<char>)
    ensures
        c as u32 <= 127 ==> chars@ == lowercase(c),
        c as u32 > 127 ==> chars@ == seq![unicode_lowercase(c).0] + unicode_lowercase(c).1,
{
    c.to_lowercase().collect()
}

/// A title in the form in which titles are compared: its letters and digits, in
/// lower case.
pub open spec fn normalized(title: Seq<char>) -> Seq<char>
    decreases title.len(),
{
    if title.len() == 0 {
        Seq::empty()
    } else if is_alphanumeric(title.last()) {
        normalized(title.drop_last()) + lowercase(title.last())
    } else {
        normalized(title.drop_last())
    }
}

/// Whether a title that is normalized already holds a keyword.
pub open spec fn holds(title: Seq<char>, keyword: Seq<char>) -> bool {
    contains_text(title, normalized(keyword))
}

/// Whether a rule accepts a title: every keyword to include is there, none to
/// exclude is, and so are the resolution and the subtitle group where given.
pub open spec fn rule_accepts(title: Seq<char>, rule: RuleView) -> bool {
    let t = normalized(title);
    &&& forall|i: int| 0 <= i < rule.includes.len() ==> holds(t, #[trigger] rule.includes[i])
    &&& forall|i: int| 0 <= i < rule.excludes.len() ==> !holds(t, #[trigger] rule.excludes[i])
    &&& rule.resolution matches Some(value) ==> holds(t, value)
    &&& rule.subtitle_group matches Some(value) ==> holds(t, value)
}

/// The characters of a title in the form in which titles are compared.
fn normalize_chars(value: &str) -> (r: Vec<char>)
    ensures
        r@ == normalized(value@),
{
    let chars: Vec<char> = chars_of(value);
    let mut r: Vec<char> = Vec::new();
    for i in 0..chars.len()
        invariant
            r@ == normalized(chars@.take(i as int)),
    {
        assert(chars@.take(i + 1).drop_last() =~= chars@.take(i as int));
        if chars[i].is_alphanumeric() {
            let mut lower: Vec<char> = to_lowercase(chars[i]);
            r.append(&mut lower);
        }
    }
    assert(chars@.take(chars@.len() as int) =~= chars@);
    r
}

/// A title in the form in which titles are compared: its letters and digits, in
/// lower case.
pub fn normalize_title(value: &str) -> (r: String)
    ensures
        r@ == normalized(value@),
        r@.len() == 0 <==> (forall|i: int|
            0 <= i < value@.len() ==> !is_alphanumeric(#[trigger] value@[i])),
{
    proof {
        law_nothing_is_left_only_of_punctuation(value@);
    }
    string_of(&normalize_chars(value))
}

/// Whether a title holds a keyword, both in the form in which they are compared.
pub fn title_holds(title: &str, keyword: &str) -> (r: bool)
    ensures
        r == holds(normalized(title@), keyword@),
{
    contains_chars(&normalize_chars(title), &normalize_chars(keyword))
}

/// Whether a rule accepts a resource with this title.
pub fn resource_matches(title: &str, rule: &MatchRule) -> (r: bool)
    ensures
        r == rule_accepts(title@, rule@),
{
    let t: Vec<char> = normalize_chars(title);
    for i in 0..rule.includes.len()
        invariant
            t@ == normalized(title@),
            forall|j: int| 0 <= j < i ==> holds(t@, #[trigger] rule@.includes[j]),
    {
        assert(rule@.includes[i as int] == rule.includes@[i as int]@);
        if !contains_chars(&t, &normalize_chars(rule.includes[i].as_str())) {
            return false;
        }
    }
    for i in 0..rule.excludes.len()
        invariant
            t@ == normalized(title@),
            forall|j: int| 0 <= j < i ==> !holds(t@, #[trigger] rule@.excludes[j]),
    {
        assert(rule@.excludes[i as int] == rule.excludes@[i as int]@);
        if contains_chars(&t, &normalize_chars(rule.excludes[i].as_str())) {
            return false;
        }
    }
    if let Some(value) = &rule.resolution {
        if !contains_chars(&t, &normalize_chars(value.as_str())) {
            return false;
        }
    }
    if let Some(value) = &rule.subtitle_group {
        if !contains_chars(&t, &normalize_chars(value.as_str())) {
            return false;
        }
    }
    true
}

/// The rule that asks for nothing.
pub open spec fn empty_rule() -> RuleView {
    RuleView {
        includes: Seq::empty(),
        excludes: Seq::empty(),
        resolution: None,
        subtitle_group: None,
    }
}

/// A rule that asks for nothing accepts every title.
pub proof fn law_empty_rule_accepts_all(title: Seq<char>)
    ensures
        rule_accepts(title, empty_rule()),
{
}

/// One more keyword to include accepts exactly the titles accepted so far that
/// hold it.
pub proof fn law_include_narrows(title: Seq<char>, rule: RuleView, keyword: Seq<char>)
    ensures
        rule_accepts(title, (RuleView { includes: rule.includes.push(keyword), ..rule })) <==> (
        rule_accepts(title, rule) && holds(normalized(title), keyword)),
{
    let more = RuleView { includes: rule.includes.push(keyword), ..rule };
    if rule_accepts(title, more) {
        assert(more.includes[rule.includes.len() as int] == keyword);
        assert forall|i: int| 0 <= i < rule.includes.len() implies holds(
            normalized(title),
            #[trigger] rule.includes[i],
        ) by {
            assert(more.includes[i] == rule.includes[i]);
        }
    }
}

/// One more keyword to exclude accepts exactly the titles accepted so far that do
/// not hold it.
pub proof fn law_exclude_narrows(title: Seq<char>, rule: RuleView, keyword: Seq<char>)
    ensures
        rule_accepts(title, (RuleView { excludes: rule.excludes.push(keyword), ..rule })) <==> (
        rule_accepts(title, rule) && !holds(normalized(title), keyword)),
{
    let more = RuleView { excludes: rule.excludes.push(keyword), ..rule };
    if rule_accepts(title, more) {
        assert(more.excludes[rule.excludes.len() as int] == keyword);
        assert forall|i: int| 0 <= i < rule.excludes.len() implies !holds(
            normalized(title),
            #[trigger] rule.excludes[i],
        ) by {
            assert(more.excludes[i] == rule.excludes[i]);
        }
    }
}

/// A title in two parts is normalized part by part.
pub proof fn law_parts_are_normalized_in_turn(a: Seq<char>, b: Seq<char>)
    ensures
        normalized(a + b) == normalized(a) + normalized(b),
    decreases b.len(),
{
    if b.len() == 0 {
        assert(a + b =~= a);
        assert(normalized(a) + normalized(b) =~= normalized(a));
    } else {
        assert((a + b).drop_last() =~= a + b.drop_last());
        law_parts_are_normalized_in_turn(a, b.drop_last());
        if is_alphanumeric(b.last()) {
            assert(normalized(a) + normalized(b.drop_last()) + lowercase(b.last()) =~= normalized(a)
                + (normalized(b.drop_last()) + lowercase(b.last())));
        }
    }
}

/// Normalizing leaves nothing of a title exactly where none of its characters is a letter or
/// a digit.
pub proof fn law_nothing_is_left_only_of_punctuation(title: Seq<char>)
    ensures
        normalized(title).len() == 0 <==> (forall|i: int|
            0 <= i < title.len() ==> !is_alphanumeric(#[trigger] title[i])),
    decreases title.len(),
{
    if title.len() > 0 {
        let rest = title.drop_last();
        law_nothing_is_left_only_of_punctuation(rest);
        assert(title[title.len() - 1] == title.last());
        if forall|i: int| 0 <= i < title.len() ==> !is_alphanumeric(#[trigger] title[i]) {
            assert forall|i: int| 0 <= i < rest.len() implies !is_alphanumeric(
                #[trigger] rest[i],
            ) by {
                assert(rest[i] == title[i]);
            }
        } else {
            let k = choose|k: int| 0 <= k < title.len() && is_alphanumeric(#[trigger] title[k]);
            if k < rest.len() {
                assert(rest[k] == title[k]);
            } else {
                assert(lowercase(title.last()).len() >= 1);
            }
        }
    }
}

/// Whether the lower-case form of a character is made of letters and digits that have no
/// other lower-case form.
pub open spec fn is_settled(c: char) -> bool {
    forall|k: int|
        0 <= k < lowercase(c).len() ==> is_alphanumeric(#[trigger] lowercase(c)[k]) && lowercase(
            lowercase(c)[k],
        ) == seq![lowercase(c)[k]]
}

/// The lower-case forms of the letters and digits of ASCII are settled.
pub proof fn lemma_ascii_is_settled(c: char)
    requires
        c as u32 <= 127,
        is_alphanumeric(c),
    ensures
        is_settled(c),
{
}

/// Letters and digits that have no other lower-case form are left as they are.
proof fn lemma_settled_text(text: Seq<char>)
    requires
        forall|i: int|
            0 <= i < text.len() ==> is_alphanumeric(#[trigger] text[i]) && lowercase(text[i])
                == seq![text[i]],
    ensures
        normalized(text) == text,
    decreases text.len(),
{
    if text.len() > 0 {
        let rest = text.drop_last();
        assert forall|i: int| 0 <= i < rest.len() implies is_alphanumeric(#[trigger] rest[i])
            && lowercase(rest[i]) == seq![rest[i]] by {
            assert(rest[i] == text[i]);
        }
        lemma_settled_text(rest);
        assert(text[text.len() - 1] == text.last());
        assert(rest + seq![text.last()] =~= text);
    }
}

/// Normalizing twice is normalizing once, and only letters and digits are left, where the
/// lower-case forms of the letters and digits of the title are settled.
pub proof fn law_normalizing_settles(title: Seq<char>)
    requires
        forall|i: int|
            0 <= i < title.len() && is_alphanumeric(#[trigger] title[i]) ==> is_settled(title[i]),
    ensures
        normalized(normalized(title)) == normalized(title),
        forall|i: int|
            0 <= i < normalized(title).len() ==> is_alphanumeric(#[trigger] normalized(title)[i]),
{
    lemma_settles(title);
    lemma_settled_text(normalized(title));
}

proof fn lemma_settles(title: Seq<char>)
    requires
        forall|i: int|
            0 <= i < title.len() && is_alphanumeric(#[trigger] title[i]) ==> is_settled(title[i]),
    ensures
        forall|i: int|
            0 <= i < normalized(title).len() ==> is_alphanumeric(#[trigger] normalized(title)[i])
                && lowercase(normalized(title)[i]) == seq![normalized(title)[i]],
    decreases title.len(),
{
    if title.len() > 0 {
        let rest = title.drop_last();
        assert forall|i: int|
            0 <= i < rest.len() && is_alphanumeric(#[trigger] rest[i]) implies is_settled(
            rest[i],
        ) by {
            assert(rest[i] == title[i]);
        }
        lemma_settles(rest);
        assert(title[title.len() - 1] == title.last());
        let before = normalized(rest);
        let all = normalized(title);
        assert forall|i: int| 0 <= i < all.len() implies is_alphanumeric(#[trigger] all[i])
            && lowercase(all[i]) == seq![all[i]] by {
            if i < before.len() {
                assert(all[i] == before[i]);
            } else {
                assert(all[i] == lowercase(title.last())[i - before.len()]);
            }
        }
    }
}

/// For titles in ASCII normalizing twice is normalizing once, and only letters and digits are
/// left.
pub proof fn law_normalizing_settles_ascii(title: Seq<char>)
    requires
        forall|i: int| 0 <= i < title.len() ==> (#[trigger] title[i]) as u32 <= 127,
    ensures
        normalized(normalized(title)) == normalized(title),
        forall|i: int|
            0 <= i < normalized(title).len() ==> is_alphanumeric(#[trigger] normalized(title)[i]),
{
    assert forall|i: int|
        0 <= i < title.len() && is_alphanumeric(#[trigger] title[i]) implies is_settled(
        title[i],
    ) by {
        lemma_ascii_is_settled(title[i]);
    }
    law_normalizing_settles(title);
}

/// Characters that are neither letters nor digits make no difference, wherever they
/// stand: brackets, dashes and blanks of a release name among them.
pub proof fn law_punctuation_is_ignored(a: Seq<char>, c: char, b: Seq<char>)
    requires
        !is_alphanumeric(c),
    ensures
        normalized(a.push(c) + b) == normalized(a + b),
{
    law_parts_are_normalized_in_turn(a.push(c), b);
    law_parts_are_normalized_in_turn(a, b);
    assert(a.push(c).drop_last() =~= a);
}

/// The upper-case form of an ASCII letter; any other character as it is.
pub open spec fn ascii_upper_char(c: char) -> char {
    if 'a' <= c && c <= 'z' {
        ((c as u32 - 32) as u8) as char
    } else {
        c
    }
}

/// The text with its ASCII letters in upper case.
pub open spec fn ascii_upper(s: Seq<char>) -> Seq<char> {
    s.map_values(|c: char| ascii_upper_char(c))
}

/// The case of ASCII letters makes no difference.
pub proof fn law_ascii_case_is_ignored(title: Seq<char>)
    ensures
        normalized(ascii_lower(title)) == normalized(title),
        normalized(ascii_upper(title)) == normalized(title),
    decreases title.len(),
{
    if title.len() > 0 {
        law_ascii_case_is_ignored(title.drop_last());
        assert(ascii_lower(title).drop_last() =~= ascii_lower(title.drop_last()));
        assert(ascii_lower(title).last() == ascii_lower_char(title.last()));
        assert(ascii_upper(title).drop_last() =~= ascii_upper(title.drop_last()));
        assert(ascii_upper(title).last() == ascii_upper_char(title.last()));
    } else {
        assert(ascii_lower(title) =~= title);
        assert(ascii_upper(title) =~= title);
    }
}

/// Rules see a title only in the form in which titles are compared.
pub proof fn law_rules_see_normalized_titles(a: Seq<char>, b: Seq<char>, rule: RuleView)
    requires
        normalized(a) == normalized(b),
    ensures
        rule_accepts(a, rule) == rule_accepts(b, rule),
{
}

} // verus!
