//! What holds of rules: which titles they accept, and how titles are compared.

use crate::matcher::{RuleView, holds, normalized, rule_accepts};
use crate::models::FeedRuleView;
use crate::text::{contains_text, occurs_at};
use vstd::prelude::*;

verus! {

/// A rule with a resolution accepts exactly the titles that hold it and that the same rule
/// accepts without one.
pub proof fn law_resolution_narrows(title: Seq<char>, rule: RuleView, value: Seq<char>)
    ensures
        rule_accepts(title, RuleView { resolution: Some(value), ..rule }) <==> rule_accepts(
            title,
            RuleView { resolution: None, ..rule },
        ) && contains_text(normalized(title), normalized(value)),
{
    let with = RuleView { resolution: Some(value), ..rule };
    let without = RuleView { resolution: None, ..rule };
    assert(holds(normalized(title), value) == contains_text(normalized(title), normalized(value)));
    assert(with.includes == without.includes && with.excludes == without.excludes);
    assert forall|i: int| rule_accepts(title, with) && 0 <= i < without.includes.len() implies holds(
        normalized(title),
        #[trigger] without.includes[i],
    ) by {
        assert(holds(normalized(title), with.includes[i]));
    }
}

/// A rule with a subtitle group accepts exactly the titles that hold it and that the same rule
/// accepts without one.
pub proof fn law_subtitle_group_narrows(title: Seq<char>, rule: RuleView, value: Seq<char>)
    ensures
        rule_accepts(title, RuleView { subtitle_group: Some(value), ..rule }) <==> rule_accepts(
            title,
            RuleView { subtitle_group: None, ..rule },
        ) && contains_text(normalized(title), normalized(value)),
{
    let with = RuleView { subtitle_group: Some(value), ..rule };
    let without = RuleView { subtitle_group: None, ..rule };
    assert(holds(normalized(title), value) == contains_text(normalized(title), normalized(value)));
    assert(with.includes == without.includes && with.excludes == without.excludes);
    assert forall|i: int| rule_accepts(title, with) && 0 <= i < without.includes.len() implies holds(
        normalized(title),
        #[trigger] without.includes[i],
    ) by {
        assert(holds(normalized(title), with.includes[i]));
    }
}

/// Every single thing that a rule asks for is asked for: a title that it accepts holds each
/// keyword to include, the resolution and the subtitle group, and no keyword to exclude; and a
/// title of which that is true is accepted.
pub proof fn law_rules_ask_for_everything(title: Seq<char>, rule: RuleView)
    ensures
        ({
            let t = normalized(title);
            let missing = |keyword: Seq<char>| !contains_text(t, normalized(keyword));
            let refused = {
                ||| exists|i: int| 0 <= i < rule.includes.len() && missing(#[trigger] rule.includes[i])
                ||| exists|i: int| 0 <= i < rule.excludes.len() && !missing(#[trigger] rule.excludes[i])
                ||| rule.resolution is Some && missing(rule.resolution->0)
                ||| rule.subtitle_group is Some && missing(rule.subtitle_group->0)
            };
            rule_accepts(title, rule) <==> !refused
        }),
{
    let t = normalized(title);
    let missing = |keyword: Seq<char>| !contains_text(t, normalized(keyword));
    if !rule_accepts(title, rule) {
        if exists|i: int| 0 <= i < rule.includes.len() && !holds(t, #[trigger] rule.includes[i]) {
            let i = choose|i: int|
                0 <= i < rule.includes.len() && !holds(t, #[trigger] rule.includes[i]);
            assert(missing(rule.includes[i]));
        }
        if exists|i: int| 0 <= i < rule.excludes.len() && holds(t, #[trigger] rule.excludes[i]) {
            let i = choose|i: int|
                0 <= i < rule.excludes.len() && holds(t, #[trigger] rule.excludes[i]);
            assert(!missing(rule.excludes[i]));
        }
    }
}

/// A title holds a keyword wherever it stands in it, and only where it stands in it. Case and
/// punctuation of both do not matter.
pub proof fn law_keywords_are_found_anywhere(before: Seq<char>, keyword: Seq<char>, after: Seq<char>)
    ensures
        holds(normalized(before + keyword + after), keyword),
        forall|t: Seq<char>| #[trigger]
            holds(t, keyword) <==> exists|a: Seq<char>, b: Seq<char>|
                t == #[trigger] (a + normalized(keyword) + b),
{
    crate::matcher::law_parts_are_normalized_in_turn(before + keyword, after);
    crate::matcher::law_parts_are_normalized_in_turn(before, keyword);
    let n = normalized(keyword);
    let whole = normalized(before) + n + normalized(after);
    let at = normalized(before).len() as int;
    assert(whole.subrange(at, at + n.len()) =~= n);
    assert(occurs_at(normalized(before + keyword + after), n, at));
    assert forall|t: Seq<char>| #[trigger]
        holds(t, keyword) <==> exists|a: Seq<char>, b: Seq<char>|
            t == #[trigger] (a + normalized(keyword) + b) by {
        if holds(t, keyword) {
            let i = choose|i: int| occurs_at(t, n, i);
            let a = t.take(i);
            let b = t.skip(i + n.len());
            assert(t =~= a + n + b);
        }
        if exists|a: Seq<char>, b: Seq<char>| t == #[trigger] (a + n + b) {
            let (a, b) = choose|a: Seq<char>, b: Seq<char>| t == #[trigger] (a + n + b);
            assert(t.subrange(a.len() as int, (a.len() + n.len()) as int) =~= n);
            assert(occurs_at(t, n, a.len() as int));
        }
    }
}

/// Of the characters of ASCII, digits and small letters count as they are, capital letters as
/// small ones, and all others not at all.
pub proof fn law_ascii_is_compared_by_letters_and_digits(c: char)
    requires
        c as u32 <= 127,
    ensures
        ({
            let n = normalized(seq![c]);
            &&& '0' <= c && c <= '9' || 'a' <= c && c <= 'z' ==> n == seq![c]
            &&& 'A' <= c && c <= 'Z' ==> n.len() == 1 && n[0] as u32 == c as u32 + 32
            &&& !('0' <= c && c <= '9' || 'a' <= c && c <= 'z' || 'A' <= c && c <= 'Z')
                ==> n.len() == 0
        }),
{
    assert(seq![c].drop_last() =~= Seq::<char>::empty());
    assert(seq![c].last() == c);
    assert(normalized(Seq::<char>::empty()) =~= Seq::<char>::empty());
    assert(normalized(seq![c]) =~= if crate::matcher::is_alphanumeric(c) {
        crate::matcher::lowercase(c)
    } else {
        Seq::empty()
    });
}

/// The rule of a feed is held against titles with all that it asks for.
pub proof fn law_feed_rules_are_held_whole(rule: FeedRuleView)
    ensures
        rule.matching().includes == rule.includes,
        rule.matching().excludes == rule.excludes,
        rule.matching().resolution == rule.resolution,
        rule.matching().subtitle_group == rule.subtitle_group,
{
}

} // verus!
