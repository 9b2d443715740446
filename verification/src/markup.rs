//! How deep the extensions of a feed are nested, read from its bytes: where markup begins and
//! ends, which of it opens or closes an element, and which elements are extensions.

use vstd::prelude::*;
use vstd::slice::slice_subrange;

verus! {

/// `<`
pub const LESS: u8 = 60;

/// `>`
pub const GREATER: u8 = 62;

/// `!`
pub const BANG: u8 = 33;

/// `?`
pub const QUESTION: u8 = 63;

/// `/`
pub const SLASH: u8 = 47;

/// `[`
pub const BRACKET: u8 = 91;

/// `]`
pub const UNBRACKET: u8 = 93;

/// `:`
pub const COLON: u8 = 58;

/// `-`
pub const DASH: u8 = 45;

/// `D`
pub const UPPER_D: u8 = 68;

/// `d`
pub const LOWER_D: u8 = 100;

/// `"`
pub const DOUBLE_QUOTE: u8 = 34;

/// `'`
pub const SINGLE_QUOTE: u8 = 39;

/// Whether bytes stand in a document from a place on.
pub open spec fn stands_in(b: Seq<u8>, part: Seq<u8>, i: int) -> bool {
    0 <= i && i + part.len() <= b.len() && b.subrange(i, i + part.len()) == part
}

/// The first place at or after `from` at which bytes stand in a document.
pub open spec fn place_of(b: Seq<u8>, part: Seq<u8>, from: int) -> Option<int>
    decreases b.len() - from + 1,
{
    if from < 0 || from + part.len() > b.len() {
        None
    } else if stands_in(b, part, from) {
        Some(from)
    } else {
        place_of(b, part, from + 1)
    }
}

/// Where a tag ends: at the first `>` that stands in no quotation marks. `quote` is the mark
/// that is open, or zero.
pub open spec fn tag_end(b: Seq<u8>, from: int, quote: u8) -> Option<int>
    decreases b.len() - from,
{
    if from < 0 || from >= b.len() {
        None
    } else if quote != 0 {
        tag_end(
            b,
            from + 1,
            if b[from] == quote {
                0
            } else {
                quote
            },
        )
    } else if b[from] == GREATER {
        Some(from)
    } else {
        tag_end(
            b,
            from + 1,
            if b[from] == DOUBLE_QUOTE || b[from] == SINGLE_QUOTE {
                b[from]
            } else {
                0
            },
        )
    }
}

/// Where markup of a kind ends: at the last byte of the bytes that close it.
pub open spec fn closed_by(b: Seq<u8>, closing: Seq<u8>, from: int) -> Option<int> {
    match place_of(b, closing, from) {
        Some(k) => Some(k + closing.len() - 1),
        None => None,
    }
}

/// The bytes `>`.
pub open spec fn close_angle() -> Seq<u8> {
    seq![GREATER]
}

/// The bytes `?>`.
pub open spec fn close_instruction() -> Seq<u8> {
    seq![QUESTION, GREATER]
}

/// The bytes `-->`.
pub open spec fn close_comment() -> Seq<u8> {
    seq![DASH, DASH, GREATER]
}

/// The bytes `]]>`.
pub open spec fn close_data() -> Seq<u8> {
    seq![UNBRACKET, UNBRACKET, GREATER]
}

/// Whether a declaration can hold quotation marks: one that begins with `!ENTITY`, `!ATTLIST`
/// or `!NOTATION`.
pub open spec fn holds_quotes(b: Seq<u8>, i: int) -> bool {
    ||| stands_in(b, seq![33, 69, 78, 84, 73, 84, 89], i)
    ||| stands_in(b, seq![33, 65, 84, 84, 76, 73, 83, 84], i)
    ||| stands_in(b, seq![33, 78, 79, 84, 65, 84, 73, 79, 78], i)
}

/// Where a declaration of a document type ends whose `<` stands at a place.
pub open spec fn declaration_end(b: Seq<u8>, i: int) -> Option<int> {
    if stands_in(b, seq![QUESTION], i + 1) {
        closed_by(b, close_instruction(), i + 2)
    } else if stands_in(b, seq![BANG, DASH, DASH], i + 1) {
        closed_by(b, close_comment(), i + 4)
    } else if holds_quotes(b, i + 1) {
        tag_end(b, i + 1, 0)
    } else {
        closed_by(b, close_angle(), i + 1)
    }
}

/// Where a document type ends, from a place inside its brackets on.
pub open spec fn subset_end(b: Seq<u8>, from: int) -> Option<int>
    decreases b.len() - from,
{
    if from < 0 || from >= b.len() {
        None
    } else if b[from] == UNBRACKET {
        closed_by(b, close_angle(), from + 1)
    } else if b[from] == LESS {
        match declaration_end(b, from) {
            Some(end) if from < end < b.len() => subset_end(b, end + 1),
            _ => None,
        }
    } else {
        subset_end(b, from + 1)
    }
}

/// Where a document type ends, from a place before its brackets on. `quote` is the quotation
/// mark that is open, or zero.
pub open spec fn doctype_end(b: Seq<u8>, from: int, quote: u8) -> Option<int>
    decreases b.len() - from,
{
    if from < 0 || from >= b.len() {
        None
    } else if quote != 0 {
        doctype_end(
            b,
            from + 1,
            if b[from] == quote {
                0
            } else {
                quote
            },
        )
    } else if b[from] == GREATER {
        Some(from)
    } else if b[from] == BRACKET {
        subset_end(b, from + 1)
    } else {
        doctype_end(
            b,
            from + 1,
            if b[from] == DOUBLE_QUOTE || b[from] == SINGLE_QUOTE {
                b[from]
            } else {
                0
            },
        )
    }
}

/// Where the markup ends whose `<` stands at a place: a comment, data, a document type, an
/// instruction or a tag. Nothing where it does not end.
pub open spec fn markup_end(b: Seq<u8>, i: int) -> Option<int> {
    if i + 1 >= b.len() {
        None
    } else if b[i + 1] == BANG {
        if i + 2 >= b.len() {
            None
        } else if b[i + 2] == BRACKET {
            closed_by(b, close_data(), i + 2)
        } else if b[i + 2] == DASH {
            closed_by(b, close_comment(), i + 4)
        } else if b[i + 2] == UPPER_D || b[i + 2] == LOWER_D {
            doctype_end(b, i + 2, 0)
        } else {
            None
        }
    } else if b[i + 1] == QUESTION {
        closed_by(b, close_instruction(), i + 1)
    } else {
        tag_end(b, i + 1, 0)
    }
}

/// Whether a byte separates the name of a tag from what follows it.
pub open spec fn is_blank(c: u8) -> bool {
    c == 32 || c == 9 || c == 10 || c == 13
}

/// Where a name ends that begins at a place: at the next blank, or at `to`.
pub open spec fn name_end(b: Seq<u8>, from: int, to: int) -> int
    decreases to - from,
{
    if from >= to || is_blank(b[from]) {
        from
    } else {
        name_end(b, from + 1, to)
    }
}

/// The name of the element that a tag opens, from its `<` to its `>`.
pub open spec fn tag_name(b: Seq<u8>, i: int, end: int) -> Seq<u8> {
    let to = if b[end - 1] == SLASH {
        end - 1
    } else {
        end
    };
    b.subrange(i + 1, name_end(b, i + 1, to))
}

/// The bytes `channel`.
pub open spec fn channel_name() -> Seq<u8> {
    seq![99, 104, 97, 110, 110, 101, 108]
}

/// The bytes `item`.
pub open spec fn item_name() -> Seq<u8> {
    seq![105, 116, 101, 109]
}

/// The bytes `content:encoded`.
pub open spec fn content_name() -> Seq<u8> {
    seq![99, 111, 110, 116, 101, 110, 116, 58, 101, 110, 99, 111, 100, 101, 100]
}

/// Whether a name has a prefix: a colon that is not its first byte.
pub open spec fn is_prefixed(name: Seq<u8>) -> bool {
    name.contains(COLON) && name[0] != COLON
}

/// Whether a name can be told by its bytes in every encoding: only with a zero or an escape
/// among them other bytes can stand for the letters of ASCII.
pub open spec fn is_plain(name: Seq<u8>) -> bool {
    !name.contains(0) && !name.contains(27)
}

/// Where in a feed a tag stands: before the outermost element, directly in it, in a channel,
/// in an item of the outermost element or of a channel, or behind the outermost element.
#[derive(Debug, Clone, Copy, PartialEq, Eq, Structural)]
pub enum Place {
    Before,
    Outermost,
    Channel,
    Item,
    ChannelItem,
    Behind,
}

/// What an element of a feed is: a part of its structure, an extension, or one whose inner
/// elements are passed over.
#[derive(Debug, Clone, Copy, PartialEq, Eq, Structural)]
pub enum Part {
    Structure(Place),
    Extension,
    Passed,
}

/// What an element is by its place and its name. Extensions are the elements of channels and
/// items with a prefix, but for the content of an item. One that cannot be told by its bytes
/// counts as an extension.
pub open spec fn part_of(place: Place, name: Seq<u8>) -> Part {
    match place {
        Place::Before => Part::Structure(Place::Outermost),
        Place::Outermost => if name == channel_name() {
            Part::Structure(Place::Channel)
        } else if name == item_name() {
            Part::Structure(Place::Item)
        } else if is_plain(name) {
            Part::Passed
        } else {
            Part::Extension
        },
        Place::Channel => if name == item_name() {
            Part::Structure(Place::ChannelItem)
        } else if is_plain(name) && !is_prefixed(name) {
            Part::Passed
        } else {
            Part::Extension
        },
        _ => if name == content_name() || is_plain(name) && !is_prefixed(name) {
            Part::Passed
        } else {
            Part::Extension
        },
    }
}

/// Where a feed goes on behind the tag that closes a part of its structure.
pub open spec fn outer(place: Place) -> Place {
    match place {
        Place::Before => Place::Before,
        Place::ChannelItem => Place::Channel,
        Place::Channel => Place::Outermost,
        Place::Item => Place::Outermost,
        _ => Place::Behind,
    }
}

/// At most how many elements are open at a time inside an extension, from a position on.
/// `open` elements are open inside the structure of the feed; `inside` says whether the
/// outermost of them is an extension.
pub open spec fn depth_from(b: Seq<u8>, from: int, place: Place, open: nat, inside: bool) -> nat
    decreases b.len() - from,
{
    if from < 0 || from >= b.len() || place == Place::Behind {
        0
    } else if b[from] != LESS {
        depth_from(b, from + 1, place, open, inside)
    } else {
        match markup_end(b, from) {
            Some(end) if from < end < b.len() => if b[from + 1] == BANG || b[from + 1] == QUESTION {
                depth_from(b, end + 1, place, open, inside)
            } else if b[from + 1] == SLASH {
                if open > 0 {
                    depth_from(b, end + 1, place, (open - 1) as nat, inside)
                } else {
                    depth_from(b, end + 1, outer(place), 0, false)
                }
            } else {
                let empty = b[end - 1] == SLASH;
                let more: nat = if empty {
                    open
                } else {
                    open + 1
                };
                if open > 0 {
                    greater(
                        if inside {
                            open + 1
                        } else {
                            0
                        },
                        depth_from(b, end + 1, place, more, inside),
                    )
                } else {
                    match part_of(place, tag_name(b, from, end)) {
                        Part::Structure(inner) => depth_from(
                            b,
                            end + 1,
                            if empty {
                                outer(inner)
                            } else {
                                inner
                            },
                            0,
                            false,
                        ),
                        Part::Extension => greater(1, depth_from(b, end + 1, place, more, true)),
                        Part::Passed => depth_from(b, end + 1, place, more, false),
                    }
                }
            },
            _ => 0,
        }
    }
}

/// The greater of two numbers.
pub open spec fn greater(a: nat, b: nat) -> nat {
    if a > b {
        a
    } else {
        b
    }
}

/// How deep the extensions of a feed are nested: at most how many elements are open at a time
/// from an extension on, that one among them. Elements of every other kind count for nothing,
/// however deep they are nested. Markup that does not end ends the feed.
pub open spec fn extension_depth(b: Seq<u8>) -> nat {
    depth_from(b, 0, Place::Before, 0, false)
}

/// Whether bytes stand in a document at a place.
fn is_in(b: &[u8], part: &[u8], i: usize) -> (r: bool)
    ensures
        r == stands_in(b@, part@, i as int),
{
    if part.len() > b.len() || i > b.len() - part.len() {
        return false;
    }
    for j in 0..part.len()
        invariant
            i + part.len() <= b.len(),
            forall|k: int| 0 <= k < j ==> b@[i + k] == part@[k],
    {
        if b[i + j] != part[j] {
            assert(b@.subrange(i as int, i + part@.len())[j as int] != part@[j as int]);
            return false;
        }
    }
    assert(b@.subrange(i as int, i + part@.len()) =~= part@);
    true
}

/// Where markup ends that the given bytes close.
fn find_closing(b: &[u8], closing: &[u8], from: usize) -> (end: Option<usize>)
    requires
        closing@.len() > 0,
    ensures
        match end {
            Some(k) => closed_by(b@, closing@, from as int) == Some(k as int) && from <= k
                < b@.len(),
            None => closed_by(b@, closing@, from as int) is None,
        },
{
    let n: usize = b.len();
    if closing.len() > n || from > n - closing.len() {
        return None;
    }
    let mut i: usize = from;
    let last: usize = n - closing.len();
    while i <= last
        invariant
            from <= i,
            n == b@.len(),
            last + closing@.len() == n,
            closing@.len() > 0,
            place_of(b@, closing@, i as int) == place_of(b@, closing@, from as int),
        decreases last + 1 - i,
    {
        if is_in(b, closing, i) {
            return Some(i + (closing.len() - 1));
        }
        if i == last {
            assert(place_of(b@, closing@, i + 1) is None);
            return None;
        }
        i = i + 1;
    }
    None
}

/// Where a tag ends.
fn find_tag_end(b: &[u8], from: usize) -> (end: Option<usize>)
    ensures
        match end {
            Some(k) => tag_end(b@, from as int, 0) == Some(k as int) && from <= k < b@.len(),
            None => tag_end(b@, from as int, 0) is None,
        },
{
    let mut quote: u8 = 0;
    let mut i: usize = from;
    while i < b.len()
        invariant
            from <= i,
            tag_end(b@, i as int, quote) == tag_end(b@, from as int, 0),
        decreases b@.len() - i,
    {
        let c: u8 = b[i];
        if quote != 0 {
            if c == quote {
                quote = 0;
            }
        } else if c == GREATER {
            return Some(i);
        } else if c == DOUBLE_QUOTE || c == SINGLE_QUOTE {
            quote = c;
        }
        i = i + 1;
    }
    None
}

/// Whether a declaration can hold quotation marks.
fn can_hold_quotes(b: &[u8], i: usize) -> (r: bool)
    ensures
        r == holds_quotes(b@, i as int),
{
    let entity: [u8; 7] = [33, 69, 78, 84, 73, 84, 89];
    let attributes: [u8; 8] = [33, 65, 84, 84, 76, 73, 83, 84];
    let notation: [u8; 9] = [33, 78, 79, 84, 65, 84, 73, 79, 78];
    assert(entity@ =~= seq![33, 69, 78, 84, 73, 84, 89]);
    assert(attributes@ =~= seq![33, 65, 84, 84, 76, 73, 83, 84]);
    assert(notation@ =~= seq![33, 78, 79, 84, 65, 84, 73, 79, 78]);
    is_in(b, &entity, i) || is_in(b, &attributes, i) || is_in(b, &notation, i)
}

/// Where a declaration of a document type ends.
fn find_declaration_end(b: &[u8], i: usize) -> (end: Option<usize>)
    requires
        i < b@.len(),
    ensures
        match end {
            Some(k) => declaration_end(b@, i as int) == Some(k as int) && i < k < b@.len(),
            None => declaration_end(b@, i as int) is None,
        },
{
    if b.len() - i == 1 {
        return None;
    }
    let mark: [u8; 1] = [QUESTION];
    let dashes: [u8; 3] = [BANG, DASH, DASH];
    let instruction: [u8; 2] = [QUESTION, GREATER];
    let comment: [u8; 3] = [DASH, DASH, GREATER];
    let angle: [u8; 1] = [GREATER];
    assert(mark@ =~= seq![QUESTION]);
    assert(dashes@ =~= seq![BANG, DASH, DASH]);
    assert(instruction@ =~= close_instruction());
    assert(comment@ =~= close_comment());
    assert(angle@ =~= close_angle());
    if is_in(b, &mark, i + 1) {
        find_closing(b, &instruction, i + 2)
    } else if is_in(b, &dashes, i + 1) {
        find_closing(b, &comment, i + 4)
    } else if can_hold_quotes(b, i + 1) {
        find_tag_end(b, i + 1)
    } else {
        find_closing(b, &angle, i + 1)
    }
}

/// Where a document type ends, from a place inside its brackets on.
fn find_subset_end(b: &[u8], from: usize) -> (end: Option<usize>)
    ensures
        match end {
            Some(k) => subset_end(b@, from as int) == Some(k as int) && from <= k < b@.len(),
            None => subset_end(b@, from as int) is None,
        },
{
    let mut i: usize = from;
    while i < b.len()
        invariant
            from <= i,
            subset_end(b@, i as int) == subset_end(b@, from as int),
        decreases b@.len() - i,
    {
        let c: u8 = b[i];
        if c == UNBRACKET {
            let angle: [u8; 1] = [GREATER];
            assert(angle@ =~= close_angle());
            return find_closing(b, &angle, i + 1);
        } else if c == LESS {
            match find_declaration_end(b, i) {
                Some(end) => {
                    i = end + 1;
                },
                None => {
                    return None;
                },
            }
        } else {
            i = i + 1;
        }
    }
    None
}

/// Where a document type ends.
fn find_doctype_end(b: &[u8], from: usize) -> (end: Option<usize>)
    ensures
        match end {
            Some(k) => doctype_end(b@, from as int, 0) == Some(k as int) && from <= k < b@.len(),
            None => doctype_end(b@, from as int, 0) is None,
        },
{
    let mut quote: u8 = 0;
    let mut i: usize = from;
    while i < b.len()
        invariant
            from <= i,
            doctype_end(b@, i as int, quote) == doctype_end(b@, from as int, 0),
        decreases b@.len() - i,
    {
        let c: u8 = b[i];
        if quote != 0 {
            if c == quote {
                quote = 0;
            }
        } else if c == GREATER {
            return Some(i);
        } else if c == BRACKET {
            return find_subset_end(b, i + 1);
        } else if c == DOUBLE_QUOTE || c == SINGLE_QUOTE {
            quote = c;
        }
        i = i + 1;
    }
    None
}

/// Where the markup ends whose `<` stands at a place.
fn find_markup_end(b: &[u8], i: usize) -> (end: Option<usize>)
    requires
        i < b@.len(),
    ensures
        match end {
            Some(k) => markup_end(b@, i as int) == Some(k as int) && i < k < b@.len(),
            None => markup_end(b@, i as int) is None,
        },
{
    let n: usize = b.len();
    if i + 1 >= n {
        return None;
    }
    if b[i + 1] == BANG {
        if i + 2 >= n {
            return None;
        }
        let kind: u8 = b[i + 2];
        if kind == BRACKET {
            let data: [u8; 3] = [UNBRACKET, UNBRACKET, GREATER];
            assert(data@ =~= close_data());
            find_closing(b, &data, i + 2)
        } else if kind == DASH {
            if i + 3 >= n {
                return None;
            }
            let comment: [u8; 3] = [DASH, DASH, GREATER];
            assert(comment@ =~= close_comment());
            find_closing(b, &comment, i + 4)
        } else if kind == UPPER_D || kind == LOWER_D {
            find_doctype_end(b, i + 2)
        } else {
            None
        }
    } else if b[i + 1] == QUESTION {
        let instruction: [u8; 2] = [QUESTION, GREATER];
        assert(instruction@ =~= close_instruction());
        find_closing(b, &instruction, i + 1)
    } else {
        find_tag_end(b, i + 1)
    }
}

/// Where a name ends.
fn find_name_end(b: &[u8], from: usize, to: usize) -> (end: usize)
    requires
        from <= to <= b@.len(),
    ensures
        end == name_end(b@, from as int, to as int),
        from <= end <= to,
{
    let mut end: usize = from;
    while end < to && b[end] != 32 && b[end] != 9 && b[end] != 10 && b[end] != 13
        invariant
            from <= end <= to <= b@.len(),
            name_end(b@, from as int, to as int) == name_end(b@, end as int, to as int),
        decreases to - end,
    {
        end = end + 1;
    }
    end
}

/// Whether bytes are the same.
fn same_bytes(a: &[u8], b: &[u8]) -> (r: bool)
    ensures
        r == (a@ == b@),
{
    let r = a.len() == b.len() && is_in(a, b, 0);
    proof {
        if a@.len() == b@.len() {
            assert(a@.subrange(0, b@.len() as int) =~= a@);
        }
    }
    r
}

/// Whether a byte stands among others.
fn has_byte(bytes: &[u8], c: u8) -> (r: bool)
    ensures
        r == bytes@.contains(c),
{
    for i in 0..bytes.len()
        invariant
            forall|j: int| 0 <= j < i ==> bytes@[j] != c,
    {
        if bytes[i] == c {
            assert(bytes@[i as int] == c);
            return true;
        }
    }
    false
}

/// What an element is by its place and its name.
fn find_part(place: Place, name: &[u8]) -> (part: Part)
    ensures
        part == part_of(place, name@),
{
    let channel: [u8; 7] = [99, 104, 97, 110, 110, 101, 108];
    let item: [u8; 4] = [105, 116, 101, 109];
    let content: [u8; 15] = [
        99,
        111,
        110,
        116,
        101,
        110,
        116,
        58,
        101,
        110,
        99,
        111,
        100,
        101,
        100,
    ];
    assert(channel@ =~= channel_name());
    assert(item@ =~= item_name());
    assert(content@ =~= content_name());
    let plain: bool = !has_byte(name, 0) && !has_byte(name, 27);
    let prefixed: bool = has_byte(name, COLON) && name[0] != COLON;
    match place {
        Place::Before => Part::Structure(Place::Outermost),
        Place::Outermost => if same_bytes(name, &channel) {
            Part::Structure(Place::Channel)
        } else if same_bytes(name, &item) {
            Part::Structure(Place::Item)
        } else if plain {
            Part::Passed
        } else {
            Part::Extension
        },
        Place::Channel => if same_bytes(name, &item) {
            Part::Structure(Place::ChannelItem)
        } else if plain && !prefixed {
            Part::Passed
        } else {
            Part::Extension
        },
        _ => if same_bytes(name, &content) || plain && !prefixed {
            Part::Passed
        } else {
            Part::Extension
        },
    }
}

/// Where a feed goes on behind the tag that closes a part of its structure.
fn find_outer(place: Place) -> (r: Place)
    ensures
        r == outer(place),
{
    match place {
        Place::Before => Place::Before,
        Place::ChannelItem => Place::Channel,
        Place::Channel => Place::Outermost,
        Place::Item => Place::Outermost,
        _ => Place::Behind,
    }
}

/// How deep the extensions of a feed are nested.
pub fn extension_nesting(b: &[u8]) -> (deepest: usize)
    ensures
        deepest == extension_depth(b@),
{
    let mut deepest: usize = 0;
    let mut place: Place = Place::Before;
    let mut open: usize = 0;
    let mut inside: bool = false;
    let mut i: usize = 0;
    while i < b.len() && place != Place::Behind
        invariant
            open <= i,
            extension_depth(b@) == greater(
                deepest as nat,
                depth_from(b@, i as int, place, open as nat, inside),
            ),
        decreases b@.len() - i,
    {
        if b[i] != LESS {
            i = i + 1;
        } else {
            let end: usize = match find_markup_end(b, i) {
                Some(end) => end,
                None => {
                    return deepest;
                },
            };
            let kind: u8 = b[i + 1];
            if kind == BANG || kind == QUESTION {
            } else if kind == SLASH {
                if open > 0 {
                    open = open - 1;
                } else {
                    place = find_outer(place);
                    inside = false;
                }
            } else {
                let empty: bool = b[end - 1] == SLASH;
                let reached: usize = open + 1;
                if open > 0 {
                    if inside && reached > deepest {
                        deepest = reached;
                    }
                    if !empty {
                        open = reached;
                    }
                } else {
                    let to: usize = if empty {
                        end - 1
                    } else {
                        end
                    };
                    let stop: usize = find_name_end(b, i + 1, to);
                    let name: &[u8] = slice_subrange(b, i + 1, stop);
                    assert(name@ == tag_name(b@, i as int, end as int));
                    match find_part(place, name) {
                        Part::Structure(inner) => {
                            place = if empty {
                                find_outer(inner)
                            } else {
                                inner
                            };
                            inside = false;
                        },
                        Part::Extension => {
                            if deepest == 0 {
                                deepest = 1;
                            }
                            inside = true;
                            if !empty {
                                open = 1;
                            }
                        },
                        Part::Passed => {
                            inside = false;
                            if !empty {
                                open = 1;
                            }
                        },
                    }
                }
            }
            i = end + 1;
        }
    }
    deepest
}

} // verus!
