//! What holds of the depth of a feed: which elements count, and how deep they are nested.

use crate::markup::{
    BANG, DASH, Place, QUESTION, channel_name, close_comment, close_data, close_instruction,
    closed_by, declaration_end, depth_from, doctype_end, extension_depth, is_blank, markup_end,
    name_end, outer, part_of, place_of, stands_in, tag_end, tag_name,
};
use vstd::prelude::*;

verus! {

/// What an element holds: elements, empty elements, text, and comments or data, in a row.
pub enum Content {
    Nothing,
    Element {
        name: Seq<u8>,
        value: Option<Seq<u8>>,
        inner: Box<Content>,
        next: Box<Content>,
    },
    Empty { name: Seq<u8>, value: Option<Seq<u8>>, next: Box<Content> },
    Text { bytes: Seq<u8>, next: Box<Content> },
    Aside { data: bool, bytes: Seq<u8>, next: Box<Content> },
}

/// Whether a byte can stand in the name of an element: a letter, a digit, a colon, a dash, a dot
/// or an underscore.
pub open spec fn is_name_byte(c: u8) -> bool {
    (97 <= c <= 122) || (65 <= c <= 90) || (48 <= c <= 58) || c == 45 || c == 46 || c == 95
}

/// Whether bytes can stand as the name of an element.
pub open spec fn is_name(name: Seq<u8>) -> bool {
    name.len() > 0 && forall|i: int| 0 <= i < name.len() ==> is_name_byte(#[trigger] name[i])
}

/// An attribute of a tag, with its value in quotation marks.
pub open spec fn attribute(value: Option<Seq<u8>>) -> Seq<u8> {
    match value {
        None => Seq::empty(),
        Some(v) => seq![32u8, 97u8, 61u8, 34u8] + v + seq![34u8],
    }
}

/// The tag that opens an element, or stands for an empty one.
pub open spec fn tag(name: Seq<u8>, value: Option<Seq<u8>>, empty: bool) -> Seq<u8> {
    seq![60u8] + name + attribute(value) + if empty {
        seq![47u8, 62u8]
    } else {
        seq![62u8]
    }
}

/// The tag that closes an element.
pub open spec fn closing(name: Seq<u8>) -> Seq<u8> {
    seq![60u8, 47u8] + name + seq![62u8]
}

/// What begins a comment or data.
pub open spec fn aside_start(data: bool) -> Seq<u8> {
    if data {
        seq![60u8, 33u8, 91u8, 67u8, 68u8, 65u8, 84u8, 65u8, 91u8]
    } else {
        seq![60u8, 33u8, 45u8, 45u8]
    }
}

/// What ends a comment or data.
pub open spec fn aside_end(data: bool) -> Seq<u8> {
    if data {
        seq![93u8, 93u8, 62u8]
    } else {
        seq![45u8, 45u8, 62u8]
    }
}

/// Content as it is written.
pub open spec fn written(c: Content) -> Seq<u8>
    decreases c,
{
    match c {
        Content::Nothing => Seq::empty(),
        Content::Element { name, value, inner, next } => tag(name, value, false) + written(*inner)
            + closing(name) + written(*next),
        Content::Empty { name, value, next } => tag(name, value, true) + written(*next),
        Content::Text { bytes, next } => bytes + written(*next),
        Content::Aside { data, bytes, next } => aside_start(data) + bytes + aside_end(data)
            + written(*next),
    }
}

/// Whether a value can stand in quotation marks.
pub open spec fn is_value(value: Option<Seq<u8>>) -> bool {
    value matches Some(v) ==> !v.contains(34)
}

/// Whether content can be written: names are names, values hold no quotation marks, text holds no
/// `<`, comments hold no dash and data no bracket.
pub open spec fn can_be_written(c: Content) -> bool
    decreases c,
{
    match c {
        Content::Nothing => true,
        Content::Element { name, value, inner, next } => is_name(name) && is_value(value)
            && can_be_written(*inner) && can_be_written(*next),
        Content::Empty { name, value, next } => is_name(name) && is_value(value) && can_be_written(
            *next,
        ),
        Content::Text { bytes, next } => !bytes.contains(60) && can_be_written(*next),
        Content::Aside { data, bytes, next } => !bytes.contains(
            if data {
                93
            } else {
                45
            },
        ) && can_be_written(*next),
    }
}

/// The greater of two heights.
pub open spec fn higher(a: nat, b: nat) -> nat {
    if a > b {
        a
    } else {
        b
    }
}

/// How many elements of content stand inside one another at most.
pub open spec fn height(c: Content) -> nat
    decreases c,
{
    match c {
        Content::Nothing => 0,
        Content::Element { inner, next, .. } => higher(1 + height(*inner), height(*next)),
        Content::Empty { next, .. } => higher(1, height(*next)),
        Content::Text { next, .. } => height(*next),
        Content::Aside { next, .. } => height(*next),
    }
}

/// Whether a name is that of an item.
pub open spec fn names_item(name: Seq<u8>) -> bool {
    name =~= seq![105u8, 116u8, 101u8, 109u8]
}

/// Whether an element in a channel, or in an item of it, is an extension: its name has a colon
/// that is not its first byte, and it is not the encoded content of an item.
pub open spec fn is_extension(name: Seq<u8>, in_item: bool) -> bool {
    name.contains(58) && name[0] != 58 && !(in_item && name =~= seq![
        99u8,
        111u8,
        110u8,
        116u8,
        101u8,
        110u8,
        116u8,
        58u8,
        101u8,
        110u8,
        99u8,
        111u8,
        100u8,
        101u8,
        100u8,
    ])
}

/// How deep the extensions of a channel, or of an item of it, are nested: the height of the
/// highest of them.
pub open spec fn extension_height(c: Content, in_item: bool) -> nat
    decreases c,
{
    match c {
        Content::Nothing => 0,
        Content::Element { name, inner, next, .. } => higher(
            if !in_item && names_item(name) {
                extension_height(*inner, true)
            } else if is_extension(name, in_item) {
                1 + height(*inner)
            } else {
                0
            },
            extension_height(*next, in_item),
        ),
        Content::Empty { name, next, .. } => higher(
            if is_extension(name, in_item) {
                1
            } else {
                0
            },
            extension_height(*next, in_item),
        ),
        Content::Text { next, .. } => extension_height(*next, in_item),
        Content::Aside { next, .. } => extension_height(*next, in_item),
    }
}

/// The name `channel`.
pub open spec fn channel() -> Seq<u8> {
    seq![99u8, 104u8, 97u8, 110u8, 110u8, 101u8, 108u8]
}

/// A feed: its outermost element, the channel in it, and whatever comes behind them.
pub open spec fn feed(outermost: Seq<u8>, content: Content, behind: Seq<u8>) -> Seq<u8> {
    tag(outermost, None, false) + tag(channel(), None, false) + written(content) + closing(
        channel(),
    ) + closing(outermost) + behind
}

proof fn lemma_unquoted(b: Seq<u8>, from: int, to: int)
    requires
        0 <= from <= to <= b.len(),
        forall|i: int| from <= i < to ==> #[trigger] b[i] != 62 && b[i] != 34 && b[i] != 39,
    ensures
        tag_end(b, from, 0) == tag_end(b, to, 0),
    decreases to - from,
{
    if from < to {
        lemma_unquoted(b, from + 1, to);
    }
}

proof fn lemma_quoted(b: Seq<u8>, from: int, to: int)
    requires
        0 <= from <= to < b.len(),
        b[to] == 34,
        forall|i: int| from <= i < to ==> #[trigger] b[i] != 34,
    ensures
        tag_end(b, from, 34) == tag_end(b, to + 1, 0),
    decreases to - from,
{
    if from < to {
        lemma_quoted(b, from + 1, to);
    }
}

proof fn lemma_name_end(b: Seq<u8>, from: int, name: int, to: int)
    requires
        0 <= from <= name <= to < b.len(),
        forall|i: int| from <= i < name ==> is_name_byte(#[trigger] b[i]),
        name == to || b[name] == 32,
    ensures
        name_end(b, from, to) == name,
    decreases name - from,
{
    if from < name {
        assert(is_name_byte(b[from]));
        lemma_name_end(b, from + 1, name, to);
    }
}

proof fn lemma_tag(a: Seq<u8>, name: Seq<u8>, value: Option<Seq<u8>>, empty: bool, rest: Seq<u8>)
    requires
        is_name(name),
        is_value(value),
    ensures
        ({
            let b = a + tag(name, value, empty) + rest;
            let from = a.len() as int;
            let end = from + tag(name, value, empty).len() as int - 1;
            &&& from < end < b.len()
            &&& b[from] == 60
            &&& is_name_byte(b[from + 1])
            &&& (b[end - 1] == 47) == empty
            &&& markup_end(b, from) == Some(end)
            &&& tag_name(b, from, end) == name
        }),
{
    let t = tag(name, value, empty);
    let b = a + t + rest;
    let from = a.len() as int;
    let end = from + t.len() as int - 1;
    let n = name.len() as int;
    let last = if empty {
        end - 1
    } else {
        end
    };
    assert forall|i: int| from + 1 <= i < from + 1 + n implies is_name_byte(#[trigger] b[i]) by {
        assert(b[i] == name[i - from - 1]);
    }
    assert(is_name_byte(b[from + 1]));
    assert(b[end] == 62);
    lemma_unquoted(b, from + 1, from + 1 + n);
    match value {
        None => {
            assert(last == from + 1 + n);
            if empty {
                assert(b[last] == 47);
            } else {
                assert(is_name_byte(b[end - 1]));
            }
        },
        Some(v) => {
            let at = from + 1 + n;
            let m = v.len() as int;
            assert(b[at] == 32 && b[at + 1] == 97 && b[at + 2] == 61 && b[at + 3] == 34);
            lemma_unquoted(b, at, at + 3);
            assert forall|i: int| at + 4 <= i < at + 4 + m implies #[trigger] b[i] != 34 by {
                assert(b[i] == v[i - at - 4]);
                assert(v.contains(v[i - at - 4]));
            }
            assert(b[at + 4 + m] == 34);
            lemma_quoted(b, at + 4, at + 4 + m);
            assert(last == at + 5 + m);
            if empty {
                assert(b[last] == 47);
            }
        },
    }
    if empty {
        lemma_unquoted(b, last, end);
    }
    lemma_name_end(b, from + 1, from + 1 + n, last);
    assert(b.subrange(from + 1, from + 1 + n) =~= name);
}

proof fn lemma_closing(a: Seq<u8>, name: Seq<u8>, rest: Seq<u8>)
    requires
        is_name(name),
    ensures
        ({
            let b = a + closing(name) + rest;
            let from = a.len() as int;
            let end = from + closing(name).len() as int - 1;
            &&& from < end < b.len()
            &&& b[from] == 60
            &&& b[from + 1] == 47
            &&& markup_end(b, from) == Some(end)
        }),
{
    let b = a + closing(name) + rest;
    let from = a.len() as int;
    let end = from + closing(name).len() as int - 1;
    assert forall|i: int| from + 1 <= i < end implies #[trigger] b[i] != 62 && b[i] != 34 && b[i]
        != 39 by {
        if i > from + 1 {
            assert(b[i] == name[i - from - 2]);
            assert(is_name_byte(name[i - from - 2]));
        }
    }
    assert(b[end] == 62);
    lemma_unquoted(b, from + 1, end);
}

proof fn lemma_first_place(b: Seq<u8>, part: Seq<u8>, from: int, to: int)
    requires
        part.len() > 0,
        0 <= from <= to,
        stands_in(b, part, to),
        forall|i: int| from <= i < to ==> #[trigger] b[i] != part[0],
    ensures
        place_of(b, part, from) == Some(to),
    decreases to - from,
{
    if from < to {
        assert(!stands_in(b, part, from)) by {
            if stands_in(b, part, from) {
                assert(b.subrange(from, from + part.len())[0] == b[from]);
            }
        }
        lemma_first_place(b, part, from + 1, to);
    }
}

proof fn lemma_aside(a: Seq<u8>, data: bool, bytes: Seq<u8>, rest: Seq<u8>)
    requires
        !bytes.contains(
            if data {
                93
            } else {
                45
            },
        ),
    ensures
        ({
            let aside = aside_start(data) + bytes + aside_end(data);
            let b = a + aside + rest;
            let from = a.len() as int;
            let end = from + aside.len() as int - 1;
            &&& from < end < b.len()
            &&& b[from] == 60
            &&& b[from + 1] == 33
            &&& markup_end(b, from) == Some(end)
        }),
{
    let aside = aside_start(data) + bytes + aside_end(data);
    let b = a + aside + rest;
    let from = a.len() as int;
    let end = from + aside.len() as int - 1;
    let start = aside_start(data).len() as int;
    let to = from + start + bytes.len() as int;
    assert(b.subrange(to, to + 3) =~= aside_end(data));
    assert(aside_end(true) =~= close_data());
    assert(aside_end(false) =~= close_comment());
    let mark: u8 = if data {
        93
    } else {
        45
    };
    let begin = if data {
        from + 2
    } else {
        from + 4
    };
    assert forall|i: int| begin <= i < to implies #[trigger] b[i] != mark by {
        if i < from + start {
            assert(b[i] == aside_start(data)[i - from]);
        } else {
            assert(b[i] == bytes[i - from - start]);
            assert(bytes.contains(bytes[i - from - start]));
        }
    }
    lemma_first_place(b, aside_end(data), begin, to);
    assert(b[from] == aside_start(data)[0]);
    assert(b[from + 1] == aside_start(data)[1]);
    assert(b[from + 2] == aside_start(data)[2]);
}

/// The depth of a feed from a place on.
#[verifier::opaque]
spec fn depth_at(b: Seq<u8>, from: int, place: Place, open: nat, inside: bool) -> nat {
    depth_from(b, from, place, open, inside)
}

proof fn lemma_behind(b: Seq<u8>, from: int)
    ensures
        depth_at(b, from, Place::Behind, 0, false) == 0,
{
    reveal(depth_at);
}

proof fn lemma_text(b: Seq<u8>, from: int, to: int, place: Place, open: nat, inside: bool)
    requires
        0 <= from <= to <= b.len(),
        forall|i: int| from <= i < to ==> #[trigger] b[i] != 60,
    ensures
        depth_at(b, from, place, open, inside) == depth_at(b, to, place, open, inside),
    decreases to - from,
{
    reveal(depth_at);
    if from < to {
        lemma_text(b, from + 1, to, place, open, inside);
    }
}

proof fn lemma_outside(b: Seq<u8>, from: int, place: Place)
    ensures
        depth_at(b, from, place, 0, true) == depth_at(b, from, place, 0, false),
    decreases b.len() - from,
{
    reveal(depth_at);
    if 0 <= from < b.len() {
        lemma_outside(b, from + 1, place);
        if let Some(end) = markup_end(b, from) {
            if from < end < b.len() {
                lemma_outside(b, end + 1, place);
            }
        }
    }
}

proof fn lemma_joined(a: Seq<u8>, t: Seq<u8>, n: Seq<u8>, z: Seq<u8>)
    ensures
        a + (t + n) + z == a + t + (n + z),
        a + (t + n) + z == (a + t) + n + z,
        a + (t + n) == (a + t) + n,
{
    assert(a + (t + n) + z =~= a + t + (n + z));
    assert(a + (t + n) + z =~= (a + t) + n + z);
    assert(a + (t + n) =~= (a + t) + n);
}

proof fn lemma_joined_around(
    a: Seq<u8>,
    t: Seq<u8>,
    i: Seq<u8>,
    e: Seq<u8>,
    n: Seq<u8>,
    z: Seq<u8>,
)
    ensures
        a + (t + i + e + n) + z == a + t + (i + e + n + z),
        a + (t + i + e + n) + z == (a + t) + i + (e + n + z),
        a + (t + i + e + n) + z == (a + t + i) + e + (n + z),
        a + (t + i + e + n) + z == (a + t + i + e) + n + z,
        a + (t + i + e + n) == (a + t + i + e) + n,
{
    assert(a + (t + i + e + n) + z =~= a + t + (i + e + n + z));
    assert(a + (t + i + e + n) + z =~= (a + t) + i + (e + n + z));
    assert(a + (t + i + e + n) + z =~= (a + t + i) + e + (n + z));
    assert(a + (t + i + e + n) + z =~= (a + t + i + e) + n + z);
    assert(a + (t + i + e + n) =~= (a + t + i + e) + n);
}

proof fn lemma_step_text(
    a: Seq<u8>,
    bytes: Seq<u8>,
    rest: Seq<u8>,
    place: Place,
    open: nat,
    inside: bool,
)
    requires
        !bytes.contains(60),
    ensures
        depth_at(a + bytes + rest, a.len() as int, place, open, inside) == depth_at(
            a + bytes + rest,
            (a + bytes).len() as int,
            place,
            open,
            inside,
        ),
{
    let b = a + bytes + rest;
    let to = (a + bytes).len() as int;
    assert forall|i: int| a.len() <= i < to implies #[trigger] b[i] != 60 by {
        assert(b[i] == bytes[i - a.len()]);
        assert(bytes.contains(bytes[i - a.len()]));
    }
    lemma_text(b, a.len() as int, to, place, open, inside);
}

proof fn lemma_step_aside(
    a: Seq<u8>,
    data: bool,
    bytes: Seq<u8>,
    rest: Seq<u8>,
    place: Place,
    open: nat,
    inside: bool,
)
    requires
        !bytes.contains(
            if data {
                93
            } else {
                45
            },
        ),
        place != Place::Behind,
    ensures
        ({
            let aside = aside_start(data) + bytes + aside_end(data);
            depth_at(a + aside + rest, a.len() as int, place, open, inside) == depth_at(
                a + aside + rest,
                (a + aside).len() as int,
                place,
                open,
                inside,
            )
        }),
{
    reveal(depth_at);
    lemma_aside(a, data, bytes, rest);
}

proof fn lemma_step_closing(
    a: Seq<u8>,
    name: Seq<u8>,
    rest: Seq<u8>,
    place: Place,
    open: nat,
    inside: bool,
)
    requires
        is_name(name),
        place != Place::Behind,
    ensures
        ({
            let b = a + closing(name) + rest;
            let to = (a + closing(name)).len() as int;
            depth_at(b, a.len() as int, place, open, inside) == if open > 0 {
                depth_at(b, to, place, (open - 1) as nat, inside)
            } else {
                depth_at(b, to, outer(place), 0, false)
            }
        }),
{
    reveal(depth_at);
    lemma_closing(a, name, rest);
}

proof fn lemma_step_tag(
    a: Seq<u8>,
    name: Seq<u8>,
    value: Option<Seq<u8>>,
    empty: bool,
    rest: Seq<u8>,
    place: Place,
    open: nat,
    inside: bool,
)
    requires
        is_name(name),
        is_value(value),
        open > 0,
        place != Place::Behind,
    ensures
        ({
            let b = a + tag(name, value, empty) + rest;
            let to = (a + tag(name, value, empty)).len() as int;
            let more: nat = if empty {
                open
            } else {
                open + 1
            };
            depth_at(b, a.len() as int, place, open, inside) == higher(
                if inside {
                    open + 1
                } else {
                    0
                },
                depth_at(b, to, place, more, inside),
            )
        }),
{
    reveal(depth_at);
    lemma_tag(a, name, value, empty, rest);
}

proof fn lemma_step_channel_tag(
    a: Seq<u8>,
    name: Seq<u8>,
    value: Option<Seq<u8>>,
    empty: bool,
    rest: Seq<u8>,
    in_item: bool,
)
    requires
        is_name(name),
        is_value(value),
    ensures
        ({
            let b = a + tag(name, value, empty) + rest;
            let to = (a + tag(name, value, empty)).len() as int;
            let more: nat = if empty {
                0
            } else {
                1
            };
            depth_at(b, a.len() as int, place_in(in_item), 0, false) == if !in_item && names_item(
                name,
            ) {
                depth_at(b, to, place_in(!empty), 0, false)
            } else if is_extension(name, in_item) {
                higher(1, depth_at(b, to, place_in(in_item), more, true))
            } else {
                depth_at(b, to, place_in(in_item), more, false)
            }
        }),
{
    reveal(depth_at);
    lemma_tag(a, name, value, empty, rest);
    lemma_plain(name);
}

proof fn lemma_inside(
    a: Seq<u8>,
    c: Content,
    z: Seq<u8>,
    place: Place,
    open: nat,
    inside: bool,
)
    requires
        can_be_written(c),
        open > 0,
        place != Place::Behind,
    ensures
        depth_at(a + written(c) + z, a.len() as int, place, open, inside) == higher(
            if inside && height(c) > 0 {
                open + height(c)
            } else {
                0
            },
            depth_at(
                a + written(c) + z,
                (a + written(c)).len() as int,
                place,
                open,
                inside,
            ),
        ),
    decreases c,
{
    match c {
        Content::Nothing => {
            assert(a + written(c) =~= a);
        },
        Content::Element { name, value, inner, next } => {
            let t = tag(name, value, false);
            let i = written(*inner);
            let e = closing(name);
            let n = written(*next);
            lemma_joined_around(a, t, i, e, n, z);
            lemma_step_tag(a, name, value, false, i + e + n + z, place, open, inside);
            lemma_inside(a + t, *inner, e + n + z, place, open + 1, inside);
            lemma_step_closing(a + t + i, name, n + z, place, open + 1, inside);
            lemma_inside(a + t + i + e, *next, z, place, open, inside);
        },
        Content::Empty { name, value, next } => {
            let t = tag(name, value, true);
            let n = written(*next);
            lemma_joined(a, t, n, z);
            lemma_step_tag(a, name, value, true, n + z, place, open, inside);
            lemma_inside(a + t, *next, z, place, open, inside);
        },
        Content::Text { bytes, next } => {
            let n = written(*next);
            lemma_joined(a, bytes, n, z);
            lemma_step_text(a, bytes, n + z, place, open, inside);
            lemma_inside(a + bytes, *next, z, place, open, inside);
        },
        Content::Aside { data, bytes, next } => {
            let aside = aside_start(data) + bytes + aside_end(data);
            let n = written(*next);
            lemma_joined(a, aside, n, z);
            lemma_step_aside(a, data, bytes, n + z, place, open, inside);
            lemma_inside(a + aside, *next, z, place, open, inside);
        },
    }
}

proof fn lemma_plain(name: Seq<u8>)
    requires
        is_name(name),
    ensures
        !name.contains(0),
        !name.contains(27),
{
    if name.contains(0) {
        let i = choose|i: int| 0 <= i < name.len() && name[i] == 0;
        assert(is_name_byte(name[i]));
    }
    if name.contains(27) {
        let i = choose|i: int| 0 <= i < name.len() && name[i] == 27;
        assert(is_name_byte(name[i]));
    }
}

/// The place in a feed of what a channel holds, or an item of it.
spec fn place_in(in_item: bool) -> Place {
    if in_item {
        Place::ChannelItem
    } else {
        Place::Channel
    }
}

proof fn lemma_channel(a: Seq<u8>, c: Content, z: Seq<u8>, in_item: bool)
    requires
        can_be_written(c),
    ensures
        depth_at(a + written(c) + z, a.len() as int, place_in(in_item), 0, false) == higher(
            extension_height(c, in_item),
            depth_at(
                a + written(c) + z,
                (a + written(c)).len() as int,
                place_in(in_item),
                0,
                false,
            ),
        ),
    decreases c,
{
    let b = a + written(c) + z;
    let place = place_in(in_item);
    match c {
        Content::Nothing => {
            assert(a + written(c) =~= a);
        },
        Content::Element { name, value, inner, next } => {
            let t = tag(name, value, false);
            let i = written(*inner);
            let e = closing(name);
            let n = written(*next);
            lemma_joined_around(a, t, i, e, n, z);
            lemma_step_channel_tag(a, name, value, false, i + e + n + z, in_item);
            lemma_channel(a + t + i + e, *next, z, in_item);
            lemma_outside(b, (a + t + i + e).len() as int, place);
            if !in_item && names_item(name) {
                lemma_channel(a + t, *inner, e + n + z, true);
                lemma_step_closing(a + t + i, name, n + z, Place::ChannelItem, 0, false);
            } else {
                let counts = is_extension(name, in_item);
                lemma_inside(a + t, *inner, e + n + z, place, 1, counts);
                lemma_step_closing(a + t + i, name, n + z, place, 1, counts);
            }
        },
        Content::Empty { name, value, next } => {
            let t = tag(name, value, true);
            let n = written(*next);
            lemma_joined(a, t, n, z);
            lemma_step_channel_tag(a, name, value, true, n + z, in_item);
            lemma_channel(a + t, *next, z, in_item);
            lemma_outside(b, (a + t).len() as int, place);
            if names_item(name) {
                assert(!name.contains(58));
            }
        },
        Content::Text { bytes, next } => {
            let n = written(*next);
            lemma_joined(a, bytes, n, z);
            lemma_step_text(a, bytes, n + z, place, 0, false);
            lemma_channel(a + bytes, *next, z, in_item);
        },
        Content::Aside { data, bytes, next } => {
            let aside = aside_start(data) + bytes + aside_end(data);
            let n = written(*next);
            lemma_joined(a, aside, n, z);
            lemma_step_aside(a, data, bytes, n + z, place, 0, false);
            lemma_channel(a + aside, *next, z, in_item);
        },
    }
}

proof fn lemma_joined_feed(
    a: Seq<u8>,
    f: Seq<u8>,
    s: Seq<u8>,
    w: Seq<u8>,
    c: Seq<u8>,
    e: Seq<u8>,
    z: Seq<u8>,
)
    ensures
        a + (f + s + w + c + e + z) == a + f + (s + w + c + e + z),
        a + (f + s + w + c + e + z) == (a + f) + s + (w + c + e + z),
        a + (f + s + w + c + e + z) == (a + f + s) + w + (c + e + z),
        a + (f + s + w + c + e + z) == (a + f + s + w) + c + (e + z),
        a + (f + s + w + c + e + z) == (a + f + s + w + c) + e + z,
{
    let b = a + (f + s + w + c + e + z);
    assert(b =~= a + f + (s + w + c + e + z));
    assert(b =~= (a + f) + s + (w + c + e + z));
    assert(b =~= (a + f + s) + w + (c + e + z));
    assert(b =~= (a + f + s + w) + c + (e + z));
    assert(b =~= (a + f + s + w + c) + e + z);
}

proof fn lemma_step_outermost(a: Seq<u8>, name: Seq<u8>, rest: Seq<u8>)
    requires
        is_name(name),
    ensures
        ({
            let b = a + tag(name, None, false) + rest;
            let to = (a + tag(name, None, false)).len() as int;
            &&& depth_at(b, a.len() as int, Place::Before, 0, false) == depth_at(
                b,
                to,
                Place::Outermost,
                0,
                false,
            )
            &&& name == channel() ==> depth_at(b, a.len() as int, Place::Outermost, 0, false)
                == depth_at(b, to, Place::Channel, 0, false)
        }),
{
    reveal(depth_at);
    lemma_tag(a, name, None, false, rest);
    assert(channel() =~= channel_name());
}

proof fn lemma_feed(a: Seq<u8>, outermost: Seq<u8>, content: Content, behind: Seq<u8>)
    requires
        is_name(outermost),
        can_be_written(content),
    ensures
        depth_at(
            a + feed(outermost, content, behind),
            a.len() as int,
            Place::Before,
            0,
            false,
        ) == extension_height(content, false),
{
    let f = tag(outermost, None, false);
    let s = tag(channel(), None, false);
    let w = written(content);
    let c = closing(channel());
    let e = closing(outermost);
    assert(is_name(channel()));
    lemma_joined_feed(a, f, s, w, c, e, behind);
    lemma_step_outermost(a, outermost, s + w + c + e + behind);
    lemma_step_outermost(a + f, channel(), w + c + e + behind);
    lemma_channel(a + f + s, content, c + e + behind, false);
    lemma_step_closing(a + f + s + w, channel(), e + behind, Place::Channel, 0, false);
    lemma_step_closing(a + f + s + w + c, outermost, behind, Place::Outermost, 0, false);
    lemma_behind(a + feed(outermost, content, behind), (a + f + s + w + c + e).len() as int);
}

/// As deep as the extensions of a channel and of its items are nested, so deep is the feed that is
/// written with them. Extensions are the elements with a prefix, but for the encoded content of an
/// item; everything inside one counts. Other elements count for nothing, however deep they are
/// nested, nor do text, attributes, comments and data, nor what comes behind the outermost element.
pub proof fn law_feeds_are_as_deep_as_their_extensions(
    outermost: Seq<u8>,
    content: Content,
    behind: Seq<u8>,
)
    requires
        is_name(outermost),
        can_be_written(content),
    ensures
        extension_depth(feed(outermost, content, behind)) == extension_height(content, false),
{
    reveal(depth_at);
    let none = Seq::<u8>::empty();
    lemma_feed(none, outermost, content, behind);
    assert(none + feed(outermost, content, behind) =~= feed(outermost, content, behind));
}

/// An instruction: what stands between `<?` and `?>`.
pub open spec fn instruction(bytes: Seq<u8>) -> Seq<u8> {
    seq![60u8, 63u8] + bytes + seq![63u8, 62u8]
}

/// A document type: what stands between `<!D` and `>`.
pub open spec fn document_type(bytes: Seq<u8>) -> Seq<u8> {
    seq![60u8, 33u8, 68u8] + bytes + seq![62u8]
}

/// An instruction before a feed does not change its depth, nor does a document type without
/// declarations of its own.
pub proof fn law_what_precedes_a_feed_does_not_count(
    bytes: Seq<u8>,
    outermost: Seq<u8>,
    content: Content,
    behind: Seq<u8>,
)
    requires
        is_name(outermost),
        can_be_written(content),
    ensures
        !bytes.contains(62) && !bytes.contains(63) ==> extension_depth(
            instruction(bytes) + feed(outermost, content, behind),
        ) == extension_height(content, false),
        !bytes.contains(62) && !bytes.contains(91) && !bytes.contains(34) && !bytes.contains(39)
            ==> extension_depth(document_type(bytes) + feed(outermost, content, behind))
            == extension_height(content, false),
{
    reveal(depth_at);
    let rest = feed(outermost, content, behind);
    if !bytes.contains(62) && !bytes.contains(63) {
        let a = instruction(bytes);
        let b = a + rest;
        let to = 2 + bytes.len() as int;
        assert(b.subrange(to, to + 2) =~= close_instruction());
        assert forall|i: int| 1 <= i < to implies !stands_in(b, close_instruction(), i) by {
            if stands_in(b, close_instruction(), i) {
                assert(b.subrange(i, i + 2)[1] == b[i + 1]);
                if i + 1 < to {
                    assert(b[i + 1] == bytes[i - 1]);
                    assert(bytes.contains(bytes[i - 1]));
                } else {
                    assert(b[i + 1] == 63);
                }
            }
        }
        lemma_only_place(b, close_instruction(), 1, to);
        lemma_feed(a, outermost, content, behind);
    }
    if !bytes.contains(62) && !bytes.contains(91) && !bytes.contains(34) && !bytes.contains(39) {
        let a = document_type(bytes);
        let b = a + rest;
        let to = 3 + bytes.len() as int;
        assert(b[to] == 62);
        assert forall|i: int| 2 <= i < to implies #[trigger] b[i] != 62 && b[i] != 91 && b[i] != 34
            && b[i] != 39 by {
            if i > 2 {
                assert(b[i] == bytes[i - 3]);
                assert(bytes.contains(bytes[i - 3]));
            }
        }
        lemma_type_end(b, 2, to);
        lemma_feed(a, outermost, content, behind);
    }
}

proof fn lemma_only_place(b: Seq<u8>, part: Seq<u8>, from: int, to: int)
    requires
        0 <= from <= to,
        stands_in(b, part, to),
        forall|i: int| from <= i < to ==> !#[trigger] stands_in(b, part, i),
    ensures
        place_of(b, part, from) == Some(to),
    decreases to - from,
{
    if from < to {
        lemma_only_place(b, part, from + 1, to);
    }
}

proof fn lemma_type_end(b: Seq<u8>, from: int, to: int)
    requires
        0 <= from <= to < b.len(),
        b[to] == 62,
        forall|i: int|
            from <= i < to ==> #[trigger] b[i] != 62 && b[i] != 91 && b[i] != 34 && b[i] != 39,
    ensures
        doctype_end(b, from, 0) == Some(to),
    decreases to - from,
{
    if from < to {
        lemma_type_end(b, from + 1, to);
    }
}

/// The name of an element ends at a space, a tab, a line feed or a carriage return.
pub proof fn law_names_end_at_blanks(c: u8)
    ensures
        is_blank(c) <==> c == 32 || c == 9 || c == 10 || c == 13,
{
}

/// A declaration of an entity, an attribute list or a notation ends at the first `>` outside
/// quotation marks, a comment and an instruction where they are closed, and any other declaration
/// at the first `>`.
pub proof fn law_declarations_end_where_they_are_closed(b: Seq<u8>, i: int)
    requires
        0 <= i < b.len(),
    ensures
        stands_in(b, seq![60u8, 33u8, 69u8, 78u8, 84u8, 73u8, 84u8, 89u8], i) ==> declaration_end(
            b,
            i,
        ) == tag_end(b, i + 1, 0),
        stands_in(
            b,
            seq![60u8, 33u8, 65u8, 84u8, 84u8, 76u8, 73u8, 83u8, 84u8],
            i,
        ) ==> declaration_end(b, i) == tag_end(b, i + 1, 0),
        stands_in(
            b,
            seq![60u8, 33u8, 78u8, 79u8, 84u8, 65u8, 84u8, 73u8, 79u8, 78u8],
            i,
        ) ==> declaration_end(b, i) == tag_end(b, i + 1, 0),
        stands_in(b, seq![60u8, 33u8, 45u8, 45u8], i) ==> declaration_end(b, i) == closed_by(
            b,
            seq![45u8, 45u8, 62u8],
            i + 4,
        ),
        stands_in(b, seq![60u8, 63u8], i) ==> declaration_end(b, i) == closed_by(
            b,
            seq![63u8, 62u8],
            i + 2,
        ),
{
    lemma_behind_angle(b, seq![33u8, 69u8, 78u8, 84u8, 73u8, 84u8, 89u8], i);
    lemma_behind_angle(b, seq![33u8, 65u8, 84u8, 84u8, 76u8, 73u8, 83u8, 84u8], i);
    lemma_behind_angle(b, seq![33u8, 78u8, 79u8, 84u8, 65u8, 84u8, 73u8, 79u8, 78u8], i);
    lemma_behind_angle(b, seq![33u8, 45u8, 45u8], i);
    lemma_behind_angle(b, seq![63u8], i);
    assert(seq![60u8] + seq![33u8, 69u8, 78u8, 84u8, 73u8, 84u8, 89u8] =~= seq![
        60u8,
        33u8,
        69u8,
        78u8,
        84u8,
        73u8,
        84u8,
        89u8,
    ]);
    assert(seq![60u8] + seq![33u8, 65u8, 84u8, 84u8, 76u8, 73u8, 83u8, 84u8] =~= seq![
        60u8,
        33u8,
        65u8,
        84u8,
        84u8,
        76u8,
        73u8,
        83u8,
        84u8,
    ]);
    assert(seq![60u8] + seq![33u8, 78u8, 79u8, 84u8, 65u8, 84u8, 73u8, 79u8, 78u8] =~= seq![
        60u8,
        33u8,
        78u8,
        79u8,
        84u8,
        65u8,
        84u8,
        73u8,
        79u8,
        78u8,
    ]);
    assert(seq![60u8] + seq![33u8, 45u8, 45u8] =~= seq![60u8, 33u8, 45u8, 45u8]);
    assert(seq![60u8] + seq![63u8] =~= seq![60u8, 63u8]);
    assert(close_comment() =~= seq![45u8, 45u8, 62u8]);
    assert(close_instruction() =~= seq![63u8, 62u8]);
    assert(stands_in(b, seq![QUESTION], i + 1) ==> b.subrange(i + 1, i + 2)[0] == b[i + 1]);
    assert(stands_in(b, seq![BANG, DASH, DASH], i + 1) ==> b.subrange(i + 1, i + 4)[1] == b[i + 2]);
}

proof fn lemma_behind_angle(b: Seq<u8>, part: Seq<u8>, i: int)
    requires
        0 <= i < b.len(),
    ensures
        stands_in(b, seq![60u8] + part, i) ==> stands_in(b, part, i + 1) && (part.len() > 0
            ==> b[i + 1] == part[0]) && (part.len() > 1 ==> b[i + 2] == part[1]),
{
    let whole = seq![60u8] + part;
    if stands_in(b, whole, i) {
        let there = b.subrange(i, i + whole.len());
        assert forall|k: int| 0 <= k < part.len() implies b[i + 1 + k] == #[trigger] part[k] by {
            assert(there[k + 1] == whole[k + 1]);
        }
        assert(b.subrange(i + 1, i + 1 + part.len()) =~= part);
    }
}

/// An element whose name holds a zero or an escape counts as an extension wherever one can stand,
/// for in some encodings such bytes stand for letters.
pub proof fn law_unreadable_names_count(name: Seq<u8>)
    requires
        name.contains(0) || name.contains(27),
    ensures
        part_of(Place::Outermost, name) is Extension,
        part_of(Place::Channel, name) is Extension,
        part_of(Place::ChannelItem, name) is Extension,
        part_of(Place::Item, name) is Extension,
{
    let mark: u8 = if name.contains(0) {
        0
    } else {
        27
    };
    let i = choose|i: int| 0 <= i < name.len() && name[i] == mark;
    assert(name[i] == mark);
    assert(name != crate::markup::item_name() && name != channel_name());
    assert(name != crate::markup::content_name());
}

} // verus!
