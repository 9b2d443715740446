//! Text as a sequence of characters: comparing, searching, trimming, splitting
//! and decimal numbers.

use vstd::prelude::*;
use vstd::slice::slice_subrange;

verus! {

/// The characters of every string of a list.
pub open spec fn texts(list: Seq<String>) -> Seq<Seq<char>> {
    list.map_values(|s: String| s@)
}

/// The characters of an optional string.
pub open spec fn opt_text(value: Option<String>) -> Option<Seq<char>> {
    match value {
        Some(s) => Some(s@),
        None => None,
    }
}

/// The characters of an optional string slice.
pub open spec fn opt_str(value: Option<&str>) -> Option<Seq<char>> {
    match value {
        Some(s) => Some(s@),
        None => None,
    }
}

/// `String::push` appends one character.
pub assume_specification[ String::push ](s: &mut String, c: char)
    ensures
        final(s)@ == old(s)@.push(c),
;

/// The characters of a string.
pub fn chars_of(s: &str) -> (chars: Vec<char>)
    ensures
        chars@ == s@,
{
    let mut chars: Vec<char> = Vec::new();
    for c in it: s.chars()
        invariant
            chars@ == it.seq().take(it.index() as int),
            it.seq() == s@,
    {
        chars.push(c);
    }
    chars
}

/// The string made of the given characters.
pub fn string_of(chars: &[char]) -> (s: String)
    ensures
        s@ == chars@,
{
    let mut s = String::new();
    for i in 0..chars.len()
        invariant
            s@ == chars@.take(i as int),
    {
        s.push(chars[i]);
        assert(chars@.take(i + 1) =~= chars@.take(i as int).push(chars@[i as int]));
    }
    assert(chars@.take(chars@.len() as int) =~= chars@);
    s
}

/// Appends a text to a string.
pub fn append(s: &mut String, part: &str)
    ensures
        final(s)@ == old(s)@ + part@,
{
    let ghost before = s@;
    for c in it: part.chars()
        invariant
            s@ == before + it.seq().take(it.index() as int),
            it.seq() == part@,
    {
        s.push(c);
        assert(it.seq().take(it.index() + 1) =~= it.seq().take(it.index() as int).push(c));
    }
    assert(part@.take(part@.len() as int) =~= part@);
}

/// Texts put together with a separator between each two.
pub open spec fn joined(parts: Seq<Seq<char>>, sep: Seq<char>) -> Seq<char>
    decreases parts.len(),
{
    if parts.len() == 0 {
        Seq::empty()
    } else if parts.len() == 1 {
        parts[0]
    } else {
        joined(parts.drop_last(), sep) + sep + parts.last()
    }
}

/// Strings put together with a separator between each two.
pub fn join(parts: &Vec<String>, sep: &str) -> (s: String)
    ensures
        s@ == joined(texts(parts@), sep@),
{
    let ghost all = texts(parts@);
    let mut s = String::new();
    assert(all.take(0) =~= Seq::<Seq<char>>::empty());
    for i in 0..parts.len()
        invariant
            all == texts(parts@),
            s@ == joined(all.take(i as int), sep@),
    {
        assert(all.take(i + 1).drop_last() =~= all.take(i as int));
        assert(all.take(i + 1).last() == parts@[i as int]@);
        if i > 0 {
            append(&mut s, sep);
        }
        append(&mut s, parts[i].as_str());
        assert(s@ =~= joined(all.take(i + 1), sep@));
    }
    assert(all.take(parts@.len() as int) =~= all);
    s
}

/// Whether two slices of characters are equal.
pub fn same_chars(a: &[char], b: &[char]) -> (r: bool)
    ensures
        r == (a@ == b@),
{
    if a.len() != b.len() {
        return false;
    }
    for i in 0..a.len()
        invariant
            a@.len() == b@.len(),
            forall|j: int| 0 <= j < i ==> a@[j] == b@[j],
    {
        if a[i] != b[i] {
            return false;
        }
    }
    assert(a@ =~= b@);
    true
}

/// Whether two strings hold the same characters.
pub fn same(a: &str, b: &str) -> (r: bool)
    ensures
        r == (a@ == b@),
{
    let x: &[u8] = a.as_bytes();
    let y: &[u8] = b.as_bytes();
    proof {
        vstd::utf8::encode_utf8_decode_utf8(a@);
        vstd::utf8::encode_utf8_decode_utf8(b@);
    }
    if x.len() != y.len() {
        return false;
    }
    for i in 0..x.len()
        invariant
            x@ == vstd::utf8::encode_utf8(a@),
            y@ == vstd::utf8::encode_utf8(b@),
            x@.len() == y@.len(),
            forall|j: int| 0 <= j < i ==> x@[j] == y@[j],
    {
        if x[i] != y[i] {
            return false;
        }
    }
    assert(x@ =~= y@);
    true
}

/// Whether an optional string holds exactly `b`.
pub fn same_opt(a: Option<&str>, b: &str) -> (r: bool)
    ensures
        r == (opt_str(a) == Some(b@)),
{
    match a {
        Some(a) => same(a, b),
        None => false,
    }
}

/// A copy of an optional string.
pub fn copy_opt(value: &Option<String>) -> (copy: Option<String>)
    ensures
        copy == *value,
{
    match value {
        Some(s) => Some(s.clone()),
        None => None,
    }
}

/// A copy of a list of strings.
pub fn copy_texts(list: &Vec<String>) -> (copy: Vec<String>)
    ensures
        copy@ == list@,
{
    let mut copy: Vec<String> = Vec::new();
    for i in 0..list.len()
        invariant
            copy@ == list@.take(i as int),
    {
        copy.push(list[i].clone());
        assert(list@.take(i + 1) =~= list@.take(i as int).push(list@[i as int]));
    }
    assert(list@.take(list@.len() as int) =~= list@);
    copy
}

/// Whether a list of strings holds `value`.
pub fn list_has(list: &Vec<String>, value: &str) -> (r: bool)
    ensures
        r == texts(list@).contains(value@),
{
    for i in 0..list.len()
        invariant
            forall|j: int| 0 <= j < i ==> list@[j]@ != value@,
    {
        if same(list[i].as_str(), value) {
            assert(texts(list@)[i as int] == value@);
            return true;
        }
    }
    assert(!texts(list@).contains(value@)) by {
        if texts(list@).contains(value@) {
            let j = choose|j: int| 0 <= j < texts(list@).len() && texts(list@)[j] == value@;
            assert(list@[j]@ == value@);
        }
    }
    false
}

/// Whether the characters `part` stand in `s` from position `i` on.
pub open spec fn occurs_at(s: Seq<char>, part: Seq<char>, i: int) -> bool {
    0 <= i && i + part.len() <= s.len() && s.subrange(i, i + part.len()) == part
}

/// Whether `part` stands anywhere in `s`.
pub open spec fn contains_text(s: Seq<char>, part: Seq<char>) -> bool {
    exists|i: int| occurs_at(s, part, i)
}

/// The first position at or after `from` at which `part` stands in `s`.
pub open spec fn find_from(s: Seq<char>, part: Seq<char>, from: int) -> Option<int>
    decreases s.len() - from + 1,
{
    if from < 0 || from + part.len() > s.len() {
        None
    } else if occurs_at(s, part, from) {
        Some(from)
    } else {
        find_from(s, part, from + 1)
    }
}

/// `find_from` gives the first occurrence, and fails only where there is none.
pub proof fn lemma_find_from(s: Seq<char>, part: Seq<char>, from: int)
    requires
        0 <= from,
    ensures
        find_from(s, part, from) matches Some(k) ==> from <= k && occurs_at(s, part, k) && (forall|
            j: int,
        |
            from <= j < k ==> !occurs_at(s, part, j)),
        find_from(s, part, from) is None ==> (forall|j: int|
            from <= j ==> !occurs_at(s, part, j)),
    decreases s.len() - from + 1,
{
    if from + part.len() > s.len() {
    } else if occurs_at(s, part, from) {
    } else {
        lemma_find_from(s, part, from + 1);
    }
}

/// Whether `part` stands in `s` at position `i`.
pub fn match_at(s: &[char], part: &[char], i: usize) -> (r: bool)
    ensures
        r == occurs_at(s@, part@, i as int),
{
    if part.len() > s.len() || i > s.len() - part.len() {
        return false;
    }
    for j in 0..part.len()
        invariant
            i + part.len() <= s.len(),
            forall|k: int| 0 <= k < j ==> s@[i + k] == part@[k],
    {
        if s[i + j] != part[j] {
            assert(s@.subrange(i as int, i + part@.len())[j as int] != part@[j as int]);
            return false;
        }
    }
    assert(s@.subrange(i as int, i + part@.len()) =~= part@);
    true
}

/// The first position at or after `from` at which `part` stands in `s`.
pub fn find(s: &[char], part: &[char], from: usize) -> (r: Option<usize>)
    ensures
        match r {
            Some(k) => find_from(s@, part@, from as int) == Some(k as int),
            None => find_from(s@, part@, from as int) is None,
        },
        r matches Some(k) ==> from <= k && k + part.len() <= s.len(),
{
    if part.len() > s.len() || from > s.len() - part.len() {
        return None;
    }
    let mut i: usize = from;
    let last: usize = s.len() - part.len();
    while i <= last
        invariant
            from <= i,
            last + part@.len() == s@.len(),
            i <= last + 1,
            find_from(s@, part@, i as int) == find_from(s@, part@, from as int),
        decreases last + 1 - i,
    {
        if match_at(s, part, i) {
            return Some(i);
        }
        if i == last {
            assert(find_from(s@, part@, i + 1) is None);
            return None;
        }
        i = i + 1;
    }
    None
}

/// Whether `part` stands anywhere in `s`.
pub fn contains_chars(s: &[char], part: &[char]) -> (r: bool)
    ensures
        r == contains_text(s@, part@),
{
    proof {
        lemma_find_from(s@, part@, 0);
    }
    match find(s, part, 0) {
        Some(k) => {
            assert(occurs_at(s@, part@, k as int));
            true
        },
        None => false,
    }
}

/// Whether `s` begins with `prefix`.
pub fn starts_with(s: &str, prefix: &str) -> (r: bool)
    ensures
        r == prefix@.is_prefix_of(s@),
{
    let s: Vec<char> = chars_of(s);
    let p: Vec<char> = chars_of(prefix);
    if p.len() > s.len() {
        return false;
    }
    let r = match_at(&s, &p, 0);
    assert(occurs_at(s@, p@, 0) == (s@.subrange(0, p@.len() as int) == p@));
    r
}

/// Whether `s` ends with `suffix`.
pub fn ends_with_chars(s: &[char], suffix: &[char]) -> (r: bool)
    ensures
        r == suffix@.is_suffix_of(s@),
{
    if suffix.len() > s.len() {
        return false;
    }
    let at: usize = s.len() - suffix.len();
    let r = match_at(s, suffix, at);
    assert(at + suffix@.len() == s@.len());
    r
}

/// The lower-case form of an ASCII letter; any other character as it is.
pub open spec fn ascii_lower_char(c: char) -> char {
    if 'A' <= c && c <= 'Z' {
        ((c as u32 + 32) as u8) as char
    } else {
        c
    }
}

/// The text with its ASCII letters in lower case.
pub open spec fn ascii_lower(s: Seq<char>) -> Seq<char> {
    s.map_values(|c: char| ascii_lower_char(c))
}

/// The characters with the ASCII letters in lower case.
pub fn ascii_lower_chars(s: &[char]) -> (r: Vec<char>)
    ensures
        r@ == ascii_lower(s@),
{
    let mut r: Vec<char> = Vec::new();
    for i in 0..s.len()
        invariant
            r@.len() == i,
            forall|j: int| 0 <= j < i ==> r@[j] == ascii_lower_char(s@[j]),
    {
        let c: char = s[i];
        if 'A' <= c && c <= 'Z' {
            r.push(((c as u32 + 32) as u8) as char);
        } else {
            r.push(c);
        }
    }
    assert(r@ =~= ascii_lower(s@));
    r
}

/// White space, the characters with the Unicode property White_Space: the blank, the controls
/// from tab to carriage return, the next line, and the spaces and separators beyond ASCII.
pub open spec fn is_space(c: char) -> bool {
    let n = c as u32;
    ||| n == 0x20
    ||| 0x9 <= n <= 0xd
    ||| n == 0x85
    ||| n == 0xa0
    ||| n == 0x1680
    ||| 0x2000 <= n <= 0x200a
    ||| n == 0x2028
    ||| n == 0x2029
    ||| n == 0x202f
    ||| n == 0x205f
    ||| n == 0x3000
}

/// `char::is_whitespace` decides the Unicode property White_Space, which Unicode's property
/// list gives to these characters.
pub assume_specification[ char::is_whitespace ](c: char) -> (r: bool)
    ensures
        r == is_space(c),
;

/// The text without the white space at its beginning.
pub open spec fn trim_start(s: Seq<char>) -> Seq<char>
    decreases s.len(),
{
    if s.len() > 0 && is_space(s[0]) {
        trim_start(s.drop_first())
    } else {
        s
    }
}

/// The text without the white space at its end.
pub open spec fn trim_end(s: Seq<char>) -> Seq<char>
    decreases s.len(),
{
    if s.len() > 0 && is_space(s.last()) {
        trim_end(s.drop_last())
    } else {
        s
    }
}

/// The text without the white space at either end.
pub open spec fn trimmed(s: Seq<char>) -> Seq<char> {
    trim_end(trim_start(s))
}

/// The characters without the white space at either end.
pub fn trim_chars(s: &[char]) -> (r: Vec<char>)
    ensures
        r@ == trimmed(s@),
{
    let mut i: usize = 0;
    assert(s@.skip(0) =~= s@);
    while i < s.len() && s[i].is_whitespace()
        invariant
            i <= s@.len(),
            trim_start(s@) == trim_start(s@.skip(i as int)),
        decreases s@.len() - i,
    {
        assert(s@.skip(i as int).drop_first() =~= s@.skip(i + 1));
        i = i + 1;
    }
    let ghost rest = s@.skip(i as int);
    assert(trim_start(s@) == rest);
    let mut j: usize = s.len();
    assert(s@.subrange(i as int, j as int) =~= rest);
    while j > i && s[j - 1].is_whitespace()
        invariant
            i <= j <= s@.len(),
            trim_end(rest) == trim_end(s@.subrange(i as int, j as int)),
        decreases j,
    {
        assert(s@.subrange(i as int, j as int).drop_last() =~= s@.subrange(i as int, j - 1));
        j = j - 1;
    }
    slice_to_vec(slice_subrange(s, i, j))
}

/// A vector with the elements of a slice.
pub fn slice_to_vec(s: &[char]) -> (r: Vec<char>)
    ensures
        r@ == s@,
{
    let mut r: Vec<char> = Vec::new();
    for i in 0..s.len()
        invariant
            r@ == s@.take(i as int),
    {
        r.push(s[i]);
        assert(s@.take(i + 1) =~= s@.take(i as int).push(s@[i as int]));
    }
    assert(s@.take(s@.len() as int) =~= s@);
    r
}

/// The string without the white space at either end.
pub fn trim(s: &str) -> (r: String)
    ensures
        r@ == trimmed(s@),
{
    string_of(&trim_chars(&chars_of(s)))
}

/// Trimming leaves no white space at either end.
pub proof fn lemma_trimmed_ends(s: Seq<char>)
    ensures
        trimmed(s).len() > 0 ==> !is_space(trimmed(s)[0]) && !is_space(
            trimmed(s).last(),
        ),
{
    lemma_trim_start(s);
    lemma_trim_end(trim_start(s));
}

proof fn lemma_trim_start(s: Seq<char>)
    ensures
        trim_start(s).len() > 0 ==> !is_space(trim_start(s)[0]),
    decreases s.len(),
{
    if s.len() > 0 && is_space(s[0]) {
        lemma_trim_start(s.drop_first());
    }
}

proof fn lemma_trim_end(s: Seq<char>)
    ensures
        trim_end(s).len() <= s.len(),
        trim_end(s) == s.take(trim_end(s).len() as int),
        trim_end(s).len() > 0 ==> !is_space(trim_end(s).last()),
    decreases s.len(),
{
    if s.len() > 0 && is_space(s.last()) {
        lemma_trim_end(s.drop_last());
        assert(s.drop_last().take(trim_end(s).len() as int) =~= s.take(trim_end(s).len() as int));
    } else {
        assert(s.take(s.len() as int) =~= s);
    }
}

/// Trimming a trimmed text changes nothing.
pub proof fn law_trim_is_idempotent(s: Seq<char>)
    ensures
        trimmed(trimmed(s)) == trimmed(s),
{
    lemma_trimmed_ends(s);
}

/// The pieces of `s` between the occurrences of `sep`, from left to right.
pub open spec fn split_on(s: Seq<char>, sep: Seq<char>) -> Seq<Seq<char>>
    decreases s.len(),
{
    match find_from(s, sep, 0) {
        Some(k) if sep.len() > 0 && 0 <= k && k + sep.len() <= s.len() => seq![s.take(k)]
            + split_on(s.skip(k + sep.len()), sep),
        _ => seq![s],
    }
}

/// The pieces of `s` between the occurrences of `sep`.
pub fn split(s: &[char], sep: &[char]) -> (r: Vec<Vec<char>>)
    requires
        sep@.len() > 0,
    ensures
        r@.map_values(|piece: Vec<char>| piece@) == split_on(s@, sep@),
        r@.len() > 0,
{
    let mut r: Vec<Vec<char>> = Vec::new();
    let mut from: usize = 0;
    assert(s@.skip(0) =~= s@);
    loop
        invariant
            from <= s@.len(),
            sep@.len() > 0,
            r@.map_values(|piece: Vec<char>| piece@) + split_on(s@.skip(from as int), sep@)
                == split_on(s@, sep@),
        decreases s@.len() - from,
    {
        proof {
            lemma_find_shift(s@, sep@, from as int, 0);
            lemma_find_from(s@.skip(from as int), sep@, 0);
        }
        let ghost before = r@.map_values(|piece: Vec<char>| piece@);
        let ghost rest = s@.skip(from as int);
        match find(s, sep, from) {
            Some(k) => {
                let piece: Vec<char> = slice_to_vec(slice_subrange(s, from, k));
                assert(piece@ =~= rest.take(k - from));
                assert(rest.skip(k - from + sep@.len()) =~= s@.skip(k + sep@.len()));
                r.push(piece);
                assert(r@.map_values(|piece: Vec<char>| piece@) =~= before.push(piece@));
                assert(before.push(piece@) + split_on(s@.skip(k + sep@.len()), sep@) =~= before + (
                seq![piece@] + split_on(s@.skip(k + sep@.len()), sep@)));
                from = k + sep.len();
            },
            None => {
                let piece: Vec<char> = slice_to_vec(slice_subrange(s, from, s.len()));
                assert(piece@ =~= rest);
                r.push(piece);
                assert(r@.map_values(|piece: Vec<char>| piece@) =~= before + seq![piece@]);
                return r;
            },
        }
    }
}

/// Searching from `from` on is searching the rest of the text.
proof fn lemma_find_shift(s: Seq<char>, part: Seq<char>, from: int, at: int)
    requires
        0 <= from <= s.len(),
        0 <= at,
    ensures
        match find_from(s, part, from + at) {
            Some(k) => find_from(s.skip(from), part, at) == Some(k - from),
            None => find_from(s.skip(from), part, at) is None,
        },
    decreases s.len() - at + 1,
{
    let rest = s.skip(from);
    if from + at + part.len() > s.len() {
    } else {
        assert(rest.subrange(at, at + part.len()) =~= s.subrange(
            from + at,
            from + at + part.len(),
        ));
        if !occurs_at(rest, part, at) {
            lemma_find_shift(s, part, from, at + 1);
        }
    }
}

/// A line without the carriage return at its end.
pub open spec fn strip_cr(line: Seq<char>) -> Seq<char> {
    if line.len() > 0 && line.last() == '\r' {
        line.drop_last()
    } else {
        line
    }
}

/// The lines of a text: each ends at a line feed, which a carriage return may
/// precede; the last one may also end with the text.
pub open spec fn lines_of(s: Seq<char>) -> Seq<Seq<char>>
    decreases s.len(),
{
    if s.len() == 0 {
        Seq::empty()
    } else {
        match find_from(s, seq!['\n'], 0) {
            Some(k) if 0 <= k < s.len() => seq![strip_cr(s.take(k))] + lines_of(s.skip(k + 1)),
            _ => seq![s],
        }
    }
}

/// The lines of a text.
pub fn lines(s: &[char]) -> (r: Vec<Vec<char>>)
    ensures
        r@.map_values(|line: Vec<char>| line@) == lines_of(s@),
{
    let mut r: Vec<Vec<char>> = Vec::new();
    let mut from: usize = 0;
    let feed: Vec<char> = vec!['\n'];
    assert(feed@ =~= seq!['\n']);
    assert(s@.skip(0) =~= s@);
    while from < s.len()
        invariant
            from <= s@.len(),
            feed@ == seq!['\n'],
            r@.map_values(|line: Vec<char>| line@) + lines_of(s@.skip(from as int)) == lines_of(s@),
        decreases s@.len() - from,
    {
        proof {
            lemma_find_shift(s@, feed@, from as int, 0);
            lemma_find_from(s@.skip(from as int), feed@, 0);
        }
        let ghost before = r@.map_values(|line: Vec<char>| line@);
        let ghost rest = s@.skip(from as int);
        match find(s, &feed, from) {
            Some(k) => {
                let end: usize = if k > from && s[k - 1] == '\r' {
                    k - 1
                } else {
                    k
                };
                let line: Vec<char> = slice_to_vec(slice_subrange(s, from, end));
                assert(line@ =~= strip_cr(rest.take(k - from)));
                assert(rest.skip(k - from + 1) =~= s@.skip(k + 1));
                r.push(line);
                assert(r@.map_values(|line: Vec<char>| line@) =~= before.push(line@));
                assert(before.push(line@) + lines_of(s@.skip(k + 1)) =~= before + (seq![line@]
                    + lines_of(s@.skip(k + 1))));
                from = k + 1;
            },
            None => {
                let line: Vec<char> = slice_to_vec(slice_subrange(s, from, s.len()));
                assert(line@ =~= rest);
                r.push(line);
                assert(r@.map_values(|line: Vec<char>| line@) =~= before + seq![line@]);
                return r;
            },
        }
    }
    assert(s@.skip(from as int).len() == 0);
    assert(r@.map_values(|line: Vec<char>| line@) + lines_of(s@.skip(from as int)) =~= r@.map_values(
        |line: Vec<char>| line@,
    ));
    r
}

/// The last position before `end` that holds `c`.
pub open spec fn last_before(s: Seq<char>, c: char, end: int) -> Option<int>
    decreases end,
{
    if end <= 0 || end > s.len() {
        None
    } else if s[end - 1] == c {
        Some(end - 1)
    } else {
        last_before(s, c, end - 1)
    }
}

/// The last position before `end` that holds `c`.
pub fn rfind(s: &[char], c: char, end: usize) -> (r: Option<usize>)
    requires
        end <= s@.len(),
    ensures
        match r {
            Some(k) => last_before(s@, c, end as int) == Some(k as int) && k < end && s@[k as int]
                == c,
            None => last_before(s@, c, end as int) is None && (forall|j: int|
                0 <= j < end ==> s@[j] != c),
        },
{
    let mut i: usize = end;
    while i > 0
        invariant
            i <= end <= s@.len(),
            last_before(s@, c, i as int) == last_before(s@, c, end as int),
            forall|j: int| i <= j < end ==> s@[j] != c,
        decreases i,
    {
        if s[i - 1] == c {
            return Some(i - 1);
        }
        i = i - 1;
    }
    None
}

} // verus!
