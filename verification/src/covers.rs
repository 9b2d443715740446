//! Cached cover images.

use crate::json::{Json, as_i64, as_text, field, field2, int_of, text_of};
use crate::numbers::{decimal, decimal_i64, is_digit};
use crate::text::{append, chars_of, ends_with_chars, opt_text, starts_with};
use vstd::prelude::*;

verus! {

/// The largest cover that is kept, in bytes.
pub const MAX_COVER_BYTES: usize = 5242880;

/// The name of the file that holds the cover of a subject.
pub open spec fn cover_name(subject_id: i64) -> Seq<char> {
    decimal(subject_id as int) + ".jpg"@
}

/// The name of the file that holds the cover of a subject.
pub fn cover_file_name(subject_id: i64) -> (name: String)
    ensures
        name@ == cover_name(subject_id),
{
    let mut name = decimal_i64(subject_id);
    append(&mut name, ".jpg");
    name
}

/// The local address of the cover of a subject, if it is cached.
pub fn cover_local_url(subject_id: i64, cached: bool) -> (url: Option<String>)
    ensures
        opt_text(url) == if cached {
            Some("http://cover.localhost/"@ + cover_name(subject_id))
        } else {
            None
        },
{
    if cached {
        let mut url = "http://cover.localhost/".to_owned();
        append(&mut url, cover_file_name(subject_id).as_str());
        Some(url)
    } else {
        None
    }
}

/// Whether a name is that of a cover file: one to twenty digits and `.jpg`. No such name
/// leads out of the directory of the covers.
pub open spec fn is_cover_name(name: Seq<char>) -> bool {
    &&& ".jpg"@.is_suffix_of(name)
    &&& 5 <= name.len() <= 24
    &&& forall|i: int| 0 <= i < name.len() - 4 ==> is_digit(#[trigger] name[i])
}

/// Whether a name is that of a cover file.
pub fn cover_file_name_is_valid(name: &str) -> (r: bool)
    ensures
        r == is_cover_name(name@),
{
    let chars: Vec<char> = chars_of(name);
    let suffix: Vec<char> = chars_of(".jpg");
    proof {
        reveal_strlit(".jpg");
    }
    if !ends_with_chars(&chars, &suffix) || chars.len() < 5 || chars.len() > 24 {
        return false;
    }
    for i in 0..chars.len() - 4
        invariant
            chars@ == name@,
            5 <= chars@.len() <= 24,
            ".jpg"@.is_suffix_of(name@),
            forall|j: int| 0 <= j < i ==> is_digit(#[trigger] name@[j]),
    {
        if !('0' <= chars[i] && chars[i] <= '9') {
            assert(!is_digit(name@[i as int]));
            return false;
        }
    }
    true
}

/// The file names of covers are accepted, for every subject that has a number from zero
/// on.
pub proof fn law_cover_names_are_valid(subject_id: i64)
    requires
        subject_id >= 0,
    ensures
        is_cover_name(cover_name(subject_id)),
{
    let n = subject_id as nat;
    crate::numbers::lemma_digits_value(n);
    crate::numbers::lemma_digits_short(n);
    reveal_strlit(".jpg");
    let name = cover_name(subject_id);
    assert(name.subrange(name.len() - 4, name.len() as int) =~= ".jpg"@);
    assert forall|i: int| 0 <= i < name.len() - 4 implies is_digit(#[trigger] name[i]) by {
        assert(name[i] == decimal(subject_id as int)[i]);
    }
}

/// An accepted name holds neither a separator nor two dots in a row.
pub proof fn law_valid_names_stay_inside(name: Seq<char>)
    requires
        is_cover_name(name),
    ensures
        !name.contains('/'),
        !name.contains('\\'),
        forall|i: int| 0 <= i < name.len() - 1 ==> !(#[trigger] name[i] == '.' && name[i + 1] == '.'),
{
    reveal_strlit(".jpg");
    let n = name.len();
    assert forall|i: int| n - 4 <= i < n implies #[trigger] name[i] == ".jpg"@[i - (n - 4)] by {
        assert(name.subrange(n - 4, n as int)[i - (n - 4)] == name[i]);
    }
    assert forall|i: int| 0 <= i < n implies #[trigger] name[i] != '/' && name[i] != '\\' by {
        if i < n - 4 {
            assert(is_digit(name[i]));
        }
    }
}

/// The address of the cover that a document names: the large image, or else the common, or
/// else the medium one.
pub open spec fn cover_address(value: Json) -> Option<Seq<char>> {
    match text_of(field2(value, "images"@, "large"@)) {
        Some(url) => Some(url),
        None => match text_of(field2(value, "images"@, "common"@)) {
            Some(url) => Some(url),
            None => text_of(field2(value, "images"@, "medium"@)),
        },
    }
}

/// The subject and the address of the cover that a document names. The address must be one
/// of the web.
pub fn cover_candidate(value: &Json) -> (r: Option<(i64, String)>)
    ensures
        match r {
            Some(found) => int_of(field(*value, "id"@)) == Some(found.0) && cover_address(*value)
                == Some(found.1@) && "http"@.is_prefix_of(found.1@),
            None => int_of(field(*value, "id"@)) is None || !(cover_address(*value) matches Some(
                url,
            ) && "http"@.is_prefix_of(url)),
        },
{
    let id: i64 = as_i64(value.get("id"))?;
    let url: &str = match as_text(value.get2("images", "large")) {
        Some(url) => url,
        None => match as_text(value.get2("images", "common")) {
            Some(url) => url,
            None => as_text(value.get2("images", "medium"))?,
        },
    };
    if starts_with(url, "http") {
        Some((id, url.to_owned()))
    } else {
        None
    }
}

/// Whether a cover of a length is kept.
pub open spec fn cover_fits(len: nat) -> bool {
    len <= MAX_COVER_BYTES
}

/// Whether a cover of the announced length is worth loading.
pub fn length_is_acceptable(announced: Option<u64>) -> (r: bool)
    ensures
        r == (announced matches Some(n) ==> cover_fits(n as nat)),
{
    match announced {
        Some(n) => n <= 5242880,
        None => true,
    }
}

/// Adds a part of a cover to the bytes loaded so far, unless the cover gets too large.
pub fn add_chunk(bytes: &mut Vec<u8>, chunk: &[u8]) -> (r: bool)
    ensures
        r == cover_fits(old(bytes)@.len() + chunk@.len()),
        final(bytes)@ == if r {
            old(bytes)@ + chunk@
        } else {
            old(bytes)@
        },
{
    if bytes.len() > MAX_COVER_BYTES || chunk.len() > MAX_COVER_BYTES - bytes.len() {
        return false;
    }
    let ghost before = bytes@;
    for i in 0..chunk.len()
        invariant
            bytes@ == before + chunk@.take(i as int),
    {
        bytes.push(chunk[i]);
        assert(chunk@.take(i + 1) =~= chunk@.take(i as int).push(chunk@[i as int]));
    }
    assert(chunk@.take(chunk@.len() as int) =~= chunk@);
    true
}

/// Whether bytes begin like a JPEG image.
pub open spec fn begins_as_jpeg(bytes: Seq<u8>) -> bool {
    bytes.len() >= 2 && bytes[0] == 0xFF && bytes[1] == 0xD8
}

/// Whether bytes begin like a JPEG image.
pub fn is_jpeg(bytes: &[u8]) -> (r: bool)
    ensures
        r == begins_as_jpeg(bytes@),
{
    bytes.len() >= 2 && bytes[0] == 0xFF && bytes[1] == 0xD8
}

} // verus!
