//! Identifiers of new records.

use vstd::prelude::*;

verus! {

/// Whether a character is a hexadecimal digit in lower case.
pub open spec fn is_hex(c: char) -> bool {
    ('0' <= c && c <= '9') || ('a' <= c && c <= 'f')
}

/// Whether a text is a random identifier: hexadecimal digits in groups of eight, four, four,
/// four and twelve, of which one says how it was made and one by which layout.
pub open spec fn is_random_id(id: Seq<char>) -> bool {
    &&& id.len() == 36
    &&& id[8] == '-' && id[13] == '-' && id[18] == '-' && id[23] == '-'
    &&& id[14] == '4'
    &&& id[19] == '8' || id[19] == '9' || id[19] == 'a' || id[19] == 'b'
    &&& forall|i: int|
        0 <= i < 36 && i != 8 && i != 13 && i != 18 && i != 23 ==> is_hex(#[trigger] id[i])
}

/// `uuid::Uuid::new_v4` makes a random identifier, which is written in groups of lower-case
/// hexadecimal digits with its version, four, and its variant in their places. That two of
/// them differ is likely, not certain, and is not claimed.
#[verifier::external_body]
pub(crate) fn random_id() -> (id: String)
    ensures
        is_random_id(id@),
{
    uuid::Uuid::new_v4().to_string()
}

/// A new identifier, made at random.
pub fn fresh_id() -> (id: String)
    ensures
        is_random_id(id@),
{
    random_id()
}

/// An identifier can stand in an address as it is: it holds no character that separates the
/// parts of an address.
pub proof fn law_ids_separate_nothing(id: Seq<char>)
    requires
        is_random_id(id),
    ensures
        forall|i: int|
            0 <= i < id.len() ==> {
                let c = #[trigger] id[i];
                c != '&' && c != '=' && c != '?' && c != '#' && c != '/' && c != '%' && c != ' '
            },
{
    assert forall|i: int| 0 <= i < id.len() implies {
        let c = #[trigger] id[i];
        c != '&' && c != '=' && c != '?' && c != '#' && c != '/' && c != '%' && c != ' '
    } by {
        if i != 8 && i != 13 && i != 18 && i != 23 {
            assert(is_hex(id[i]));
        }
    }
}

} // verus!
