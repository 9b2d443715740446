//! What holds of signing in: how values stand in addresses, and what tickets are good for.

use crate::broker::{
    hand_over_address, hex_digit, in_address, is_unreserved, issued, percent_encoded, redeemed,
    sign_in_address,
};
use crate::json::Json;
use vstd::prelude::*;

verus! {

/// Bytes are written in an address one after the other.
pub proof fn law_bytes_are_encoded_in_turn(a: Seq<u8>, b: Seq<u8>)
    ensures
        percent_encoded(a + b) == percent_encoded(a) + percent_encoded(b),
        percent_encoded(Seq::empty()).len() == 0,
    decreases a.len(),
{
    if a.len() == 0 {
        assert(a + b =~= b);
        assert(percent_encoded(a) + percent_encoded(b) =~= percent_encoded(b));
    } else {
        assert((a + b).drop_first() =~= a.drop_first() + b);
        law_bytes_are_encoded_in_turn(a.drop_first(), b);
        assert(percent_encoded(a + b) =~= percent_encoded(a) + percent_encoded(b));
    }
}

/// Letters, digits and four marks stand for themselves; any other byte is written as a percent
/// sign and its two hexadecimal digits, of which the letters are capitals.
pub proof fn law_single_bytes_are_encoded(b: u8)
    ensures
        ({
            let own = ('a' as u8 <= b <= 'z' as u8) || ('A' as u8 <= b <= 'Z' as u8) || ('0' as u8
                <= b <= '9' as u8) || b == '-' as u8 || b == '.' as u8 || b == '_' as u8 || b
                == '~' as u8;
            &&& is_unreserved(b) <==> own
            &&& own ==> percent_encoded(seq![b]) == seq![b as char]
            &&& !own ==> percent_encoded(seq![b]) == seq![
                '%',
                hex_digit(b as int / 16),
                hex_digit(b as int % 16),
            ]
        }),
{
    assert(seq![b].drop_first() =~= Seq::<u8>::empty());
    assert(percent_encoded(Seq::<u8>::empty()) =~= Seq::<char>::empty());
    assert(percent_encoded(seq![b]) =~= if is_unreserved(b) {
        seq![b as char]
    } else {
        seq!['%', hex_digit(b as int / 16), hex_digit(b as int % 16)]
    });
}

/// The sixteen hexadecimal digits.
pub proof fn law_hexadecimal_digits(n: int)
    ensures
        0 <= n <= 9 ==> hex_digit(n) as u32 == '0' as u32 + n,
        10 <= n <= 15 ==> hex_digit(n) as u32 == 'A' as u32 + n - 10,
{
}

/// The user signs in at Bangumi for this client, comes back to the given place, and the state comes
/// with them; all three stand in the address in encoded form.
pub proof fn law_sign_in_addresses_carry_their_parts(
    client: Seq<char>,
    place: Seq<char>,
    state: Seq<char>,
)
    ensures
        sign_in_address(client, place, state) == "https://bgm.tv/oauth/authorize?client_id="@
            + in_address(client) + "&response_type=code&redirect_uri="@ + in_address(place)
            + "&state="@ + in_address(state),
        hand_over_address(client, state) == "mizuki://oauth/callback?ticket="@ + client + "&state="@
            + in_address(state),
        in_address(state) == percent_encoded(vstd::utf8::encode_utf8(state)),
{
}

/// A ticket that was given out gives its token within sixty seconds, and not from then on. Giving
/// it out changes no other ticket, and what was not given out gives nothing.
pub proof fn law_tickets_last_a_minute(
    tickets: Map<Seq<char>, (u64, Json)>,
    ticket: Seq<char>,
    token: Json,
    at: u64,
    now: u64,
    other: Seq<char>,
)
    requires
        at <= u64::MAX - 60_000_000_000,
        other != ticket,
    ensures
        ({
            let after = issued(tickets, ticket, token, at);
            &&& at <= now < at + 60_000_000_000 ==> redeemed(after, ticket, now) == Some(token)
            &&& now >= at + 60_000_000_000 ==> redeemed(after, ticket, now) is None
            &&& redeemed(after, other, now) == redeemed(tickets, other, now)
            &&& redeemed(after.remove(ticket), ticket, now) is None
            &&& redeemed(after.remove(ticket), other, now) == redeemed(tickets, other, now)
            &&& !tickets.dom().contains(other) ==> redeemed(tickets, other, now) is None
        }),
{
}

} // verus!
