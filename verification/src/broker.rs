//! Signing in to Bangumi: the addresses that the user is sent to, and the tickets against
//! which a token is handed out.

use crate::json::{Json, field, lemma_lookup_at, member, text_of};
use crate::text::{append, same};
use vstd::prelude::*;

verus! {

/// Whether a byte stands for itself in an address: a letter, a digit, or one of `-`, `.`, `_`
/// and `~`.
pub open spec fn is_unreserved(b: u8) -> bool {
    (48 <= b <= 57) || (65 <= b <= 90) || (97 <= b <= 122) || b == 45 || b == 46 || b == 95 || b
        == 126
}

/// The hexadecimal digit of a number below sixteen.
pub open spec fn hex_digit(n: int) -> char {
    if n < 10 {
        (48 + n) as char
    } else {
        (55 + n) as char
    }
}

/// Bytes as they stand in an address: every byte that does not stand for itself is written as
/// a percent sign and two hexadecimal digits.
pub open spec fn percent_encoded(bytes: Seq<u8>) -> Seq<char>
    decreases bytes.len(),
{
    if bytes.len() == 0 {
        Seq::empty()
    } else {
        let b = bytes[0];
        (if is_unreserved(b) {
            seq![b as char]
        } else {
            seq!['%', hex_digit(b as int / 16), hex_digit(b as int % 16)]
        }) + percent_encoded(bytes.drop_first())
    }
}

/// A text as it stands in an address.
pub open spec fn in_address(text: Seq<char>) -> Seq<char> {
    percent_encoded(vstd::utf8::encode_utf8(text))
}

/// `urlencoding::encode` writes the UTF-8 bytes of a text as they stand in an address.
#[verifier::external_body]
pub(crate) fn encode(text: &str) -> (encoded: String)
    ensures
        encoded@ == in_address(text@),
{
    urlencoding::encode(text).into_owned()
}

/// What is written in an address cannot be taken for anything else of it: it holds no
/// character that separates the parts of an address.
pub proof fn law_encoded_text_separates_nothing(bytes: Seq<u8>)
    ensures
        forall|i: int|
            0 <= i < percent_encoded(bytes).len() ==> {
                let c = #[trigger] percent_encoded(bytes)[i];
                c != '&' && c != '=' && c != '?' && c != '#' && c != '/' && c != ' '
            },
    decreases bytes.len(),
{
    if bytes.len() > 0 {
        law_encoded_text_separates_nothing(bytes.drop_first());
        let rest = percent_encoded(bytes.drop_first());
        let all = percent_encoded(bytes);
        let n = all.len() - rest.len();
        assert forall|i: int| 0 <= i < all.len() implies {
            let c = #[trigger] all[i];
            c != '&' && c != '=' && c != '?' && c != '#' && c != '/' && c != ' '
        } by {
            if i >= n {
                assert(all[i] == rest[i - n]);
            }
        }
    }
}

/// Different texts are written differently.
pub proof fn law_encoding_is_injective(a: Seq<u8>, b: Seq<u8>)
    requires
        percent_encoded(a) == percent_encoded(b),
    ensures
        a == b,
    decreases a.len(),
{
    let x = percent_encoded(a);
    if a.len() == 0 {
        if b.len() > 0 {
            assert(percent_encoded(b).len() > 0);
        }
        assert(a =~= b);
    } else {
        assert(x.len() > 0);
        assert(b.len() > 0) by {
            if b.len() == 0 {
                assert(percent_encoded(b).len() == 0);
            }
        }
        let ra = percent_encoded(a.drop_first());
        let rb = percent_encoded(b.drop_first());
        if is_unreserved(a[0]) {
            assert(x[0] == a[0] as char);
            assert(x[0] != '%');
            assert(is_unreserved(b[0]));
            assert(x.skip(1) =~= ra);
            assert(x.skip(1) =~= rb);
        } else {
            assert(x[0] == '%');
            assert(!is_unreserved(b[0]));
            assert(x[1] == hex_digit(a[0] as int / 16) && x[1] == hex_digit(b[0] as int / 16));
            assert(x[2] == hex_digit(a[0] as int % 16) && x[2] == hex_digit(b[0] as int % 16));
            lemma_hex_digit(a[0] as int / 16, b[0] as int / 16);
            lemma_hex_digit(a[0] as int % 16, b[0] as int % 16);
            assert(x.skip(3) =~= ra);
            assert(x.skip(3) =~= rb);
        }
        law_encoding_is_injective(a.drop_first(), b.drop_first());
        assert(a =~= seq![a[0]] + a.drop_first());
        assert(b =~= seq![b[0]] + b.drop_first());
    }
}

proof fn lemma_hex_digit(a: int, b: int)
    requires
        0 <= a < 16,
        0 <= b < 16,
        hex_digit(a) == hex_digit(b),
    ensures
        a == b,
{
}

/// The address at which the user signs in.
pub open spec fn sign_in_address(
    client_id: Seq<char>,
    redirect_uri: Seq<char>,
    state: Seq<char>,
) -> Seq<char> {
    "https://bgm.tv/oauth/authorize?client_id="@ + in_address(client_id)
        + "&response_type=code&redirect_uri="@ + in_address(redirect_uri) + "&state="@ + in_address(
        state,
    )
}

/// The address that hands a ticket to the application.
pub open spec fn hand_over_address(ticket: Seq<char>, state: Seq<char>) -> Seq<char> {
    "mizuki://oauth/callback?ticket="@ + ticket + "&state="@ + in_address(state)
}

/// Where the user is sent to sign in.
pub fn start_url(client_id: &str, redirect_uri: &str, state: &str) -> (url: String)
    ensures
        url@ == sign_in_address(client_id@, redirect_uri@, state@),
{
    let mut url: String = "https://bgm.tv/oauth/authorize?client_id=".to_owned();
    append(&mut url, encode(client_id).as_str());
    append(&mut url, "&response_type=code&redirect_uri=");
    append(&mut url, encode(redirect_uri).as_str());
    append(&mut url, "&state=");
    append(&mut url, encode(state).as_str());
    url
}

/// Whether a document asks for a token with what belongs to a sign-in, and holds nothing else.
pub open spec fn asks_for_token(
    body: Json,
    client_id: Seq<char>,
    client_secret: Seq<char>,
    code: Seq<char>,
    redirect_uri: Seq<char>,
    state: Seq<char>,
) -> bool {
    &&& text_of(field(body, "grant_type"@)) == Some("authorization_code"@)
    &&& text_of(field(body, "client_id"@)) == Some(client_id)
    &&& text_of(field(body, "client_secret"@)) == Some(client_secret)
    &&& text_of(field(body, "code"@)) == Some(code)
    &&& text_of(field(body, "redirect_uri"@)) == Some(redirect_uri)
    &&& text_of(field(body, "state"@)) == Some(state)
    &&& body matches Json::Object(members) && members@.len() == 6
}

/// What a token is asked for with.
pub fn token_request(
    client_id: &str,
    client_secret: &str,
    code: &str,
    redirect_uri: &str,
    state: &str,
) -> (body: Json)
    ensures
        asks_for_token(body, client_id@, client_secret@, code@, redirect_uri@, state@),
{
    let members: Vec<(String, Json)> = vec![
        member("grant_type", Json::Text("authorization_code".to_owned())),
        member("client_id", Json::Text(client_id.to_owned())),
        member("client_secret", Json::Text(client_secret.to_owned())),
        member("code", Json::Text(code.to_owned())),
        member("redirect_uri", Json::Text(redirect_uri.to_owned())),
        member("state", Json::Text(state.to_owned())),
    ];
    proof {
        reveal_strlit("grant_type");
        reveal_strlit("client_id");
        reveal_strlit("client_secret");
        reveal_strlit("code");
        reveal_strlit("redirect_uri");
        reveal_strlit("state");
        assert(members@[0].0@.len() == 10);
        assert(members@[1].0@.len() == 9);
        assert(members@[2].0@.len() == 13);
        assert(members@[3].0@.len() == 4);
        assert(members@[4].0@.len() == 12);
        assert(members@[5].0@.len() == 5);
        lemma_lookup_at(members@, 0);
        lemma_lookup_at(members@, 1);
        lemma_lookup_at(members@, 2);
        lemma_lookup_at(members@, 3);
        lemma_lookup_at(members@, 4);
        lemma_lookup_at(members@, 5);
    }
    Json::Object(members)
}

/// Where the user is sent with a ticket after signing in: to the application.
pub fn callback_url(ticket: &str, state: &str) -> (url: String)
    ensures
        url@ == hand_over_address(ticket@, state@),
{
    let mut url: String = "mizuki://oauth/callback?ticket=".to_owned();
    append(&mut url, ticket);
    append(&mut url, "&state=");
    append(&mut url, encode(state).as_str());
    url
}

/// For how many nanoseconds a ticket is valid: a minute.
pub const TICKET_NANOS: u64 = 60_000_000_000;

/// A ticket, until when it is valid, and the token that it stands for. Times are nanoseconds
/// of a clock that never goes back.
#[derive(Debug)]
pub struct Ticket {
    pub ticket: String,
    pub expires: u64,
    pub token: Json,
}

/// The tickets that were given out and not redeemed.
#[derive(Debug)]
pub struct Tickets {
    pub list: Vec<Ticket>,
}

/// Whether a ticket was given out and not redeemed.
pub open spec fn holds_ticket(list: Seq<Ticket>, ticket: Seq<char>) -> bool {
    exists|i: int| 0 <= i < list.len() && (#[trigger] list[i]).ticket@ == ticket
}

/// Where a ticket stands.
pub open spec fn ticket_at(list: Seq<Ticket>, ticket: Seq<char>) -> int {
    choose|i: int| 0 <= i < list.len() && (#[trigger] list[i]).ticket@ == ticket
}

impl View for Tickets {
    type V = Map<Seq<char>, (u64, Json)>;

    open spec fn view(&self) -> Map<Seq<char>, (u64, Json)> {
        Map::new(
            |ticket: Seq<char>| holds_ticket(self.list@, ticket),
            |ticket: Seq<char>|
                (
                    self.list@[ticket_at(self.list@, ticket)].expires,
                    self.list@[ticket_at(self.list@, ticket)].token,
                ),
        )
    }
}

impl Tickets {
    /// No ticket stands twice.
    pub open spec fn wf(&self) -> bool {
        forall|i: int, j: int|
            0 <= i < j < self.list@.len() ==> (#[trigger] self.list@[i]).ticket@ != (
            #[trigger] self.list@[j]).ticket@
    }

    proof fn lemma_at(&self, i: int)
        requires
            self.wf(),
            0 <= i < self.list@.len(),
        ensures
            self@.dom().contains(self.list@[i].ticket@),
            self@[self.list@[i].ticket@] == (self.list@[i].expires, self.list@[i].token),
    {
        let ticket = self.list@[i].ticket@;
        assert(holds_ticket(self.list@, ticket));
        let k = ticket_at(self.list@, ticket);
        assert(self.list@[k].ticket@ == ticket);
        assert(k == i);
    }

    /// No tickets.
    pub fn new() -> (tickets: Self)
        ensures
            tickets.wf(),
            tickets@ == Map::<Seq<char>, (u64, Json)>::empty(),
    {
        let tickets = Tickets { list: Vec::new() };
        assert(tickets@ =~= Map::<Seq<char>, (u64, Json)>::empty());
        tickets
    }

    /// Where a ticket stands.
    fn position(&self, ticket: &str) -> (r: Option<usize>)
        ensures
            match r {
                Some(i) => i < self.list@.len() && self.list@[i as int].ticket@ == ticket@,
                None => !holds_ticket(self.list@, ticket@),
            },
    {
        for i in 0..self.list.len()
            invariant
                forall|j: int| 0 <= j < i ==> (#[trigger] self.list@[j]).ticket@ != ticket@,
        {
            if same(self.list[i].ticket.as_str(), ticket) {
                return Some(i);
            }
        }
        None
    }

    /// Gives out a ticket for a token, valid for a minute from the time `now`.
    pub fn issue(&mut self, ticket: String, token: Json, now: u64)
        requires
            old(self).wf(),
            now <= u64::MAX - TICKET_NANOS,
        ensures
            final(self).wf(),
            final(self)@ == issued(old(self)@, ticket@, token, now),
    {
        let ghost before = *self;
        let expires: u64 = now + TICKET_NANOS;
        let at: Option<usize> = self.position(ticket.as_str());
        let entry = Ticket { ticket, expires, token };
        match at {
            Some(i) => {
                self.list[i] = entry;
            },
            None => {
                self.list.push(entry);
            },
        }
        proof {
            let k: int = match at {
                Some(i) => i as int,
                None => before.list@.len() as int,
            };
            assert(self.list@[k] == entry);
            assert(self.wf()) by {
                assert forall|i: int, j: int| 0 <= i < j < self.list@.len() implies (
                #[trigger] self.list@[i]).ticket@ != (#[trigger] self.list@[j]).ticket@ by {
                    if at is None && j == k {
                        assert(before.list@[i].ticket@ != ticket@);
                    } else {
                        assert(before.list@[i].ticket@ != before.list@[j].ticket@);
                    }
                }
            }
            let expected = before@.insert(ticket@, (expires, token));
            assert forall|t: Seq<char>| self@.dom().contains(t) == expected.dom().contains(t) by {
                if holds_ticket(self.list@, t) {
                    let n = ticket_at(self.list@, t);
                    assert(self.list@[n].ticket@ == t);
                    if n != k {
                        assert(before.list@[n] == self.list@[n]);
                    }
                }
                if holds_ticket(before.list@, t) {
                    let n = ticket_at(before.list@, t);
                    assert(before.list@[n].ticket@ == t);
                    assert(self.list@[n].ticket@ == t);
                }
                if t == ticket@ {
                    assert(self.list@[k].ticket@ == t);
                }
            }
            assert forall|t: Seq<char>| self@.dom().contains(t) implies self@[t]
                == expected[t] by {
                let n = ticket_at(self.list@, t);
                assert(self.list@[n].ticket@ == t);
                self.lemma_at(n);
                if n == k {
                    assert(t == ticket@);
                } else {
                    assert(before.list@[n] == self.list@[n]);
                    before.lemma_at(n);
                    if t == ticket@ {
                        self.lemma_at(k);
                    }
                }
            }
            assert(self@ =~= expected);
        }
    }

    /// Redeems a ticket at the time `now`: whatever comes of it, the ticket cannot be redeemed
    /// again. A ticket that was not given out, or is no longer valid, gives nothing.
    pub fn redeem(&mut self, ticket: &str, now: u64) -> (r: Result<Json, String>)
        requires
            old(self).wf(),
        ensures
            final(self).wf(),
            final(self)@ == old(self)@.remove(ticket@),
            match r {
                Ok(token) => redeemed(old(self)@, ticket@, now) == Some(token),
                Err(e) => redeemed(old(self)@, ticket@, now) is None && e@
                    == "ticket invalid or expired"@,
            },
    {
        let ghost before = *self;
        match self.position(ticket) {
            Some(i) => {
                proof {
                    before.lemma_at(i as int);
                }
                let entry: Ticket = self.list.remove(i);
                proof {
                    lemma_removed(before, *self, i as int);
                }
                if entry.expires > now {
                    Ok(entry.token)
                } else {
                    Err("ticket invalid or expired".to_owned())
                }
            },
            None => {
                assert(self@ =~= before@.remove(ticket@));
                Err("ticket invalid or expired".to_owned())
            },
        }
    }
}

/// What is left after a ticket was taken out.
proof fn lemma_removed(before: Tickets, after: Tickets, i: int)
    requires
        before.wf(),
        0 <= i < before.list@.len(),
        after.list@ == before.list@.remove(i),
    ensures
        after.wf(),
        after@ == before@.remove(before.list@[i].ticket@),
{
    let gone = before.list@[i].ticket@;
    assert forall|a: int, b: int| 0 <= a < b < after.list@.len() implies (
    #[trigger] after.list@[a]).ticket@ != (#[trigger] after.list@[b]).ticket@ by {
        let x = if a < i {
            a
        } else {
            a + 1
        };
        let y = if b < i {
            b
        } else {
            b + 1
        };
        assert(after.list@[a] == before.list@[x]);
        assert(after.list@[b] == before.list@[y]);
    }
    let expected = before@.remove(gone);
    assert forall|n: int| 0 <= n < after.list@.len() implies #[trigger] after.list@[n]
        == before.list@[if n < i {
        n
    } else {
        n + 1
    }] by {}
    assert forall|t: Seq<char>| after@.dom().contains(t) == expected.dom().contains(t) by {
        if holds_ticket(after.list@, t) {
            let n = ticket_at(after.list@, t);
            assert(after.list@[n].ticket@ == t);
            let m = if n < i {
                n
            } else {
                n + 1
            };
            assert(before.list@[m].ticket@ == t);
            assert(holds_ticket(before.list@, t));
            if m < i {
                assert(before.list@[m].ticket@ != before.list@[i].ticket@);
            } else {
                assert(before.list@[i].ticket@ != before.list@[m].ticket@);
            }
        }
        if holds_ticket(before.list@, t) && t != gone {
            let m = ticket_at(before.list@, t);
            assert(before.list@[m].ticket@ == t);
            let n = if m < i {
                m
            } else {
                m - 1
            };
            assert(after.list@[n].ticket@ == t);
        }
    }
    assert forall|t: Seq<char>| after@.dom().contains(t) implies after@[t] == expected[t] by {
        let n = ticket_at(after.list@, t);
        assert(after.list@[n].ticket@ == t);
        after.lemma_at(n);
        let m = if n < i {
            n
        } else {
            n + 1
        };
        before.lemma_at(m);
    }
    assert(after@ =~= expected);
}

/// The tickets after one was given out for a token.
pub open spec fn issued(
    tickets: Map<Seq<char>, (u64, Json)>,
    ticket: Seq<char>,
    token: Json,
    now: u64,
) -> Map<Seq<char>, (u64, Json)> {
    tickets.insert(ticket, ((now + TICKET_NANOS) as u64, token))
}

/// What redeeming a ticket gives.
pub open spec fn redeemed(
    tickets: Map<Seq<char>, (u64, Json)>,
    ticket: Seq<char>,
    now: u64,
) -> Option<Json> {
    if tickets.dom().contains(ticket) && tickets[ticket].0 > now {
        Some(tickets[ticket].1)
    } else {
        None
    }
}

/// A ticket gives its token at most once, and only within a minute.
pub proof fn law_tickets_are_good_once(
    tickets: Map<Seq<char>, (u64, Json)>,
    ticket: Seq<char>,
    token: Json,
    issued: u64,
    now: u64,
    later: u64,
)
    requires
        issued <= u64::MAX - TICKET_NANOS,
    ensures
        ({
            let given = tickets.insert(ticket, ((issued + TICKET_NANOS) as u64, token));
            &&& issued <= now < issued + TICKET_NANOS ==> redeemed(given, ticket, now) == Some(
                token,
            )
            &&& now >= issued + TICKET_NANOS ==> redeemed(given, ticket, now) is None
            &&& redeemed(given.remove(ticket), ticket, later) is None
        }),
{
}

} // verus!
