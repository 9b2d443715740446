use mizuki::broker::{TICKET_NANOS, Tickets, callback_url, start_url, token_request};
use mizuki::json::{Json, as_text};

#[test]
fn the_sign_in_address_carries_its_parts_encoded() {
    assert_eq!(
        start_url("id&1", "https://a.example/cb?x=1", "s t"),
        "https://bgm.tv/oauth/authorize?client_id=id%261&response_type=code&redirect_uri=https%3A%2F%2Fa.example%2Fcb%3Fx%3D1&state=s%20t"
    );
}

#[test]
fn the_way_back_carries_the_ticket() {
    assert_eq!(
        callback_url("t1", "茶~_.-"),
        "mizuki://oauth/callback?ticket=t1&state=%E8%8C%B6~_.-"
    );
}

#[test]
fn tokens_are_asked_for_by_code() {
    let body = token_request("id", "secret", "code", "uri", "state");
    assert_eq!(as_text(body.get("grant_type")), Some("authorization_code"));
    assert_eq!(as_text(body.get("client_id")), Some("id"));
    assert_eq!(as_text(body.get("client_secret")), Some("secret"));
    assert_eq!(as_text(body.get("code")), Some("code"));
    assert_eq!(as_text(body.get("redirect_uri")), Some("uri"));
    assert_eq!(as_text(body.get("state")), Some("state"));
}

#[test]
fn a_ticket_is_good_once() {
    let mut tickets = Tickets::new();
    tickets.issue("a".into(), Json::Bool(true), 5);
    tickets.issue("b".into(), Json::Null, 5);
    assert!(matches!(tickets.redeem("a", 6), Ok(Json::Bool(true))));
    assert!(tickets.redeem("a", 6).is_err());
    assert!(tickets.redeem("c", 6).is_err());
    assert!(matches!(tickets.redeem("b", 5 + TICKET_NANOS - 1), Ok(Json::Null)));
}

#[test]
fn late_tickets_are_refused() {
    let mut tickets = Tickets::new();
    tickets.issue("a".into(), Json::Null, 0);
    assert!(tickets.redeem("a", TICKET_NANOS + 1).is_err());
    assert!(tickets.redeem("a", 1).is_err());
}
