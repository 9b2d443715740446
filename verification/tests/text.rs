use mizuki::clock::{Moment, now_text, weekday_in_japan, within_hours};
use mizuki::ids::fresh_id;
use mizuki::json::{Json, Number, as_bits, as_i64, as_nat, as_text};
use mizuki::models::Score;
use mizuki::numbers::{decimal_i64, decimal_u64, parse_i64};
use mizuki::order::{less, order_by};
use mizuki::text::{chars_of, join, lines, split, string_of, trim};

#[test]
fn texts_are_trimmed_split_and_joined() {
    assert_eq!(trim("\u{3000} a b \t\n"), "a b");
    assert_eq!(trim(&trim("  x ")), "x");
    assert_eq!(trim("   "), "");
    let parts: Vec<String> = split(&chars_of("a--b----c"), &chars_of("--"))
        .iter()
        .map(|p| string_of(p))
        .collect();
    assert_eq!(parts, vec!["a", "b", "", "c"]);
    assert_eq!(join(&parts, "+"), "a+b++c");
    let rows: Vec<String> = lines(&chars_of("a\r\nb\n\nc")).iter().map(|p| string_of(p)).collect();
    assert_eq!(rows, vec!["a", "b", "", "c"]);
}

#[test]
fn numbers_are_written_and_read() {
    for n in [0, 7, -1, i64::MAX, i64::MIN, 1234567890] {
        assert_eq!(decimal_i64(n), n.to_string());
        assert_eq!(parse_i64(&decimal_i64(n)), Some(n));
    }
    assert_eq!(decimal_u64(u64::MAX), u64::MAX.to_string());
    for text in ["", "-", "+", "1x", " 1", "9223372036854775808", "--1", "१"] {
        assert_eq!(parse_i64(text), None, "{text}");
        assert!(text.parse::<i64>().is_err());
    }
    assert_eq!(parse_i64("+0012"), Some(12));
}

#[test]
fn texts_are_ordered_by_their_characters_and_ties_keep_their_place() {
    assert!(less("a", "b") && less("a", "ab") && less("", "a") && less("z", "茶"));
    assert!(!less("b", "a") && !less("a", "a"));
    let keys: Vec<String> = ["b", "a", "b", "c"].iter().map(|k| (*k).to_owned()).collect();
    assert_eq!(order_by(&keys, false), vec![1, 0, 2, 3]);
    assert_eq!(order_by(&keys, true), vec![3, 0, 2, 1]);
}

#[test]
fn fresh_ids_are_random_uuids() {
    let id = fresh_id();
    let parsed = uuid::Uuid::parse_str(&id).unwrap();
    assert_eq!(parsed.get_version_num(), 4);
    assert_eq!(id.len(), 36);
    assert_ne!(fresh_id(), id);
}

#[test]
fn the_clock_tells_the_time() {
    let text = now_text();
    let read = chrono::DateTime::parse_from_rfc3339(&text).unwrap();
    let gap = chrono::Utc::now().signed_duration_since(read);
    assert!(gap.num_seconds().abs() < 60);
    let start = Moment { secs: 0, nanos: 0 };
    assert_eq!(weekday_in_japan(start), 3);
    assert!(within_hours(Moment { secs: 3599, nanos: 999_999_999 }, start, 1));
    assert!(!within_hours(Moment { secs: 3600, nanos: 0 }, start, 1));
}

#[test]
fn the_greater_score_wins() {
    let score = |x: f64| Score { bits: x.to_bits() };
    assert_eq!(score(7.5).greater(score(8.25)), score(8.25));
    assert_eq!(score(-1.0).greater(score(-2.0)), score(-1.0));
    assert_eq!(score(0.0).greater(score(-0.5)), score(0.0));
}

#[test]
fn documents_are_read_strictly() {
    let number = |n: i128| Json::Number(Number { integer: Some(n), bits: None });
    assert_eq!(as_i64(Some(&number(5))), Some(5));
    assert_eq!(as_i64(Some(&number(i128::from(u64::MAX)))), None);
    assert_eq!(as_i64(None), None);
    assert_eq!(as_nat(Some(&number(65536)), 65535), None);
    assert_eq!(as_nat(Some(&number(-1)), 65535), None);
    assert_eq!(as_text(Some(&Json::Text("x".into()))), Some("x"));
    assert_eq!(as_text(Some(&Json::Null)), None);
    assert_eq!(as_bits(Some(&Json::Null)), None);
}

#[test]
fn white_space_is_what_unicode_says() {
    let spaces: Vec<char> = ('\0'..=char::MAX).filter(|c| c.is_whitespace()).collect();
    assert_eq!(spaces.len(), 25);
    for c in spaces {
        assert_eq!(trim(&format!("{c}a{c}")), "a");
    }
    assert_eq!(trim("\u{200b}a\u{feff}"), "\u{200b}a\u{feff}");
}
