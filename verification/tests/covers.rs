use mizuki::covers::{
    add_chunk, cover_candidate, cover_file_name, cover_file_name_is_valid, cover_local_url, is_jpeg,
    length_is_acceptable,
};
use mizuki::json::{Json, Number};

fn convert(value: &serde_json::Value) -> Json {
    match value {
        serde_json::Value::Null => Json::Null,
        serde_json::Value::Bool(b) => Json::Bool(*b),
        serde_json::Value::Number(n) => Json::Number(Number {
            integer: n.as_i64().map(i128::from).or(n.as_u64().map(i128::from)),
            bits: n.as_f64().map(f64::to_bits),
        }),
        serde_json::Value::String(s) => Json::Text(s.clone()),
        serde_json::Value::Array(list) => Json::List(list.iter().map(convert).collect()),
        serde_json::Value::Object(map) => {
            Json::Object(map.iter().map(|(k, v)| (k.clone(), convert(v))).collect())
        }
    }
}

fn json(text: &str) -> Json {
    convert(&serde_json::from_str(text).expect("valid JSON"))
}

#[test]
fn cover_file_name_rejects_traversal_and_non_numeric() {
    assert!(cover_file_name_is_valid("3354.jpg"));
    assert!(!cover_file_name_is_valid(".jpg"), "空 stem 拒绝");
    assert!(!cover_file_name_is_valid("abc.jpg"));
    assert!(!cover_file_name_is_valid("../etc/passwd.jpg"), "目录穿越拒绝");
    assert!(!cover_file_name_is_valid("3354.gif"));
    assert!(!cover_file_name_is_valid("123456789012345678901.jpg"), "超长文件名拒绝");
}

#[test]
fn cover_candidate_reads_images_and_requires_http() {
    let value =
        json(r#"{"id": 7, "images": {"large": "https://lain.bgm.tv/pic/cover/l/a.jpg"}}"#);
    assert_eq!(
        cover_candidate(&value),
        Some((7, "https://lain.bgm.tv/pic/cover/l/a.jpg".into()))
    );
    assert_eq!(cover_candidate(&json(r#"{"id": 7}"#)), None);
    assert_eq!(cover_candidate(&json(r#"{"id": 7, "images": {}}"#)), None);
}

#[test]
fn smaller_images_stand_in_for_a_missing_large_one() {
    let value = json(r#"{"id": 7, "images": {"large": null, "medium": "http://m/x.jpg", "common": "http://c/x.jpg"}}"#);
    assert_eq!(cover_candidate(&value), Some((7, "http://c/x.jpg".into())));
    let value = json(r#"{"id": 7, "images": {"large": "ftp://x", "common": "http://c/x.jpg"}}"#);
    assert_eq!(cover_candidate(&value), None);
    let value = json(r#"{"images": {"large": "http://x"}}"#);
    assert_eq!(cover_candidate(&value), None);
}

#[test]
fn cover_names_are_accepted_and_addressed() {
    for id in [0, 7, 633836, i64::MAX] {
        assert!(cover_file_name_is_valid(&cover_file_name(id)));
    }
    assert!(!cover_file_name_is_valid(&cover_file_name(-1)));
    assert_eq!(cover_file_name(3354), "3354.jpg");
    assert_eq!(cover_local_url(3354, true).as_deref(), Some("http://cover.localhost/3354.jpg"));
    assert_eq!(cover_local_url(3354, false), None);
}

#[test]
fn covers_are_limited_in_size_and_kind() {
    assert!(length_is_acceptable(None));
    assert!(length_is_acceptable(Some(5 * 1024 * 1024)));
    assert!(!length_is_acceptable(Some(5 * 1024 * 1024 + 1)));
    let mut bytes = vec![0xFF];
    assert!(add_chunk(&mut bytes, &[0xD8, 1]));
    assert_eq!(bytes, vec![0xFF, 0xD8, 1]);
    assert!(is_jpeg(&bytes));
    let huge = vec![0u8; 5 * 1024 * 1024];
    assert!(!add_chunk(&mut bytes, &huge));
    assert_eq!(bytes.len(), 3);
    assert!(!is_jpeg(&[0xFF]));
    assert!(!is_jpeg(b"GIF89a"));
}
