use mizuki::bangumi::{
    calendar, collection_kind, collection_page_data, collection_request, collection_slug,
    collections_url, comments_url, https_image, next_page, profile_username, search_body,
    search_limit, search_subjects, subject_from_v0, subject_url,
};
use mizuki::json::{Json, Number, as_bool, as_i64, as_text};
use mizuki::models::Subject;

fn convert(value: &serde_json::Value) -> Json {
    match value {
        serde_json::Value::Null => Json::Null,
        serde_json::Value::Bool(b) => Json::Bool(*b),
        serde_json::Value::Number(n) => Json::Number(Number {
            integer: n.as_i64().map(i128::from).or(n.as_u64().map(i128::from)),
            bits: n.as_f64().map(f64::to_bits),
        }),
        serde_json::Value::String(s) => Json::Text(s.clone()),
        serde_json::Value::Array(list) => Json::List(list.iter().map(convert).collect()),
        serde_json::Value::Object(map) => {
            Json::Object(map.iter().map(|(k, v)| (k.clone(), convert(v))).collect())
        }
    }
}

fn json(text: &str) -> Json {
    convert(&serde_json::from_str(text).expect("valid JSON"))
}

fn score(subject: &Subject) -> f64 {
    f64::from_bits(subject.score.bits)
}

#[test]
fn reads_full_subject_rating() {
    let value = json(r#"{"id":1,"name":"A","rating":{"score":8.2,"rank":123},"total_episodes":12}"#);
    let subject = subject_from_v0(&value, None, 0);
    assert_eq!(score(&subject), 8.2);
    assert_eq!(subject.rank, Some(123));
    assert_eq!(subject.episodes, 12)
}

#[test]
fn reads_slim_subject_fields() {
    let value =
        json(r#"{"id":2,"name":"B","score":7.6,"rank":456,"eps":24,"short_summary":"简介"}"#);
    let subject = subject_from_v0(&value, Some("doing".into()), 3);
    assert_eq!(score(&subject), 7.6);
    assert_eq!(subject.rank, Some(456));
    assert_eq!(subject.summary, "简介");
    assert_eq!(subject.watched, 3)
}

#[test]
fn reads_paginated_collection_object() {
    let page = json(
        r#"{
            "data": [
                {"subject_id": 7, "type": 3, "ep_status": 4},
                {"subject_id": 9, "type": 1, "ep_status": 0}
            ],
            "total": 12,
            "limit": 50,
            "offset": 0
        }"#,
    );
    let data = collection_page_data(&page);
    assert_eq!(data.len(), 2);
    assert_eq!(as_i64(data[0].get("subject_id")), Some(7));
    assert_eq!(as_i64(page.get("total")), Some(12));
}

#[test]
fn ignores_legacy_array_shaped_collection_response() {
    let page = json(r#"[{"subject_id": 7, "type": 3}]"#);
    assert!(collection_page_data(&page).is_empty());
}

#[test]
fn short_page_marks_the_final_offset() {
    let nulls = |n: usize| {
        Json::Object(vec![(
            "data".to_owned(),
            Json::List((0..n).map(|_| Json::Null).collect()),
        )])
    };
    let full = nulls(50);
    let last = nulls(17);
    let full_page = collection_page_data(&full);
    let last_page = collection_page_data(&last);
    assert_eq!(full_page.len(), 50);
    assert_eq!(last_page.len(), 17);
    assert!(full_page.len() >= 50);
    assert!(last_page.len() < 50);
    assert_eq!(next_page(0, full_page.len()), Some(50));
    assert_eq!(next_page(50, last_page.len()), None);
    assert_eq!(next_page(u64::MAX, 50), None);
}

#[test]
fn collection_kind_and_slug_are_inverses() {
    for kind in 1..=5 {
        let slug = collection_slug(kind).expect("known kind");
        assert_eq!(collection_kind(slug), Some(kind));
    }
    assert_eq!(collection_slug(0), None);
    assert_eq!(collection_slug(9), None);
    assert_eq!(collection_kind("wish"), Some(1));
    assert_eq!(collection_kind("doing"), Some(3));
    assert_eq!(collection_kind("unknown"), None);
}

#[test]
fn calendar_http_image_urls_are_upgraded_to_https() {
    let value = json(
        r#"{"id":1,"name":"A","images":{"large":"http://lain.bgm.tv/pic/cover/l/ce/e2/456080_C4q4C.jpg"}}"#,
    );
    let subject = subject_from_v0(&value, None, 0);
    assert_eq!(
        subject.image.as_deref(),
        Some("https://lain.bgm.tv/pic/cover/l/ce/e2/456080_C4q4C.jpg")
    );
    let already_https =
        json(r#"{"id":2,"name":"B","images":{"large":"https://lain.bgm.tv/pic/cover/x.jpg"}}"#);
    assert_eq!(
        subject_from_v0(&already_https, None, 0).image.as_deref(),
        Some("https://lain.bgm.tv/pic/cover/x.jpg")
    );
    assert_eq!(subject_from_v0(&json(r#"{"id":3,"name":"C"}"#), None, 0).image, None);
}

#[test]
fn other_hosts_keep_their_addresses() {
    assert_eq!(
        https_image(Some("http://example.com/a.jpg".into())).as_deref(),
        Some("http://example.com/a.jpg")
    );
    assert_eq!(
        https_image(Some("http://bgm.tv/a.jpg".into())).as_deref(),
        Some("https://bgm.tv/a.jpg")
    );
    assert_eq!(https_image(None), None);
}

#[test]
fn a_null_summary_hides_the_short_one() {
    let value = json(r#"{"id":4,"summary":null,"short_summary":"x"}"#);
    assert_eq!(subject_from_v0(&value, None, 0).summary, "");
}

#[test]
fn ranks_below_one_are_dropped_and_the_better_score_counts() {
    let value = json(r#"{"rating":{"score":6.5,"rank":0},"score":7.25}"#);
    let subject = subject_from_v0(&value, None, 0);
    assert_eq!(subject.rank, None);
    assert_eq!(score(&subject), 7.25);
    assert_eq!(subject.id, 0);
    assert_eq!(subject.air_weekday, -1);
    assert_eq!(subject.update_state, "none");
}

#[test]
fn calendar_days_count_from_monday() {
    let days = vec![
        json(r#"{"weekday":{"id":1},"items":[{"id":1},{"id":2,"air_weekday":3},{"id":3,"air_weekday":9}]}"#),
        json(r#"{"weekday":{"id":0},"items":[{"id":4}]}"#),
        json(r#"{"items":[{"id":5}]}"#),
        json(r#"{"weekday":{"id":7}}"#),
    ];
    let subjects = calendar(&days);
    let seen: Vec<(i64, i64)> = subjects.iter().map(|s| (s.id, s.air_weekday)).collect();
    assert_eq!(seen, vec![(1, 0), (2, 2), (3, 0), (4, 6), (5, 0)]);
}

#[test]
fn searches_ask_for_fit_anime_and_read_the_page() {
    assert_eq!(search_limit(20), 20);
    assert_eq!(search_limit(31), 30);
    let body = search_body("芙莉莲");
    assert_eq!(as_text(body.get("keyword")), Some("芙莉莲"));
    assert_eq!(as_text(body.get("sort")), Some("match"));
    assert_eq!(as_bool(body.get2("filter", "nsfw")), Some(false));
    let page = json(r#"{"data":[{"id":8},{"id":9}]}"#);
    let ids: Vec<i64> = search_subjects(&page).iter().map(|s| s.id).collect();
    assert_eq!(ids, vec![8, 9]);
    assert!(search_subjects(&json("[]")).is_empty());
}

#[test]
fn collection_requests_name_the_kind_and_the_episodes() {
    let (url, body) = collection_request(77, "doing", Some(5)).unwrap();
    assert_eq!(url, "https://api.bgm.tv/v0/users/-/collections/77");
    assert_eq!(as_i64(body.get("type")), Some(3));
    assert_eq!(as_i64(body.get("ep")), Some(5));
    let (_, body) = collection_request(77, "wish", None).unwrap();
    assert!(body.get("ep").is_none());
    assert_eq!(collection_request(77, "watching", None).unwrap_err(), "收藏状态无效");
}

#[test]
fn profiles_name_their_user() {
    assert_eq!(profile_username(&json(r#"{"username":"mizuki"}"#)).unwrap(), "mizuki");
    assert_eq!(profile_username(&json("{}")).unwrap_err(), "无法识别 Bangumi 用户");
}

#[test]
fn documents_are_read_where_bangumi_keeps_them() {
    assert_eq!(subject_url(633836), "https://api.bgm.tv/v0/subjects/633836");
    assert_eq!(comments_url(7), "https://next.bgm.tv/p1/subjects/7/comments");
    assert_eq!(collections_url("mizuki"), "https://api.bgm.tv/v0/users/mizuki/collections");
}

#[test]
fn the_number_of_episodes_goes_by_three_names() {
    for (text, episodes) in [
        (r#"{"id":1,"name":"A","eps_count":12}"#, 12),
        (r#"{"id":1,"name":"A","eps":24,"eps_count":12}"#, 24),
        (r#"{"id":1,"name":"A","total_episodes":36,"eps":24,"eps_count":12}"#, 36),
        (r#"{"id":1,"name":"A"}"#, 0),
    ] {
        assert_eq!(subject_from_v0(&json(text), None, 0).episodes, episodes, "{text}");
    }
}

#[test]
fn requests_hold_nothing_else() {
    let names = |value: &Json| -> Vec<String> {
        match value {
            Json::Object(members) => members.iter().map(|(name, _)| name.clone()).collect(),
            _ => Vec::new(),
        }
    };
    let body = search_body("x");
    assert_eq!(names(&body), ["keyword", "sort", "filter"]);
    assert_eq!(names(body.get("filter").unwrap()), ["type", "nsfw"]);
    assert_eq!(names(&collection_request(7, "doing", Some(5)).unwrap().1), ["type", "ep"]);
    assert_eq!(names(&collection_request(7, "doing", None).unwrap().1), ["type"]);
}
