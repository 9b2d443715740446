use mizuki::bgmlist::{Item, Site, calendar, mikan_id_for_bangumi, site_id, subject_from_item};
use mizuki::json::{Json, Number};

fn convert(value: &serde_json::Value) -> Json {
    match value {
        serde_json::Value::Null => Json::Null,
        serde_json::Value::Bool(b) => Json::Bool(*b),
        serde_json::Value::Number(n) => Json::Number(Number {
            integer: n.as_i64().map(i128::from).or(n.as_u64().map(i128::from)),
            bits: n.as_f64().map(f64::to_bits),
        }),
        serde_json::Value::String(s) => Json::Text(s.clone()),
        serde_json::Value::Array(list) => Json::List(list.iter().map(convert).collect()),
        serde_json::Value::Object(map) => {
            Json::Object(map.iter().map(|(k, v)| (k.clone(), convert(v))).collect())
        }
    }
}

fn json(text: &str) -> Json {
    convert(&serde_json::from_str(text).expect("valid JSON"))
}

fn site(name: &str, id: &str) -> Site {
    Site { site: name.into(), id: id.into() }
}

#[test]
fn maps_re_zero_by_bangumi_id_and_jst_weekday() {
    let item = Item {
        title: "Re:ゼロから始める異世界生活 4th season 奪還編".into(),
        title_translate: json(r#"{"zh-Hans": ["Re：从零开始的异世界生活 第四季 夺还篇"]}"#),
        broadcast: "R/2026-08-12T14:00:00.000Z/P7D".into(),
        sites: vec![site("bangumi", "633836"), site("mikan", "4052")],
    };
    let subject = subject_from_item(&item).unwrap();
    assert_eq!(subject.id, 633836);
    assert_eq!(subject.air_weekday, 2);
    assert!(subject.name_cn.contains("夺还篇"));
}

#[test]
fn ignores_items_without_weekly_broadcast_rule() {
    let item = Item {
        title: "Movie".into(),
        title_translate: Json::Null,
        broadcast: "".into(),
        sites: vec![site("bangumi", "1")],
    };
    assert!(subject_from_item(&item).is_none());
}

#[test]
fn other_periods_and_bad_times_are_no_weekly_broadcast() {
    for broadcast in [
        "R/2026-08-12T14:00:00.000Z/P1M",
        "R/2026-08-12T14:00:00.000Z",
        "R/yesterday/P7D",
        "2026-08-12T14:00:00.000Z/P7D",
    ] {
        let item = Item {
            title: "X".into(),
            title_translate: Json::Null,
            broadcast: broadcast.into(),
            sites: vec![site("bangumi", "1")],
        };
        assert!(subject_from_item(&item).is_none(), "{broadcast}");
    }
}

#[test]
fn late_utc_broadcasts_air_on_the_next_day_in_japan() {
    let item = Item {
        title: "X".into(),
        title_translate: json(r#"{"zh-Hans": []}"#),
        broadcast: "R/2026-08-12T15:30:00Z/P7D".into(),
        sites: vec![site("bangumi", "+5")],
    };
    let subject = subject_from_item(&item).unwrap();
    assert_eq!(subject.air_weekday, 3);
    assert_eq!(subject.id, 5);
    assert_eq!(subject.name_cn, "");
}

#[test]
fn calendar_collects_subjects_and_mikan_numbers() {
    let items = vec![
        Item {
            title: "A".into(),
            title_translate: Json::Null,
            broadcast: "R/2026-08-10T00:00:00Z/P7D".into(),
            sites: vec![site("bangumi", "1"), site("mikan", "11")],
        },
        Item {
            title: "B".into(),
            title_translate: Json::Null,
            broadcast: "".into(),
            sites: vec![site("mikan", "22"), site("bangumi", "2")],
        },
        Item {
            title: "C".into(),
            title_translate: Json::Null,
            broadcast: "".into(),
            sites: vec![site("bangumi", "x3"), site("mikan", "33")],
        },
    ];
    let data = calendar(&items);
    assert_eq!(data.subjects.len(), 1);
    assert_eq!(data.subjects[0].name, "A");
    assert_eq!(data.mikan_ids.get(&1), Some(&11));
    assert_eq!(data.mikan_ids.get(&2), Some(&22));
    assert_eq!(data.mikan_ids.len(), 2);
    assert_eq!(mikan_id_for_bangumi(&items, 2), Ok(22));
    assert_eq!(
        mikan_id_for_bangumi(&items, 3).unwrap_err(),
        "bgmlist 暂无这部番的 Mikan ID，无法创建单番订阅"
    );
    assert_eq!(site_id(&items[2], "bangumi"), None);
}
