use mizuki::db::Database;
use mizuki::matcher::MatchRule;
use mizuki::models::{DownloadTask, FeedRule, Progress, RssFeed, RssItem};
use mizuki::rss::{
    BatchStep, add_rss_feed, batch_begin, batch_done, batch_item, batch_result, batch_unlinked, feed_to_refresh,
    feeds_to_refresh, list_rss_items, manual_download, pick_automatic, preview_rule_match,
    refresh_all_rss_feeds, refresh_feed, refresh_summary, rss_download_source,
    set_rss_feed_rules, subscribe_known, subscribe_subject, subscribe_subject_at,
};

const NOW: &str = "2026-08-29T10:00:00+00:00";

fn item(guid: &str, title: &str, torrent: Option<&str>) -> RssItem {
    RssItem {
        guid: guid.into(),
        feed_id: String::new(),
        title: title.into(),
        link: format!("https://example.com/{guid}"),
        torrent: torrent.map(str::to_owned),
        published_at: None,
        downloaded: false,
        download: None,
        matches_rule: false,
    }
}

fn task(id: &str, state: &str) -> DownloadTask {
    DownloadTask {
        id: id.into(),
        title: id.into(),
        episode: String::new(),
        progress: Progress::none(),
        down_speed: 0,
        up_speed: 0,
        state: state.into(),
        output_path: String::new(),
        playback_path: None,
    }
}

fn subscribed(db: &mut Database, id: i64) -> RssFeed {
    let items = vec![item("g1", "[喵萌] A 01", Some("https://m/1.torrent"))];
    subscribe_subject_at(
        db, format!("f{id}"), id, "A", "甲", Some("喵萌"), "Mikan", &items, NOW,
        &vec![NOW.to_owned()],
    )
    .unwrap()
}

#[test]
fn feeds_are_added_with_their_items() {
    let mut db = Database::open_in_memory().unwrap();
    let items = vec![item("g1", "A", None), item("g2", "B", None)];
    let feed = add_rss_feed(&mut db, "https://m/rss".into(), "M".into(), &items).unwrap();
    assert_eq!(feed.title, "M");
    assert!(feed.enabled && feed.last_checked_at.is_some());
    assert_eq!(db.list_rss_items(Some(&feed.id), 10).unwrap().len(), 2);
    let again = add_rss_feed(&mut db, "https://m/rss".into(), "M".into(), &items);
    assert!(again.is_err());
}

#[test]
fn subscribing_twice_gives_the_same_feed() {
    let mut db = Database::open_in_memory().unwrap();
    assert!(subscribe_known(&mut db, 7).unwrap().is_none());
    let feed = subscribed(&mut db, 7);
    assert_eq!(feed.url, "https://mikanani.me/RSS/Bangumi?bangumiId=7");
    assert_eq!(feed.rule.subtitle_group.as_deref(), Some("喵萌"));
    assert!(feed.rule.auto_download);
    let known = subscribe_known(&mut db, 7).unwrap().unwrap();
    assert_eq!(known.id, feed.id);
    assert_eq!(db.list_feeds().unwrap().len(), 1);
}

#[test]
fn refreshing_picks_new_matching_items() {
    let mut db = Database::open_in_memory().unwrap();
    let feed = subscribed(&mut db, 7);
    let items = vec![
        item("g1", "[喵萌] A 01", Some("https://m/1.torrent")),
        item("g2", "[喵萌] A 02", Some("https://m/2.torrent")),
        item("g3", "[桜都] A 02", Some("https://m/3.torrent")),
        item("g4", "[喵萌] A 03", None),
    ];
    let (added, picks) = refresh_feed(&mut db, &feed, "Mikan", &items).unwrap();
    assert_eq!(added.len(), 3);
    assert_eq!(picks.len(), 1);
    assert_eq!(picks[0].guid, "g2");
    assert_eq!(picks[0].source, "https://m/2.torrent");
    let (added, picks) = refresh_feed(&mut db, &feed, "Mikan", &items).unwrap();
    assert!(added.is_empty() && picks.is_empty());
    assert!(pick_automatic(&items, &FeedRule::default()).is_empty());
}

#[test]
fn feeds_that_are_switched_off_are_not_refreshed() {
    let mut db = Database::open_in_memory().unwrap();
    let feed = subscribed(&mut db, 7);
    assert_eq!(feeds_to_refresh(&db).unwrap().len(), 1);
    assert!(feed_to_refresh(&db, &feed.id).unwrap().is_some());
    db.set_feed_enabled(&feed.id, false).unwrap();
    assert!(feeds_to_refresh(&db).unwrap().is_empty());
    assert!(feed_to_refresh(&db, &feed.id).unwrap().is_none());
    assert_eq!(feed_to_refresh(&db, "none").err().unwrap(), "订阅源不存在");
}

#[test]
fn rules_are_limited_and_mark_the_items() {
    let mut db = Database::open_in_memory().unwrap();
    let feed = subscribed(&mut db, 7);
    let many = FeedRule { includes: vec!["x".into(); 21], ..Default::default() };
    assert_eq!(
        set_rss_feed_rules(&mut db, &feed.id, &many).unwrap_err(),
        "规则关键词过多（最多 20 个）"
    );
    let rule = FeedRule { includes: vec!["01".into()], ..Default::default() };
    set_rss_feed_rules(&mut db, &feed.id, &rule).unwrap();
    db.insert_rss_items(&feed.id, &vec![item("g2", "A 02", None)]).unwrap();
    let listed = list_rss_items(&db, Some(&feed.id), None, &Vec::new()).unwrap();
    let marked: Vec<(&str, bool)> =
        listed.iter().map(|i| (i.guid.as_str(), i.matches_rule)).collect();
    assert!(marked.contains(&("g1", true)) && marked.contains(&("g2", false)));
    let preview = MatchRule { includes: vec!["01".into()], ..Default::default() };
    assert!(preview_rule_match("A 01", &preview) && !preview_rule_match("A 02", &preview));
}

#[test]
fn items_name_what_to_download() {
    assert_eq!(rss_download_source(&item("g", "A", Some("t"))), Some("t"));
    assert_eq!(rss_download_source(&item("g", "A", None)), None);
    assert_eq!(
        rss_download_source(&item("g.TORRENT", "A", None)),
        Some("https://example.com/g.TORRENT")
    );
    let mut db = Database::open_in_memory().unwrap();
    let feed = subscribed(&mut db, 7);
    db.insert_rss_items(&feed.id, &vec![item("g2", "B", None)]).unwrap();
    assert_eq!(manual_download(&db, "g1").unwrap().1, "https://m/1.torrent");
    assert_eq!(manual_download(&db, "g2").err().unwrap(), "该 RSS 条目没有可下载地址");
    assert_eq!(manual_download(&db, "g9").err().unwrap(), "RSS 条目不存在");
}

#[test]
fn refresh_errors_are_gathered() {
    assert_eq!(refresh_summary(3, &Vec::new()), Ok(3));
    let fine = vec![("A".to_owned(), Ok(2)), ("B".to_owned(), Ok(3))];
    assert_eq!(refresh_all_rss_feeds(&fine), Ok(5));
    let mixed = vec![("A".to_owned(), Ok(2)), ("B".to_owned(), Err("x".to_owned()))];
    assert_eq!(refresh_all_rss_feeds(&mixed).unwrap_err(), "刷新完成，新增 2 条；失败：B：x");
    assert_eq!(refresh_all_rss_feeds(&Vec::new()), Ok(0));
    assert_eq!(
        refresh_summary(3, &vec!["A：x".into(), "B：y".into()]).unwrap_err(),
        "刷新完成，新增 3 条；失败：A：x；B：y"
    );
}

#[test]
fn batches_count_every_choice() {
    let mut db = Database::open_in_memory().unwrap();
    let feed = subscribed(&mut db, 7);
    db.insert_rss_items(
        &feed.id,
        &vec![
            item("g2", "B", None),
            item("g3", "C", Some("https://m/3.torrent")),
            item("g4", "D", Some("https://m/4.torrent")),
        ],
    )
    .unwrap();
    db.add_download(&task("t3", "completed"), "https://m/3.torrent", "https://m/3.torrent").unwrap();
    db.mark_rss_downloaded("g3", "t3").unwrap();
    assert!(batch_begin(&vec!["g".into(); 101]).is_err());
    let guids: Vec<String> = ["g1", "g2", "g3", "g4", "g9"].iter().map(|g| (*g).to_owned()).collect();
    let mut run = batch_begin(&guids).unwrap();
    for guid in &guids {
        match batch_item(&db, &mut run, guid) {
            BatchStep::Handled => {}
            BatchStep::Start { source, title, existed } => {
                let outcome = if source.ends_with("1.torrent") {
                    Ok("t1".to_owned())
                } else {
                    Err("no".to_owned())
                };
                batch_done(&mut db, &mut run, guid, &title, existed, outcome);
            }
        }
    }
    db.add_download(&task("t1", "queued"), "https://m/1.torrent", "https://m/1.torrent").unwrap();
    let result = batch_result(run);
    assert_eq!((result.added, result.reused, result.failed), (1, 1, 3));
    assert_eq!(result.errors, vec!["B：没有可下载地址", "D：no", "RSS 条目不存在"]);
    assert!(db.rss_item("g1").unwrap().downloaded);
}

#[test]
fn batch_numbers_exceed_the_choices_by_what_was_not_linked() {
    let mut db = Database::open_in_memory().unwrap();
    let feed = subscribed(&mut db, 7);
    let items: Vec<RssItem> = ["g2", "g3", "g4"]
        .iter()
        .map(|g| item(g, g, Some(&format!("https://m/{g}.torrent"))))
        .collect();
    db.insert_rss_items(&feed.id, &items).unwrap();
    let guids: Vec<String> = ["g2", "g3", "g4"].iter().map(|g| (*g).to_owned()).collect();
    let mut run = batch_begin(&guids).unwrap();
    for guid in &guids {
        let BatchStep::Start { title, existed, .. } = batch_item(&db, &mut run, guid) else {
            panic!("not started");
        };
        batch_done(&mut db, &mut run, guid, &title, existed, Ok(format!("t-{guid}")));
        if guid == "g3" {
            batch_unlinked(&mut run, &title, "disk full");
        }
    }
    let result = batch_result(run);
    assert_eq!((result.added, result.reused, result.failed), (3, 0, 1));
    assert_eq!(result.added + result.reused + result.failed, guids.len() + 1);
}

#[test]
fn subscriptions_are_named_and_start_from_what_is_there() {
    let mut db = Database::open_in_memory().unwrap();
    let items = vec![item("g1", "[喵萌] A 01", Some("https://m/1.torrent"))];
    let feed = subscribe_subject(&mut db, 7, "A", " 甲 ", None, "  ", &items).unwrap();
    assert_eq!(feed.title, "甲");
    assert_eq!(feed.subject_id, Some(7));
    let (added, picks) = refresh_feed(&mut db, &feed, "Mikan", &items).unwrap();
    assert!(added.is_empty() && picks.is_empty());
    let again = subscribe_subject(&mut db, 7, "A", "甲", None, "", &items);
    assert_eq!(again.err().unwrap(), "UNIQUE constraint failed: rss_feeds.url");
}

#[test]
fn a_download_that_could_not_be_linked_counts_and_is_told() {
    let mut run = batch_begin(&Vec::new()).unwrap();
    run.added = 1;
    batch_unlinked(&mut run, "A", "disk full");
    let result = batch_result(run);
    assert_eq!((result.added, result.reused, result.failed), (1, 0, 1));
    assert_eq!(result.errors, vec!["A：任务已添加，但关联 RSS 失败：disk full"]);
}

#[test]
fn new_feeds_only_fail_where_their_address_is_taken() {
    let mut db = Database::open_in_memory().unwrap();
    subscribed(&mut db, 7);
    for n in 0..5 {
        add_rss_feed(&mut db, format!("https://m/{n}"), "M".into(), &Vec::new()).unwrap();
    }
    assert_eq!(db.list_feeds().unwrap().len(), 6);
    assert_eq!(
        add_rss_feed(&mut db, "https://m/0".into(), "M".into(), &Vec::new()).err().unwrap(),
        "UNIQUE constraint failed: rss_feeds.url"
    );
}
