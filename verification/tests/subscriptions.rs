use mizuki::models::SubjectRssState;
use mizuki::subscriptions::{build_mikan_rss_url, compute_update_state, default_subscription_rule};

#[test]
fn builds_mikan_per_subject_rss_url() {
    assert_eq!(
        build_mikan_rss_url(4052),
        "https://mikanani.me/RSS/Bangumi?bangumiId=4052"
    );
}

#[test]
fn default_rule_auto_downloads_and_keeps_subtitle_preference() {
    let rule = default_subscription_rule(Some(" 喵萌奶茶屋 "));
    assert!(rule.auto_download);
    assert_eq!(rule.subtitle_group.as_deref(), Some("喵萌奶茶屋"));
    assert!(rule.includes.is_empty() && rule.excludes.is_empty());
    let without = default_subscription_rule(None);
    assert!(without.subtitle_group.is_none());
    let blank = default_subscription_rule(Some("  "));
    assert!(blank.subtitle_group.is_none(), "空白字幕组偏好视为未设置");
}

#[test]
fn rss_states_take_priority_over_heuristics() {
    let rss = SubjectRssState { downloading: true, completed: true, pending: true };
    assert_eq!(
        compute_update_state(Some("collect"), 12, 12, 1, 1, Some(&rss)),
        "downloading",
        "下载中优先于其他状态"
    );
    let rss = SubjectRssState { downloading: false, completed: true, pending: true };
    assert_eq!(
        compute_update_state(Some("doing"), 3, 12, 1, 1, Some(&rss)),
        "published",
        "已有下载但存在未下载的新资源时，有更新不能被已下载挡住"
    );
    let rss = SubjectRssState { downloading: false, completed: true, pending: false };
    assert_eq!(
        compute_update_state(Some("collect"), 12, 12, 1, 1, Some(&rss)),
        "completed",
        "匹配资源全部下载完才显示已下载"
    );
    let rss = SubjectRssState { downloading: false, completed: false, pending: true };
    assert_eq!(
        compute_update_state(Some("collect"), 12, 12, 3, 3, Some(&rss)),
        "published"
    );
}

#[test]
fn airing_today_heuristic_only_for_unfinished_doing() {
    assert_eq!(compute_update_state(Some("doing"), 3, 12, 2, 2, None), "published");
    assert_eq!(compute_update_state(Some("doing"), 12, 12, 2, 2, None), "none");
    assert_eq!(compute_update_state(Some("wish"), 0, 12, 2, 2, None), "none");
    assert_eq!(compute_update_state(Some("doing"), 3, 12, 3, 2, None), "none");
    assert_eq!(compute_update_state(Some("doing"), 3, 0, 2, 2, None), "none");
}

#[test]
fn feeds_without_resources_leave_the_heuristic() {
    let rss = SubjectRssState { downloading: false, completed: false, pending: false };
    assert_eq!(compute_update_state(Some("doing"), 3, 12, 2, 2, Some(&rss)), "published");
    assert_eq!(compute_update_state(None, 3, 12, 2, 2, Some(&rss)), "none");
}

#[test]
fn feeds_of_different_subjects_differ() {
    assert_ne!(build_mikan_rss_url(1), build_mikan_rss_url(11));
    assert_eq!(build_mikan_rss_url(-3), "https://mikanani.me/RSS/Bangumi?bangumiId=-3");
}
