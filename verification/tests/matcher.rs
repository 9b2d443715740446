use mizuki::matcher::{MatchRule, normalize_title, resource_matches, title_holds};
use mizuki::models::FeedRule;

#[test]
fn normalizes_common_release_punctuation() {
    assert_eq!(
        normalize_title("[Nekomoe kissaten] Frieren - 08"),
        "nekomoekissatenfrieren08"
    );
}

#[test]
fn applies_include_exclude_and_quality_rules() {
    let rule = MatchRule {
        includes: vec!["简中".into()],
        excludes: vec!["720p".into()],
        resolution: Some("1080p".into()),
        subtitle_group: Some("喵萌".into()),
    };
    assert!(resource_matches("[喵萌奶茶屋] 芙莉莲 08 [1080P][简中]", &rule));
    assert!(!resource_matches("[喵萌奶茶屋] 芙莉莲 08 [720P][简中]", &rule));
}

#[test]
fn an_empty_rule_takes_everything() {
    let rule = MatchRule::default();
    assert!(resource_matches("", &rule));
    assert!(resource_matches("anything", &rule));
    assert!(resource_matches("anything", &MatchRule::from(&FeedRule::default())));
}

#[test]
fn letters_of_other_scripts_are_kept_and_lowered() {
    assert_eq!(normalize_title("ÀÉ_Ω!"), "àéω");
    assert_eq!(normalize_title("İ"), "i\u{307}");
    assert_eq!(normalize_title("ΟΔΟΣ"), "οδοσ");
    assert_eq!(normalize_title("①② ½"), "①②½");
    assert!(title_holds("[A-B] C", "ab c"));
    assert!(!title_holds("[A-B] C", "ac"));
}

#[test]
fn normalizing_twice_changes_nothing() {
    for title in ["[喵萌奶茶屋] 芙莉莲 08 [1080P]", "A-B_C", "", "Straße"] {
        let once = normalize_title(title);
        assert_eq!(normalize_title(&once), once);
    }
}

#[test]
fn every_part_of_a_rule_counts() {
    let group = MatchRule { subtitle_group: Some("喵萌".into()), ..Default::default() };
    assert!(!resource_matches("[桜都] A", &group));
    let size = MatchRule { resolution: Some("2160p".into()), ..Default::default() };
    assert!(!resource_matches("A 1080p", &size));
    let excluded = MatchRule { excludes: vec!["".into()], ..Default::default() };
    assert!(!resource_matches("A", &excluded));
}

#[test]
fn titles_are_normalized_part_by_part() {
    let title = "[喵萌奶茶屋] 芙莉莲 08 [1080P]";
    for (k, _) in title.char_indices() {
        let (a, b) = title.split_at(k);
        assert_eq!(normalize_title(title), normalize_title(a) + &normalize_title(b));
    }
    for blank in ["", "[]-_ ", "！？。"] {
        assert_eq!(normalize_title(blank), "");
    }
    for some in ["[a]", "①", "İ", "茶"] {
        assert!(!normalize_title(some).is_empty());
    }
    assert_eq!(normalize_title(&title.to_ascii_uppercase()), normalize_title(title));
    assert_ne!(normalize_title(&normalize_title("İ")), normalize_title("İ"));
}
