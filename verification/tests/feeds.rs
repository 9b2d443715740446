use mizuki::feeds::{
    MAX_NESTING, RawItem, assemble_items, check_feed_url, download_link, nested_pub_dates,
    parse_feed,
};
use mizuki::markup::extension_nesting;

#[test]
fn reads_mikan_nested_pub_date() {
    let xml = "<rss><channel><item><title>A</title><torrent xmlns=\"x\"><pubDate>Fri, 28 Aug 2026 12:00:00 GMT</pubDate></torrent></item></channel></rss>";
    assert_eq!(
        nested_pub_dates(xml),
        vec![Some("Fri, 28 Aug 2026 12:00:00 GMT".into())]
    )
}

#[test]
fn items_without_a_date_are_counted_too() {
    let xml = "<item></item><item><pubDate> x </pubDate></item>";
    assert_eq!(nested_pub_dates(xml), vec![None, Some("x".into())]);
    assert!(nested_pub_dates("<rss></rss>").is_empty());
}

#[test]
fn reads_a_whole_feed() {
    let xml = "<?xml version=\"1.0\"?><rss version=\"2.0\"><channel><title>Mikan</title><link>https://m</link><description>d</description>\
        <item><guid isPermaLink=\"false\">g1</guid><title>A</title><link>https://m/1</link>\
        <enclosure url=\"https://m/1.torrent\" length=\"1\" type=\"application/x-bittorrent\"/>\
        <torrent xmlns=\"x\"><pubDate>2026-08-28</pubDate></torrent></item>\
        </channel></rss>";
    let (title, items) = parse_feed(xml.as_bytes()).unwrap();
    assert_eq!(title, "Mikan");
    assert_eq!(items.len(), 1);
    assert_eq!(items[0].guid, "g1");
    assert_eq!(items[0].title, "A");
    assert_eq!(items[0].torrent.as_deref(), Some("https://m/1.torrent"));
    assert_eq!(items[0].published_at.as_deref(), Some("2026-08-28"));
    assert!(!items[0].downloaded && items[0].download.is_none());
    assert!(parse_feed(b"not a feed").is_err());
}

#[test]
fn bare_items_get_their_names_from_their_links() {
    let raw = vec![RawItem {
        title: None,
        link: Some("https://m/1.torrent".into()),
        enclosure: None,
        guid: None,
        pub_date: Some("p".into()),
        extensions: Vec::new(),
    }];
    let items = assemble_items(&raw, &Vec::new());
    assert_eq!(items[0].guid, "https://m/1.torrent");
    assert_eq!(items[0].torrent, None);
    assert_eq!(items[0].published_at.as_deref(), Some("p"));
}

#[test]
fn download_links_and_feed_addresses() {
    assert!(download_link("magnet:?xt=a"));
    assert!(download_link("https://m/a.torrent"));
    assert!(download_link("http://m/a"));
    assert!(!download_link("ftp://m/a"));
    assert!(check_feed_url("https://m/rss").is_ok());
    assert!(check_feed_url("http://m/rss").is_ok());
    assert_eq!(
        check_feed_url("ftp://m/rss").unwrap_err(),
        "RSS 地址必须使用 HTTP 或 HTTPS"
    );
    assert_eq!(check_feed_url("not a url").unwrap_err(), "RSS 地址无效");
}

#[test]
fn dates_come_item_by_item() {
    let first = "<rss><item><pubDate>1</pubDate></item><item/>";
    let second = "<item><x:pubDate>2</x:pubDate></item><items>";
    let mut expected = nested_pub_dates(first);
    expected.extend(nested_pub_dates(second));
    let both = format!("{first}{second}");
    assert_eq!(nested_pub_dates(&both), expected);
    assert_eq!(expected.len(), both.matches("<item").count());
    assert_eq!(expected, vec![Some("1".to_owned()), None, Some("2".to_owned()), None]);
}

#[test]
fn only_elements_inside_extensions_are_counted() {
    let item = |inner: &str| format!("<rss><channel><item>{inner}</item></channel></rss>");
    for (text, deepest) in [
        (String::new(), 0),
        ("text".into(), 0),
        ("<x:a><x:b/></x:a>".into(), 0),
        (item("<a><b><c/></b></a>"), 0),
        (item("<x:a/>"), 1),
        (item("<x:a></x:a>"), 1),
        (item("<x:a><b/><c></c></x:a>"), 2),
        (item("<x:a></x:a><x:a></x:a><x:a></x:a>"), 1),
        (item("<x:a\n y='1'><b></b></x:a>"), 2),
        (item("<:a><b/></:a>"), 0),
        (item("<a:><b/></a:>"), 2),
        (item("<description><x:a><b/></x:a></description>"), 0),
        (item("<content:encoded><x:a><b/></x:a></content:encoded>"), 0),
        (item("<x:a><!-- <b><c> --></x:a>"), 1),
        (item("<x:a><!--> <b></b> --></x:a>"), 1),
        (item("<x:a><![CDATA[</x:a></x:a><b>]]><b></b></x:a>"), 2),
        (item("<x:a p='<b>' q=\">\"><b></b></x:a>"), 2),
        (item("<x:a><?p <b> ?><!x><b></b></x:a>"), 1),
        (item("<a\0><b/></a\0>"), 2),
        ("<rss><channel><x:a><b/></x:a><content:encoded><b/></content:encoded></channel></rss>".into(), 2),
        ("<rss><channel><image><x:a><b/></x:a></image></channel></rss>".into(), 0),
        ("<rss><x:a><b/></x:a><item><x:a><b/></x:a></item></rss>".into(), 2),
        ("<rss><x:a><b/></x:a></rss>".into(), 0),
        ("<rdf:RDF><channel/><item><dc:a/></item></rdf:RDF>".into(), 1),
        ("<rss><channel/></rss><channel><x:a/></channel>".into(), 0),
        ("<rss/><channel><x:a/></channel>".into(), 0),
        ("<!DOCTYPE rss SYSTEM \"<a>\"><rss><item><x:a/></item></rss>".into(), 1),
        (
            "<!DOCTYPE rss [<!ENTITY x \"]><b>\"> <!ELEMENT b (#PCDATA)> <!-- ]> --> <?y ]> ?>]>\
             <rss><item><x:a><b/></x:a></item></rss>"
                .into(),
            2,
        ),
        ("<rss><item><x:a><b><c".into(), 2),
    ] {
        assert_eq!(extension_nesting(text.as_bytes()), deepest, "{text}");
    }
}

fn nested_feed(outer: &str, levels: usize) -> String {
    format!(
        "<rss><channel><title>M</title><item><title>A</title><{outer}>{}{}</{outer}>\
         <torrent:link>https://m/1</torrent:link></item></channel></rss>",
        "<z>".repeat(levels),
        "</z>".repeat(levels)
    )
}

#[test]
fn elements_outside_extensions_may_be_nested_as_deep_as_they_like() {
    for outer in ["description", "other", "title", "content:encoded"] {
        for levels in [130, MAX_NESTING + 1, 100_000] {
            let (title, items) = parse_feed(nested_feed(outer, levels).as_bytes()).unwrap();
            assert_eq!(title, "M");
            assert_eq!(items.len(), 1);
            assert_eq!(items[0].torrent.as_deref(), Some("https://m/1"));
        }
    }
}

#[test]
fn extensions_that_are_nested_too_deep_are_refused() {
    let levels = MAX_NESTING - 1;
    let deepest = nested_feed("x:y", levels);
    assert_eq!(extension_nesting(deepest.as_bytes()), MAX_NESTING);
    let (title, items) = parse_feed(deepest.as_bytes()).unwrap();
    assert_eq!(title, "M");
    assert_eq!(items[0].torrent.as_deref(), Some("https://m/1"));
    for more in [levels + 1, 1_000_000] {
        assert_eq!(
            parse_feed(nested_feed("x:y", more).as_bytes()).unwrap_err(),
            "无法解析 RSS: 嵌套层级过深"
        );
    }
}
