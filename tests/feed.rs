use feed_relay::{extract, or_empty, parse_feed, raw_item, FeedEntry, FetchError, ItemFields};

const DOC: &str = "<?xml version=\"1.0\"?>\
<rss version=\"2.0\" xmlns:content=\"http://purl.org/rss/1.0/modules/content/\">\
<channel><title>Jobs</title><link>https://example.com</link><description>d</description>\
<item><title>A</title><link>https://example.com/a</link><guid>https://example.com/a</guid>\
<pubDate>Wed, 18 Feb 2015 23:16:09 GMT</pubDate>\
<content:encoded><![CDATA[Nice<b>Hourly Range</b>: $9<b>Country</b>: US]]></content:encoded></item>\
<item><title>B</title></item>\
</channel></rss>";

#[test]
fn feed_items_are_read_in_order() {
    let items = parse_feed(DOC).unwrap();
    assert_eq!(items.len(), 2);
    assert_eq!(items[0].title, "A");
    assert_eq!(items[0].guid, "https://example.com/a");
    assert_eq!(items[0].link, "https://example.com/a");
    assert_eq!(items[0].pub_date, "Wed, 18 Feb 2015 23:16:09 GMT");
    let e = FeedEntry::from_raw(items.into_iter().next().unwrap()).unwrap();
    assert_eq!(e.published, 1424301369);
    assert_eq!(extract(&e.body).location, "US");
}

#[test]
fn missing_item_fields_are_empty() {
    let items = parse_feed(DOC).unwrap();
    assert_eq!(items[1].title, "B");
    assert_eq!(items[1].guid, "");
    assert_eq!(items[1].link, "");
    assert_eq!(items[1].pub_date, "");
    assert_eq!(items[1].content, "");
}

#[test]
fn malformed_document_is_a_parse_error() {
    assert_eq!(parse_feed("this is not a feed").err(), Some(FetchError::Parse));
}

#[test]
fn or_empty_keeps_present_text() {
    assert_eq!(or_empty(&Some("x".to_string())), "x");
    assert_eq!(or_empty(&None), "");
}

#[test]
fn raw_item_keeps_present_fields_and_empties_missing() {
    let f = ItemFields {
        guid: Some("g".to_string()),
        title: None,
        link: Some("https://example.com/l".to_string()),
        pub_date: None,
        content: Some("body".to_string()),
    };
    let r = raw_item(&f);
    assert_eq!(r.guid, "g");
    assert_eq!(r.title, "");
    assert_eq!(r.link, "https://example.com/l");
    assert_eq!(r.pub_date, "");
    assert_eq!(r.content, "body");
}
