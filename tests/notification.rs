use feed_relay::{extract, notify, render, Delivery, EntryError, FeedEntry, RawItem};

fn raw(date: &str) -> RawItem {
    RawItem {
        guid: "https://example.com/job/1".to_string(),
        title: "Rust developer".to_string(),
        link: "https://example.com/job/1?src=rss".to_string(),
        pub_date: date.to_string(),
        content: "Build things.<b>Hourly Range</b>: $40-70<b>Country</b>: Vietnam<b>Category</b>: Backend<b>Skills</b>: Rust, Tokio".to_string(),
    }
}

#[test]
fn raw_item_with_rfc2822_date_becomes_entry() {
    let e = FeedEntry::from_raw(raw("Wed, 18 Feb 2015 23:16:09 GMT")).unwrap();
    assert_eq!(e.published, 1424301369);
    assert_eq!(e.guid, "https://example.com/job/1");
    assert_eq!(e.title, "Rust developer");
}

#[test]
fn raw_item_with_offset_date() {
    let e = FeedEntry::from_raw(raw("Thu, 19 Feb 2015 06:16:09 +0700")).unwrap();
    assert_eq!(e.published, 1424301369);
}

#[test]
fn raw_item_with_bad_date_is_refused() {
    assert!(matches!(FeedEntry::from_raw(raw("yesterday")), Err(EntryError::BadDate)));
    assert!(matches!(FeedEntry::from_raw(raw("")), Err(EntryError::BadDate)));
}

#[test]
fn rendering_fills_every_field() {
    let e = FeedEntry::from_raw(raw("Wed, 18 Feb 2015 23:16:09 GMT")).unwrap();
    let f = extract(&e.body);
    let n = render(&e, &f, "C123");
    assert_eq!(n.channel, "C123");
    assert_eq!(n.title, "*Rust developer*");
    assert_eq!(n.summary, "Build things.");
    assert_eq!(n.posted_on, "*Posted On*: \nThu, 19 Feb 2015 06:16:09");
    assert_eq!(n.hourly_range, "*Hourly Range*: \n$40-70");
    assert_eq!(n.location, "*Location*: \nVietnam");
    assert_eq!(n.category, "*Category*: \nBackend");
    assert_eq!(n.skills, "Rust, Tokio");
    assert_eq!(n.url, "https://example.com/job/1");
}

#[test]
fn dry_run_only_shows_payload() {
    let e = FeedEntry::from_raw(raw("Wed, 18 Feb 2015 23:16:09 GMT")).unwrap();
    let n = render(&e, &extract(&e.body), "C1");
    match notify(n, true) {
        Delivery::Show(m) => assert_eq!(m.hourly_range, "*Hourly Range*: \n$40-70"),
        Delivery::Post(_) => panic!("a dry run must not post"),
    }
}

#[test]
fn live_run_posts_payload() {
    let e = FeedEntry::from_raw(raw("Wed, 18 Feb 2015 23:16:09 GMT")).unwrap();
    let n = render(&e, &extract(&e.body), "C1");
    match notify(n, false) {
        Delivery::Post(m) => assert_eq!(m.channel, "C1"),
        Delivery::Show(_) => panic!("a live run posts"),
    }
}

#[test]
fn entry_without_guid_is_keyed_by_link() {
    let mut r = raw("Wed, 18 Feb 2015 23:16:09 GMT");
    r.guid = String::new();
    let e = FeedEntry::from_raw(r).unwrap();
    assert_eq!(e.guid, "https://example.com/job/1?src=rss");
}
