use feed_relay::{run_tick, EntryStore, FeedEntry, InsertOutcome, Step, Tick};

fn entry(guid: &str, published: i64) -> FeedEntry {
    FeedEntry {
        guid: guid.to_string(),
        title: format!("title {}", guid),
        link: format!("https://example.com/{}", guid),
        published,
        body: String::new(),
    }
}

#[test]
fn second_insert_of_a_guid_is_refused() {
    let mut s = EntryStore::new();
    let g = "https://example.com/a".to_string();
    assert_eq!(s.insert(&g, 10), InsertOutcome::Inserted);
    assert_eq!(s.insert(&g, 20), InsertOutcome::DuplicateGuid);
    assert_eq!(s.len(), 1);
    assert!(s.contains(&g));
    assert_eq!(s.latest().map(|p| p.1), Some(10));
}

#[test]
fn latest_is_greatest_time_in_any_order() {
    let orders = [[1, 2, 3], [3, 1, 2], [2, 3, 1], [3, 2, 1]];
    for order in orders.iter() {
        let mut s = EntryStore::new();
        for t in order.iter() {
            s.insert(&format!("g{}", t), *t as i64 * 100);
        }
        assert_eq!(s.latest(), Some(("g3".to_string(), 300)));
    }
}

#[test]
fn latest_of_empty_store_is_none() {
    assert_eq!(EntryStore::new().latest(), None);
}

#[test]
fn latest_breaks_ties_by_later_insert() {
    let mut s = EntryStore::new();
    s.insert(&"a".to_string(), 5);
    s.insert(&"b".to_string(), 5);
    s.insert(&"c".to_string(), 4);
    assert_eq!(s.latest(), Some(("b".to_string(), 5)));
}

#[test]
fn backfill_stores_all_and_announces_none() {
    let mut s = EntryStore::new();
    let es = vec![entry("a", 3), entry("b", 1), entry("c", 2)];
    let out = run_tick(&mut s, &es);
    assert!(out.is_empty());
    assert_eq!(s.len(), 3);
}

#[test]
fn incremental_detection_picks_strictly_newer() {
    let mut s = EntryStore::new();
    s.insert(&"old".to_string(), 100);
    let es = vec![entry("a", 99), entry("b", 100), entry("c", 101), entry("d", 102)];
    let out = run_tick(&mut s, &es);
    assert_eq!(out, vec![2, 3]);
    assert_eq!(s.len(), 3);
    assert_eq!(s.latest(), Some(("d".to_string(), 102)));
}

#[test]
fn incremental_keeps_feed_order() {
    let mut s = EntryStore::new();
    s.insert(&"old".to_string(), 100);
    let es = vec![entry("x", 105), entry("y", 50), entry("z", 101)];
    assert_eq!(run_tick(&mut s, &es), vec![0, 2]);
}

#[test]
fn duplicate_new_entry_is_not_announced() {
    let mut s = EntryStore::new();
    s.insert(&"old".to_string(), 100);
    s.insert(&"dup".to_string(), 50);
    let es = vec![entry("dup", 200), entry("e", 201)];
    assert_eq!(run_tick(&mut s, &es), vec![1]);
    assert_eq!(s.len(), 3);
}

#[test]
fn second_tick_announces_nothing_new() {
    let mut s = EntryStore::new();
    s.insert(&"old".to_string(), 100);
    let es = vec![entry("a", 101), entry("b", 102)];
    assert_eq!(run_tick(&mut s, &es), vec![0, 1]);
    assert_eq!(run_tick(&mut s, &es), Vec::<usize>::new());
    assert_eq!(s.len(), 3);
}

#[test]
fn failed_insert_does_not_stop_the_tick() {
    let es = vec![entry("a", 11), entry("b", 12), entry("c", 13)];
    let mut t = Tick::start(&es, Some(10));
    assert!(!t.is_backfill());
    assert_eq!(t.next_step(), Step::Insert(0));
    assert!(!t.should_notify(InsertOutcome::Failed));
    assert_eq!(t.next_step(), Step::Insert(1));
    assert!(!t.should_notify(InsertOutcome::DuplicateGuid));
    assert_eq!(t.next_step(), Step::Insert(2));
    assert!(t.should_notify(InsertOutcome::Inserted));
    assert_eq!(t.next_step(), Step::Done);
    assert_eq!(t.next_step(), Step::Done);
}

#[test]
fn backfill_tick_never_notifies() {
    let es = vec![entry("a", 1)];
    let mut t = Tick::start(&es, None);
    assert!(t.is_backfill());
    assert_eq!(t.next_step(), Step::Insert(0));
    assert!(!t.should_notify(InsertOutcome::Inserted));
    assert_eq!(t.next_step(), Step::Done);
}
