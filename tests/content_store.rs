use supercell::content_store::{ContentStore, RETAINED_ROWS};
use supercell::storage::{parse_cursor, FeedContent};

fn content(feed: &str, uri: &str, time_us: u64, cid: &str) -> FeedContent {
    FeedContent::new(feed.to_string(), uri.to_string(), time_us, cid.to_string())
}

#[test]
fn upsert_same_uri_twice_keeps_latest() {
    let mut store = ContentStore::new();
    store.upsert(content("feed", "at://a", 10, "cid1"), 1);
    store.upsert(content("feed", "at://a", 20, "cid2"), 2);
    let rows: Vec<_> = store
        .rows()
        .iter()
        .filter(|row| row.content.feed_id == "feed" && row.content.uri == "at://a")
        .collect();
    assert_eq!(rows.len(), 1);
    assert_eq!(rows[0].content.cid, "cid2");
    assert_eq!(rows[0].content.time_us(), 20);
    assert_eq!(rows[0].updated_at, 2);
}

#[test]
fn upsert_keeps_other_feeds_apart() {
    let mut store = ContentStore::new();
    store.upsert(content("one", "at://a", 10, "cid"), 1);
    store.upsert(content("two", "at://a", 10, "cid"), 1);
    assert_eq!(store.rows().len(), 2);
}

#[test]
fn paginate_orders_newest_first_and_filters_feed() {
    let mut store = ContentStore::new();
    store.upsert(content("feed", "at://1", 100, "c"), 1);
    store.upsert(content("feed", "at://2", 300, "c"), 1);
    store.upsert(content("feed", "at://3", 200, "c"), 1);
    store.upsert(content("other", "at://4", 400, "c"), 1);
    let page = store.paginate("feed", None, None);
    let uris: Vec<&str> = page.iter().map(|row| row.uri.as_str()).collect();
    assert_eq!(uris, vec!["at://2", "at://3", "at://1"]);
    assert!(store.paginate("missing", None, None).is_empty());
}

#[test]
fn paginate_breaks_ties_by_cid_descending() {
    let mut store = ContentStore::new();
    store.upsert(content("feed", "at://x", 100, "bafya"), 1);
    store.upsert(content("feed", "at://y", 100, "bafyc"), 1);
    store.upsert(content("feed", "at://z", 100, "bafyb"), 1);
    let page = store.paginate("feed", Some(10), None);
    let cids: Vec<&str> = page.iter().map(|row| row.cid.as_str()).collect();
    assert_eq!(cids, vec!["bafyc", "bafyb", "bafya"]);
}

#[test]
fn pages_follow_cursors_without_repeats_or_gaps() {
    let mut store = ContentStore::new();
    for i in 0..45u64 {
        store.upsert(content("feed", &format!("at://post/{}", i), 1000 + i, &format!("cid{}", i)), i as i64);
    }
    let mut seen: Vec<String> = Vec::new();
    let mut cursor = None;
    loop {
        let page = store.paginate("feed", Some(20), parse_cursor(cursor.clone()));
        for row in page.iter() {
            if let Some(c) = &cursor {
                let parsed = parse_cursor(Some(c.clone())).unwrap();
                assert!((row.indexed_at, row.indexed_at_more) <= (parsed.1, parsed.2));
            }
            assert!(!seen.contains(&row.uri));
            seen.push(row.uri.clone());
        }
        if page.len() < 20 {
            break;
        }
        cursor = Some(page.last().unwrap().cursor());
    }
    assert_eq!(seen.len(), 45);
    assert_eq!(seen[0], "at://post/44");
    assert_eq!(seen[44], "at://post/0");
}

#[test]
fn paginate_limit_is_clamped() {
    let mut store = ContentStore::new();
    for i in 0..150u64 {
        store.upsert(content("feed", &format!("at://post/{}", i), i, "c"), 0);
    }
    assert_eq!(store.paginate("feed", None, None).len(), 20);
    assert_eq!(store.paginate("feed", Some(0), None).len(), 1);
    assert_eq!(store.paginate("feed", Some(1000), None).len(), 100);
}

#[test]
fn prune_after_600_matches_keeps_the_newest() {
    let mut store = ContentStore::new();
    for i in 1..=600u64 {
        store.upsert(content("feed", &format!("at://post/{}", i), i, "c"), i as i64);
    }
    store.upsert(content("other", "at://post/x", 1, "c"), 0);
    let removed = store.truncate("feed");
    assert_eq!(removed.len(), 99);
    let kept: Vec<_> = store.rows().iter().filter(|row| row.content.feed_id == "feed").collect();
    assert_eq!(kept.len(), RETAINED_ROWS + 1);
    assert!(kept.iter().all(|row| row.updated_at >= 100));
    assert!(removed.iter().all(|row| row.time_us() < 100));
    assert_eq!(store.rows().iter().filter(|row| row.content.feed_id == "other").count(), 1);
}

#[test]
fn prune_leaves_small_feeds_alone() {
    let mut store = ContentStore::new();
    for i in 0..500u64 {
        store.upsert(content("feed", &format!("at://post/{}", i), i, "c"), i as i64);
    }
    assert!(store.truncate("feed").is_empty());
    assert_eq!(store.rows().len(), 500);
}

#[test]
fn prune_keeps_ties_at_the_mark() {
    let mut store = ContentStore::new();
    for i in 0..510u64 {
        let updated = if i < 495 { 1000 + i as i64 } else { 7 };
        store.upsert(content("feed", &format!("at://post/{}", i), i, "c"), updated);
    }
    // 495 rows are newer than 7 and 15 tie at 7: the mark is 7 and all 510 stay.
    assert!(store.truncate("feed").is_empty());
    assert_eq!(store.rows().len(), 510);
}

#[test]
fn record_feed_content() {
    let record = FeedContent::new(
        "feed".to_string(),
        "at://did:plc:qadlgs4xioohnhi2jg54mqds/app.bsky.feed.post/3la3bqjg4hx2n".to_string(),
        1730673934229172_u64,
        "bafyreih74qdc6zskq7yarqi3xm634vnubf4g3ac5ieegbvakprxpjnsj74".to_string(),
    );
    let mut store = ContentStore::new();
    store.upsert(record, 1);

    let records = store.paginate("feed", None, None);

    assert_eq!(records.len(), 1);
    assert_eq!(records[0].feed_id, "feed");
    assert_eq!(
        records[0].uri,
        "at://did:plc:qadlgs4xioohnhi2jg54mqds/app.bsky.feed.post/3la3bqjg4hx2n"
    );
    assert_eq!(records[0].time_us(), 1730673934229172_u64);
}
