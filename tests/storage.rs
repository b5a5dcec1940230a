use supercell::matcher::find;
use supercell::order::text_less;
use supercell::storage::{checkpoint_text, page_limit, parse_checkpoint, parse_cursor, FeedContent};

#[test]
fn sort_key_round_trips() {
    for time_us in [0u64, 1, 0xffff_ffff, 0x1_0000_0000, 1730673934229172, u64::MAX] {
        let record = FeedContent::new("feed".to_string(), "uri".to_string(), time_us, "cid".to_string());
        assert_eq!(record.time_us(), time_us);
    }
}

#[test]
fn sort_key_halves() {
    let record = FeedContent::new(
        "feed".to_string(),
        "at://did:plc:qadlgs4xioohnhi2jg54mqds/app.bsky.feed.post/3la3bqjg4hx2n".to_string(),
        1730673934229172_u64,
        "bafyreih74qdc6zskq7yarqi3xm634vnubf4g3ac5ieegbvakprxpjnsj74".to_string(),
    );
    assert_eq!(record.indexed_at, (1730673934229172_u64 >> 32) as u32);
    assert_eq!(record.indexed_at_more, (1730673934229172_u64 & 0xffff_ffff) as u32);
    assert_eq!(record.feed_id, "feed");
    assert_eq!(
        record.uri,
        "at://did:plc:qadlgs4xioohnhi2jg54mqds/app.bsky.feed.post/3la3bqjg4hx2n"
    );
    assert_eq!(record.time_us(), 1730673934229172_u64);
}

#[test]
fn sort_key_orders_as_time() {
    let a = FeedContent::new(String::new(), String::new(), 0xffff_ffff, String::new());
    let b = FeedContent::new(String::new(), String::new(), 0x1_0000_0000, String::new());
    assert!((a.indexed_at, a.indexed_at_more) < (b.indexed_at, b.indexed_at_more));
}

#[test]
fn cursor_text_and_back() {
    let record = FeedContent::new("feed".to_string(), "uri".to_string(), 1730673934229172, "bafycid".to_string());
    let cursor = record.cursor();
    assert_eq!(cursor, "1730673934229172,bafycid");
    let parsed = parse_cursor(Some(cursor)).expect("cursor parses");
    assert_eq!(parsed.0, 1730673934229172);
    assert_eq!(parsed.1, record.indexed_at);
    assert_eq!(parsed.2, record.indexed_at_more);
    assert_eq!(parsed.3, "bafycid");
}

#[test]
fn cursor_edge_values() {
    let zero = FeedContent::new(String::new(), String::new(), 0, "c".to_string());
    assert_eq!(zero.cursor(), "0,c");
    let max = FeedContent::new(String::new(), String::new(), u64::MAX, String::new());
    assert_eq!(max.cursor(), "18446744073709551615,");
    assert_eq!(parse_cursor(Some(max.cursor())).unwrap().0, u64::MAX);
}

#[test]
fn malformed_cursors_give_nothing() {
    assert!(parse_cursor(None).is_none());
    assert!(parse_cursor(Some("".to_string())).is_none());
    assert!(parse_cursor(Some("123".to_string())).is_none());
    assert!(parse_cursor(Some("1,2,3".to_string())).is_none());
    assert!(parse_cursor(Some("abc,cid".to_string())).is_none());
    assert!(parse_cursor(Some(",cid".to_string())).is_none());
    assert!(parse_cursor(Some("18446744073709551616,cid".to_string())).is_none());
    let plus = parse_cursor(Some("+5,x".to_string())).unwrap();
    assert_eq!((plus.0, plus.3.as_str()), (5, "x"));
}

#[test]
fn page_limit_defaults_and_clamps() {
    assert_eq!(page_limit(None), 20);
    assert_eq!(page_limit(Some(0)), 1);
    assert_eq!(page_limit(Some(1)), 1);
    assert_eq!(page_limit(Some(50)), 50);
    assert_eq!(page_limit(Some(100)), 100);
    assert_eq!(page_limit(Some(500)), 100);
}

#[test]
fn checkpoint_text_round_trips() {
    assert_eq!(checkpoint_text(1730673934229172), "1730673934229172");
    assert_eq!(parse_checkpoint("1730673934229172"), Some(1730673934229172_u64));
    assert_eq!(parse_checkpoint("1730673934229173"), Some(1730673934229173_u64));
    assert_eq!(parse_checkpoint(&checkpoint_text(0)), Some(0));
    assert_eq!(parse_checkpoint(&checkpoint_text(u64::MAX)), Some(u64::MAX));
    assert_eq!(parse_checkpoint("nope"), None);
    assert_eq!(parse_checkpoint(""), None);
    assert_eq!(parse_checkpoint("-1"), None);
}

#[test]
fn text_order_is_by_code_point() {
    assert!(text_less("a", "b"));
    assert!(!text_less("b", "a"));
    assert!(text_less("", "a"));
    assert!(!text_less("a", ""));
    assert!(text_less("ab", "abc"));
    assert!(!text_less("abc", "abc"));
    assert!(text_less("z", "é"));
    assert!(text_less("bafyA", "bafya"));
}

#[test]
fn find_gives_first_occurrence() {
    let hay: Vec<char> = "abcabc".chars().collect();
    assert_eq!(find(&hay, &"bc".chars().collect()), Some(1));
    assert_eq!(find(&hay, &"".chars().collect()), Some(0));
    assert_eq!(find(&hay, &"cb".chars().collect()), None);
    assert_eq!(find(&hay, &"abcabcd".chars().collect()), None);
}
