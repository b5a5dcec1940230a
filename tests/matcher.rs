use supercell::config;
use supercell::matcher::{EqualsMatcher, FeedMatchers, MatcherError, PrefixMatcher, SequenceMatcher};

#[test]
fn equals_matcher() {
    let raw_json = r#"{
    "did": "did:plc:tgudj2fjm77pzkuawquqhsxm",
    "time_us": 1730491093829414,
    "kind": "commit",
    "commit": {
        "rev": "3l7vxhiuibq2u",
        "operation": "create",
        "collection": "app.bsky.feed.post",
        "rkey": "3l7vxhiu4kq2u",
        "record": {
            "$type": "app.bsky.feed.post",
            "createdAt": "2024-11-01T19:58:12.980Z",
            "langs": ["en", "es"],
            "text": "hey dnd question, what does a 45 on a stealth check look like"
        },
        "cid": "bafyreide7jpu67vvkn4p2iznph6frbwv6vamt7yg5duppqjqggz4sdfik4"
    }
}"#;

    let value: serde_json::Value = serde_json::from_str(raw_json).expect("json is valid");

    let tests = vec![
        ("$.did", "did:plc:tgudj2fjm77pzkuawquqhsxm", true),
        ("$.commit.record['$type']", "app.bsky.feed.post", true),
        ("$.commit.record.langs.*", "en", true),
        (
            "$.commit.record.text",
            "hey dnd question, what does a 45 on a stealth check look like",
            true,
        ),
        ("$.did", "did:plc:tgudj2fjm77pzkuawquqhsxn", false),
        ("$.commit.record.notreal", "value", false),
    ];

    for (path, expected, result) in tests {
        let matcher = EqualsMatcher::new(expected, path).expect("matcher is valid");
        assert_eq!(matcher.matches(&value), result);
    }
}

#[test]
fn prefix_matcher() {
    let raw_json = r#"{
    "did": "did:plc:tgudj2fjm77pzkuawquqhsxm",
    "time_us": 1730491093829414,
    "kind": "commit",
    "commit": {
        "rev": "3l7vxhiuibq2u",
        "operation": "create",
        "collection": "app.bsky.feed.post",
        "rkey": "3l7vxhiu4kq2u",
        "record": {
            "$type": "app.bsky.feed.post",
            "createdAt": "2024-11-01T19:58:12.980Z",
            "langs": ["en"],
            "text": "hey dnd question, what does a 45 on a stealth check look like",
            "facets": [
                {
                    "features": [{"$type": "app.bsky.richtext.facet#tag", "tag": "dungeonsanddragons"}],
                    "index": { "byteEnd": 1, "byteStart": 0 }
                },
                {
                    "features": [{"$type": "app.bsky.richtext.facet#tag", "tag": "gaming"}],
                    "index": { "byteEnd": 1, "byteStart": 0 }
                }
            ]
        },
        "cid": "bafyreide7jpu67vvkn4p2iznph6frbwv6vamt7yg5duppqjqggz4sdfik4"
    }
}"#;

    let value: serde_json::Value = serde_json::from_str(raw_json).expect("json is valid");

    let tests = vec![
        ("$.commit.record['$type']", "app.bsky.", true),
        ("$.commit.record.langs.*", "e", true),
        ("$.commit.record.text", "hey dnd question", true),
        ("$.commit.record.facets[*].features[?(@['$type'] == 'app.bsky.richtext.facet#tag')].tag", "dungeons", true),
        ("$.commit.record.notreal", "value", false),
        ("$.commit.record['$type']", "com.bsky.", false),
    ];

    for (path, prefix, result) in tests {
        let matcher = PrefixMatcher::new(prefix, path).expect("matcher is valid");
        assert_eq!(matcher.matches(&value), result);
    }
}

#[test]
fn sequence_matcher() {
    let raw_json = r#"{
    "did": "did:plc:tgudj2fjm77pzkuawquqhsxm",
    "time_us": 1730491093829414,
    "kind": "commit",
    "commit": {
        "rev": "3l7vxhiuibq2u",
        "operation": "create",
        "collection": "app.bsky.feed.post",
        "rkey": "3l7vxhiu4kq2u",
        "record": {
            "$type": "app.bsky.feed.post",
            "createdAt": "2024-11-01T19:58:12.980Z",
            "langs": ["en"],
            "text": "hey dnd question, what does a 45 on a stealth check look like",
            "facets": [
                {
                    "features": [{"$type": "app.bsky.richtext.facet#tag", "tag": "dungeonsanddragons"}],
                    "index": { "byteEnd": 1, "byteStart": 0 }
                },
                {
                    "features": [{"$type": "app.bsky.richtext.facet#tag", "tag": "gaming"}],
                    "index": { "byteEnd": 1, "byteStart": 0 }
                }
            ]
        },
        "cid": "bafyreide7jpu67vvkn4p2iznph6frbwv6vamt7yg5duppqjqggz4sdfik4"
    }
}"#;

    let value: serde_json::Value = serde_json::from_str(raw_json).expect("json is valid");

    let tests: Vec<(&str, Vec<String>, bool)> = vec![
        (
            "$.commit.record.text",
            vec!["hey".into(), "dnd".into(), "question".into()],
            true,
        ),
        (
            "$.commit.record.facets[*].features[?(@['$type'] == 'app.bsky.richtext.facet#tag')].tag",
            vec!["dungeons".into(), "and".into(), "dragons".into()],
            true,
        ),
        (
            "$.commit.record.text",
            vec!["hey".into(), "question".into(), "dnd".into()],
            false,
        ),
        (
            "$.commit.record.operation",
            vec!["hey".into(), "dnd".into(), "question".into()],
            false,
        ),
        (
            "$.commit.record.text",
            vec!["hey".into(), "nick".into()],
            false,
        ),
    ];

    for (path, values, result) in tests {
        let matcher = SequenceMatcher::new(&values, path).expect("matcher is valid");
        assert_eq!(matcher.matches(&value), result);
    }
}

#[test]
fn sequence_matcher_edge_case_1() {
    let raw_json = r#"{"text": "Stellwerkstörung. Und Signalstörung.  Und der Alternativzug ist auch ausgefallen. Und überhaupt."}"#;
    let value: serde_json::Value = serde_json::from_str(raw_json).expect("json is valid");
    let matcher =
        SequenceMatcher::new(&vec!["smoke".to_string(), "signal".to_string()], "$.text")
            .expect("matcher is valid");
    assert_eq!(matcher.matches(&value), false);
}

#[test]
fn matching_ignores_case_on_both_sides() {
    let value: serde_json::Value =
        serde_json::from_str(r#"{"text": "Hello WORLD", "tags": ["Rust", "Verus"]}"#).unwrap();
    let equal = EqualsMatcher::new("HELLO world", "$.text").unwrap();
    assert!(equal.matches(&value));
    let prefix = PrefixMatcher::new("VER", "$.tags.*").unwrap();
    assert!(prefix.matches(&value));
    let sequence =
        SequenceMatcher::new(&vec!["HELLO".to_string(), "world".to_string()], "$.text").unwrap();
    assert!(sequence.matches(&value));
}

#[test]
fn matches_lowered_exact_values() {
    let equal = EqualsMatcher::new("Abc", "$.a").unwrap();
    assert!(equal.matches_lowered("abc"));
    assert!(!equal.matches_lowered("Abc"));
    let prefix = PrefixMatcher::new("ab", "$.a").unwrap();
    assert!(prefix.matches_lowered("abc"));
    assert!(prefix.matches_lowered("ab"));
    assert!(!prefix.matches_lowered("a"));
    let sequence =
        SequenceMatcher::new(&vec!["b".to_string(), "a".to_string()], "$.a").unwrap();
    // "a" first occurs at 0, before "b": the order is not met.
    assert!(!sequence.matches_lowered("aba"));
    assert!(sequence.matches_lowered("ba"));
}

#[test]
fn sequence_matcher_needs_increasing_first_occurrences() {
    let twice = SequenceMatcher::new(&vec!["ab".to_string(), "ab".to_string()], "$.a").unwrap();
    assert!(!twice.matches_lowered("abab"));
    let gaps =
        SequenceMatcher::new(&vec!["x".to_string(), "z".to_string()], "$.a").unwrap();
    assert!(gaps.matches_lowered("x--y--z"));
    let empty = SequenceMatcher::new(&Vec::new(), "$.a").unwrap();
    assert!(!empty.matches_lowered("anything"));
}

#[test]
fn matches_leaves_checks_each_leaf() {
    let equal = EqualsMatcher::new("b", "$.a").unwrap();
    assert!(equal.matches_leaves(&vec!["A".to_string(), "B".to_string()]));
    assert!(!equal.matches_leaves(&vec![]));
    let sequence =
        SequenceMatcher::new(&vec!["one".to_string(), "two".to_string()], "$.a").unwrap();
    assert!(sequence.matches_leaves(&vec!["two one".to_string(), "ONE TWO".to_string()]));
    assert!(!sequence.matches_leaves(&vec!["two one".to_string()]));
}

#[test]
fn invalid_path_is_refused() {
    assert!(matches!(
        EqualsMatcher::new("x", "not a path"),
        Err(MatcherError::InvalidPath { .. })
    ));
    assert!(PrefixMatcher::new("x", "$[").is_err());
    assert!(SequenceMatcher::new(&vec!["x".to_string()], "").is_err());
}

fn feed(uri: &str, matchers: Vec<config::Matcher>) -> config::Feed {
    config::Feed {
        uri: uri.to_string(),
        name: "name".to_string(),
        description: "description".to_string(),
        allow: vec![],
        deny: "deny".to_string(),
        matchers,
    }
}

#[test]
fn from_config_compiles_every_feed_or_fails() {
    let good = config::Feeds {
        feeds: vec![
            feed(
                "at://feed/a",
                vec![config::Matcher::Equal { path: "$.did".to_string(), value: "did:plc:x".to_string() }],
            ),
            feed("at://feed/b", vec![]),
        ],
    };
    let compiled = FeedMatchers::from_config(&good).expect("rules compile");
    assert_eq!(compiled.0.len(), 2);
    assert_eq!(compiled.0[0].feed, "at://feed/a");
    let value: serde_json::Value = serde_json::from_str(r#"{"did": "DID:PLC:X"}"#).unwrap();
    assert!(compiled.0[0].matches(&value));
    assert!(!compiled.0[1].matches(&value));

    let bad = config::Feeds {
        feeds: vec![feed(
            "at://feed/a",
            vec![
                config::Matcher::Prefix { path: "$.did".to_string(), value: "did".to_string() },
                config::Matcher::Sequence { path: "$$".to_string(), values: vec![] },
            ],
        )],
    };
    assert!(FeedMatchers::from_config(&bad).is_err());
}

#[test]
fn dropping_trailing_targets_keeps_a_match() {
    let value: serde_json::Value =
        serde_json::from_str(r#"{"text": "hey dnd question, what does a 45 look like"}"#).unwrap();
    let all: Vec<String> = vec!["hey".into(), "dnd".into(), "question".into()];
    assert!(SequenceMatcher::new(&all, "$.text").unwrap().matches(&value));
    for k in 1..=all.len() {
        assert!(SequenceMatcher::new(&all[..k], "$.text").unwrap().matches(&value));
    }
}
