use base64::engine::general_purpose::URL_SAFE_NO_PAD;
use base64::Engine;
use k256::ecdsa::signature::Signer;
use supercell::crypto::{select_scheme, validate, JwtClaims, JwtHeader, KeyScheme, SignatureError};
use supercell::http::{
    decode_token, denied_view, find_feed, may_read, page_view, requires_token, select_feed,
    split_token, verify_token, AuthError, FeedControl, FeedParams, SkeletonError,
};
use supercell::storage::FeedContent;

const NOW: i64 = 1_730_000_000;

fn header_json() -> String {
    r#"{"typ":"JWT","alg":"ES256K"}"#.to_string()
}

fn claims_json() -> String {
    r#"{"iss":"did:plc:caller","aud":"did:web:feeds.example.com","iat":1729999990,"exp":1730000060,"lxm":"app.bsky.feed.getFeedSkeleton"}"#.to_string()
}

fn header() -> JwtHeader {
    JwtHeader { typ: "JWT".to_string(), alg: "ES256K".to_string() }
}

fn claims() -> JwtClaims {
    JwtClaims {
        iss: "did:plc:caller".to_string(),
        aud: "did:web:feeds.example.com".to_string(),
        iat: 1729999990,
        exp: 1730000060,
        lxm: "app.bsky.feed.getFeedSkeleton".to_string(),
    }
}

fn k256_key() -> k256::ecdsa::SigningKey {
    k256::ecdsa::SigningKey::from_slice(&[7u8; 32]).unwrap()
}

fn k256_multikey(key: &k256::ecdsa::SigningKey) -> String {
    let mut bytes = vec![0xe7, 0x01];
    bytes.extend_from_slice(key.verifying_key().to_encoded_point(true).as_bytes());
    multibase::encode(multibase::Base::Base58Btc, bytes)
}

fn signed_token(key: &k256::ecdsa::SigningKey) -> String {
    let header = URL_SAFE_NO_PAD.encode(header_json());
    let claims = URL_SAFE_NO_PAD.encode(claims_json());
    let content = format!("{}.{}", header, claims);
    let signature: k256::ecdsa::Signature = key.sign(content.as_bytes());
    format!("{}.{}", content, URL_SAFE_NO_PAD.encode(signature.to_bytes()))
}

#[test]
fn split_token_needs_three_segments() {
    let parts = split_token("a.b.c").unwrap();
    assert_eq!(parts, ["a".to_string(), "b".to_string(), "c".to_string()]);
    assert_eq!(split_token("..").unwrap(), [String::new(), String::new(), String::new()]);
    assert_eq!(split_token("a.b").err(), Some(AuthError::MalformedToken));
    assert_eq!(split_token("a.b.c.d").err(), Some(AuthError::MalformedToken));
    assert_eq!(split_token("abc").err(), Some(AuthError::MalformedToken));
}

#[test]
fn decode_token_reads_bearer_segments() {
    let token = signed_token(&k256_key());
    let authorization = format!("Bearer {}", token);
    let parts = decode_token(Some(&authorization)).unwrap();
    assert_eq!(parts.header, header_json().into_bytes());
    assert_eq!(parts.claims, claims_json().into_bytes());
    assert_eq!(parts.signature.len(), 64);
    let segments: Vec<&str> = token.split('.').collect();
    assert_eq!(parts.signed, format!("{}.{}", segments[0], segments[1]));
}

#[test]
fn decode_token_failures() {
    assert_eq!(decode_token(None).err(), Some(AuthError::MissingAuthorization));
    assert_eq!(decode_token(Some("Basic abc")).err(), Some(AuthError::MissingAuthorization));
    assert_eq!(decode_token(Some("Bearer a.b")).err(), Some(AuthError::MalformedToken));
    assert_eq!(decode_token(Some("Bearer !!.e30.e30")).err(), Some(AuthError::UndecodableSegment));
}

#[test]
fn well_formed_token_from_cached_issuer_verifies() {
    let key = k256_key();
    let parts = decode_token(Some(&format!("Bearer {}", signed_token(&key)))).unwrap();
    let multikey = k256_multikey(&key);
    let issuer = verify_token(&parts, &header(), &claims(), "feeds.example.com", NOW, Some(&multikey));
    assert_eq!(issuer.unwrap(), "did:plc:caller");
}

#[test]
fn token_with_key_absent_from_cache_is_rejected() {
    let parts = decode_token(Some(&format!("Bearer {}", signed_token(&k256_key())))).unwrap();
    let issuer = verify_token(&parts, &header(), &claims(), "feeds.example.com", NOW, None);
    assert_eq!(issuer.err(), Some(AuthError::UnknownIssuer));
}

#[test]
fn expired_token_is_rejected() {
    let key = k256_key();
    let parts = decode_token(Some(&format!("Bearer {}", signed_token(&key)))).unwrap();
    let multikey = k256_multikey(&key);
    let late = verify_token(&parts, &header(), &claims(), "feeds.example.com", 1730000061, Some(&multikey));
    assert_eq!(late.err(), Some(AuthError::Expired));
    let early = verify_token(&parts, &header(), &claims(), "feeds.example.com", 1729999989, Some(&multikey));
    assert_eq!(early.err(), Some(AuthError::IssuedInFuture));
}

#[test]
fn token_claim_failures() {
    let key = k256_key();
    let parts = decode_token(Some(&format!("Bearer {}", signed_token(&key)))).unwrap();
    let multikey = k256_multikey(&key);
    let mut wrong_alg = header();
    wrong_alg.alg = "ES256".to_string();
    assert_eq!(
        verify_token(&parts, &wrong_alg, &claims(), "feeds.example.com", NOW, Some(&multikey)).err(),
        Some(AuthError::UnsupportedAlgorithm)
    );
    let mut wrong_method = claims();
    wrong_method.lxm = "app.bsky.feed.getPosts".to_string();
    assert_eq!(
        verify_token(&parts, &header(), &wrong_method, "feeds.example.com", NOW, Some(&multikey)).err(),
        Some(AuthError::InvalidResource)
    );
    assert_eq!(
        verify_token(&parts, &header(), &claims(), "other.example.com", NOW, Some(&multikey)).err(),
        Some(AuthError::InvalidAudience)
    );
    let other_key = k256::ecdsa::SigningKey::from_slice(&[9u8; 32]).unwrap();
    assert_eq!(
        verify_token(&parts, &header(), &claims(), "feeds.example.com", NOW, Some(&k256_multikey(&other_key))).err(),
        Some(AuthError::InvalidSignature)
    );
}

#[test]
fn p256_keys_verify() {
    let key = p256::ecdsa::SigningKey::from_slice(&[5u8; 32]).unwrap();
    let mut bytes = vec![0x80, 0x24];
    bytes.extend_from_slice(key.verifying_key().to_encoded_point(true).as_bytes());
    let multikey = multibase::encode(multibase::Base::Base58Btc, bytes);
    let signature: p256::ecdsa::Signature = key.sign(b"header.claims");
    let signature = signature.to_bytes();
    assert_eq!(validate(&multikey, &signature, "header.claims"), Ok(()));
    assert_eq!(validate(&multikey, &signature, "header.claimz"), Err(SignatureError::BadSignature));
}

#[test]
fn validate_key_failures() {
    assert_eq!(validate("not multibase!", &[0u8; 64], "x"), Err(SignatureError::UndecodableKey));
    let unknown = multibase::encode(multibase::Base::Base58Btc, [0xed, 0x01, 1, 2, 3]);
    assert_eq!(validate(&unknown, &[0u8; 64], "x"), Err(SignatureError::UnsupportedKey));
    let short = multibase::encode(multibase::Base::Base58Btc, [0xe7]);
    assert_eq!(validate(&short, &[0u8; 64], "x"), Err(SignatureError::UnsupportedKey));
}

#[test]
fn key_scheme_prefixes() {
    assert_eq!(select_scheme(&[0xe7, 0x01, 2]), Some(KeyScheme::Secp256k1));
    assert_eq!(select_scheme(&[0x80, 0x24]), Some(KeyScheme::P256));
    assert_eq!(select_scheme(&[0x80]), None);
    assert_eq!(select_scheme(&[0x01, 0xe7]), None);
}

fn controls() -> Vec<FeedControl> {
    vec![
        FeedControl { uri: "at://feed/public".to_string(), deny: "at://deny/public".to_string(), allowed: vec![] },
        FeedControl {
            uri: "at://feed/private".to_string(),
            deny: "at://deny/private".to_string(),
            allowed: vec!["did:plc:caller".to_string()],
        },
    ]
}

#[test]
fn feed_with_empty_allow_set_needs_no_token() {
    let feeds = controls();
    assert!(!requires_token(&feeds[0]));
    assert!(may_read(&feeds[0], &Err(AuthError::MissingAuthorization)));
    assert!(requires_token(&feeds[1]));
    assert!(!may_read(&feeds[1], &Err(AuthError::MissingAuthorization)));
    assert!(may_read(&feeds[1], &Ok("did:plc:caller".to_string())));
    assert!(!may_read(&feeds[1], &Ok("did:plc:stranger".to_string())));
}

#[test]
fn select_feed_errors() {
    let feeds = controls();
    let mut params = FeedParams { feed: None, limit: None, cursor: None };
    assert_eq!(select_feed(&params, &feeds), Err(SkeletonError::MissingFeed));
    params.feed = Some("at://feed/unknown".to_string());
    assert_eq!(select_feed(&params, &feeds), Err(SkeletonError::UnknownFeed));
    params.feed = Some("at://feed/private".to_string());
    assert_eq!(select_feed(&params, &feeds), Ok(1));
    assert_eq!(find_feed(&feeds, "at://feed/public"), Some(0));
}

#[test]
fn denied_and_page_views() {
    let feeds = controls();
    let denied = denied_view(&feeds[1]);
    assert!(denied.cursor.is_none());
    assert_eq!(denied.feed.len(), 1);
    assert_eq!(denied.feed[0].post, "at://deny/private");

    let rows = vec![
        FeedContent::new("f".to_string(), "at://a".to_string(), 20, "cid2".to_string()),
        FeedContent::new("f".to_string(), "at://b".to_string(), 10, "cid1".to_string()),
    ];
    let page = page_view(&rows);
    assert_eq!(page.feed.len(), 2);
    assert_eq!(page.feed[0].post, "at://a");
    assert_eq!(page.feed[1].post, "at://b");
    assert_eq!(page.cursor.as_deref(), Some("10,cid1"));
    assert!(page_view(&vec![]).cursor.is_none());
}
