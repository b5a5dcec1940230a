use supercell::config::{version, CertificateBundles, ConfigError, HttpPort, TaskEnable};
use supercell::vmc::{resolved_key, resolver_url, stale_before, ResolveError, ResolvedPlcDid, VerificationMethod};

#[test]
fn http_port_values() {
    assert_eq!(HttpPort::try_from("".to_string()).unwrap().0, 80);
    assert_eq!(*HttpPort::try_from("4050".to_string()).unwrap().as_ref(), 4050);
    assert_eq!(HttpPort::try_from("65535".to_string()).unwrap().0, 65535);
    assert_eq!(HttpPort::try_from("65536".to_string()).err(), Some(ConfigError::InvalidPort));
    assert_eq!(HttpPort::try_from("port".to_string()).err(), Some(ConfigError::InvalidPort));
}

#[test]
fn task_enable_values() {
    assert!(*TaskEnable::try_from("true".to_string()).unwrap().as_ref());
    assert!(!*TaskEnable::try_from("false".to_string()).unwrap().as_ref());
    assert_eq!(TaskEnable::try_from("yes".to_string()).err(), Some(ConfigError::InvalidTaskEnable));
    assert_eq!(TaskEnable::try_from("True".to_string()).err(), Some(ConfigError::InvalidTaskEnable));
}

#[test]
fn certificate_bundles_skip_empty_pieces() {
    let bundles = CertificateBundles::try_from("a.pem;;b.pem;".to_string()).unwrap();
    assert_eq!(bundles.as_ref(), &vec!["a.pem".to_string(), "b.pem".to_string()]);
    assert!(CertificateBundles::try_from("".to_string()).unwrap().0.is_empty());
    assert_eq!(CertificateBundles::try_from(";x".to_string()).unwrap().0, vec!["x".to_string()]);
}

#[test]
fn version_prefers_commit_hash() {
    assert_eq!(version(Some("abc123"), Some("0.1.0")).unwrap(), "abc123");
    assert_eq!(version(None, Some("0.1.0")).unwrap(), "0.1.0");
    assert_eq!(version(None, None).err(), Some(ConfigError::MissingVersion));
}

#[test]
fn resolver_urls() {
    assert_eq!(
        resolver_url("did:web:example.com", "plc.directory"),
        "https://example.com/.well-known/did.json"
    );
    assert_eq!(
        resolver_url("did:plc:tgudj2fjm77pzkuawquqhsxm", "plc.directory"),
        "https://plc.directory/did:plc:tgudj2fjm77pzkuawquqhsxm"
    );
}

#[test]
fn resolved_documents() {
    let doc = ResolvedPlcDid {
        id: "did:plc:abc".to_string(),
        verification_method: vec![
            VerificationMethod { public_key_multibase: "zFirst".to_string() },
            VerificationMethod { public_key_multibase: "zSecond".to_string() },
        ],
    };
    assert_eq!(resolved_key("did:plc:abc", &doc).unwrap(), "zFirst");
    assert_eq!(resolved_key("did:plc:other", &doc).err(), Some(ResolveError::DidMismatch));
    let empty = ResolvedPlcDid { id: "did:plc:abc".to_string(), verification_method: vec![] };
    assert_eq!(resolved_key("did:plc:abc", &empty).err(), Some(ResolveError::NoKey));
}

#[test]
fn stale_cutoff_is_seven_days() {
    assert_eq!(stale_before(1_000_000), 1_000_000 - 604800);
    assert_eq!(stale_before(i64::MIN), i64::MIN);
}
