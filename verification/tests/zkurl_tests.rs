use cubiq::zkurl::{ZkURL, ZkURLError, ZkURLMetadata};

#[test]
fn test_parse_complete_url() {
    let url = "zk://prover123@domain.com/block1024#v1&gzip&stark";
    let parsed = ZkURL::parse(url).unwrap();
    assert_eq!(parsed.prover_id, Some("prover123".to_string()));
    assert_eq!(parsed.domain_or_hash, "domain.com");
    assert_eq!(parsed.proof_id, "block1024");
    let meta = parsed.metadata.expect("Metadata should exist");
    assert_eq!(meta.version, "v1");
    assert_eq!(meta.compression, Some("gzip".to_string()));
    assert_eq!(meta.proof_type, "stark");
}

#[test]
fn test_parse_ipfs_content_only() {
    let url = "zk://QmHash123/block1";
    let parsed = ZkURL::parse(url).unwrap();
    assert_eq!(parsed.prover_id, None);
    assert_eq!(parsed.domain_or_hash, "QmHash123");
    assert_eq!(parsed.proof_id, "block1");
    assert!(parsed.metadata.is_none());
}

#[test]
fn test_invalid_url_scheme() {
    let url = "http://domain.com/block";
    let result = ZkURL::parse(url);
    assert!(matches!(result, Err(ZkURLError::InvalidScheme)));
}

#[test]
fn missing_separator_is_invalid_format() {
    let result = ZkURL::parse("zk://domainonly");
    assert!(matches!(result, Err(ZkURLError::InvalidFormat)));
}

#[test]
fn metadata_defaults_proof_type() {
    let meta = ZkURLMetadata::parse("v2&lz4").unwrap();
    assert_eq!(meta.version, "v2");
    assert_eq!(meta.compression, Some("lz4".to_string()));
    assert_eq!(meta.proof_type, "stark");
}

#[test]
fn metadata_single_field() {
    let meta = ZkURLMetadata::parse("v3").unwrap();
    assert_eq!(meta.version, "v3");
    assert_eq!(meta.compression, None);
    assert_eq!(meta.proof_type, "stark");
}

#[test]
fn metadata_extra_fields_ignored() {
    let meta = ZkURLMetadata::parse("v1&gzip&plonk&extra&more").unwrap();
    assert_eq!(meta.version, "v1");
    assert_eq!(meta.compression, Some("gzip".to_string()));
    assert_eq!(meta.proof_type, "plonk");
}

#[test]
fn two_at_signs_take_no_prover() {
    // With several `@` signs no prover id is taken and only the text
    // before the first one remains.
    let parsed = ZkURL::parse("zk://a/p@x@y").unwrap();
    assert_eq!(parsed.prover_id, None);
    assert_eq!(parsed.domain_or_hash, "a");
    assert_eq!(parsed.proof_id, "p");
}

#[test]
fn round_trip_complete_url_fields() {
    let parsed = ZkURL::parse("zk://prover123@domain.com/block1024#v1&gzip&stark").unwrap();
    let meta = parsed.metadata.as_ref().unwrap();
    assert_eq!(
        (
            parsed.prover_id.as_deref(),
            parsed.domain_or_hash.as_str(),
            parsed.proof_id.as_str(),
            meta.version.as_str(),
            meta.compression.as_deref(),
            meta.proof_type.as_str(),
        ),
        (
            Some("prover123"),
            "domain.com",
            "block1024",
            "v1",
            Some("gzip"),
            "stark",
        )
    );
}
