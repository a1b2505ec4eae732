use cubiq::resolver::{
    BundleValidationError, ProofBundle, ProofMetadata, PublicInputs, ZkURLResolver,
};
use cubiq::zkurl::ZkURL;

fn bundle_with(timestamp: u64, proof_len: usize) -> ProofBundle {
    ProofBundle {
        proof_bytes: vec![0u8; proof_len],
        public_inputs: PublicInputs {
            block_hash: String::new(),
            state_root: String::new(),
            gas_used: 0,
            transaction_count: 0,
        },
        signature: String::new(),
        prover_id: "prover".to_string(),
        timestamp,
        metadata: ProofMetadata {
            version: "v1".to_string(),
            compression: None,
            size_bytes: proof_len,
        },
    }
}

#[test]
fn test_construct_url_with_prover() {
    let zkurl = ZkURL {
        prover_id: Some("proverABC".to_string()),
        domain_or_hash: "example.com".to_string(),
        proof_id: "block99".to_string(),
        metadata: None,
    };
    let resolver = ZkURLResolver::new(vec![]);
    let url = resolver.construct_url(&zkurl);
    assert_eq!(url, "https://example.com/proof/block99");
}

#[test]
fn test_construct_url_without_prover() {
    let zkurl = ZkURL {
        prover_id: None,
        domain_or_hash: "QmHash123".to_string(),
        proof_id: "proofX".to_string(),
        metadata: None,
    };
    let resolver = ZkURLResolver::new(vec![]);
    let url = resolver.construct_url(&zkurl);
    assert_eq!(url, "https://ipfs.io/ipfs/QmHash123");
}

#[test]
fn test_verify_proof_bundle_fails_on_old_timestamp() {
    let old_bundle = bundle_with(0, 10);
    let resolver = ZkURLResolver::new(vec![]);
    let now = 1_000_000u64;
    let result = resolver.verify_proof_bundle(&old_bundle, now);
    assert_eq!(result, Err(BundleValidationError::StaleTimestamp));
}

#[test]
fn bundle_at_now_passes() {
    let resolver = ZkURLResolver::new(vec![]);
    let now = 1_000_000u64;
    assert_eq!(resolver.verify_proof_bundle(&bundle_with(now, 10), now), Ok(()));
}

#[test]
fn bundle_on_freshness_boundary() {
    let resolver = ZkURLResolver::new(vec![]);
    let now = 1_000_000u64;
    assert_eq!(resolver.verify_proof_bundle(&bundle_with(now - 3600, 10), now), Ok(()));
    assert_eq!(
        resolver.verify_proof_bundle(&bundle_with(now - 3601, 10), now),
        Err(BundleValidationError::StaleTimestamp)
    );
}

#[test]
fn bundle_from_future_fails() {
    let resolver = ZkURLResolver::new(vec![]);
    let now = 1_000_000u64;
    assert_eq!(
        resolver.verify_proof_bundle(&bundle_with(now + 1, 10), now),
        Err(BundleValidationError::FutureTimestamp)
    );
}

#[test]
fn oversized_proof_fails() {
    let resolver = ZkURLResolver::new(vec![]);
    let now = 1_000_000u64;
    assert_eq!(
        resolver.verify_proof_bundle(&bundle_with(now, 5_000_001), now),
        Err(BundleValidationError::OversizedProof)
    );
    assert_eq!(resolver.verify_proof_bundle(&bundle_with(now, 5_000_000), now), Ok(()));
}

#[test]
fn attempt_urls_follow_fallback_order() {
    let zkurl = ZkURL {
        prover_id: Some("p".to_string()),
        domain_or_hash: "primary.example".to_string(),
        proof_id: "id7".to_string(),
        metadata: None,
    };
    let resolver = ZkURLResolver::new(vec![
        "https://fb1.example".to_string(),
        "https://fb2.example".to_string(),
    ]);
    assert_eq!(
        resolver.attempt_url(&zkurl, 0),
        Some("https://primary.example/proof/id7".to_string())
    );
    assert_eq!(
        resolver.attempt_url(&zkurl, 1),
        Some("https://fb1.example/proof/id7".to_string())
    );
    assert_eq!(
        resolver.attempt_url(&zkurl, 2),
        Some("https://fb2.example/proof/id7".to_string())
    );
    assert_eq!(resolver.attempt_url(&zkurl, 3), None);
}
