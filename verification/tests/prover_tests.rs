use cubiq::prover::{
    decode_proof, encode_proof, Digest, ExtElem, FRIProof, FRIQueryStep, MobileProofVerifier,
    QueryProof, STARKProof, VerificationError, VerifierConfig, GOLDILOCKS_MODULUS,
};

fn zero_digest() -> Digest {
    Digest { e0: 0, e1: 0, e2: 0, e3: 0 }
}

fn small_proof() -> STARKProof {
    STARKProof {
        trace_cap: vec![zero_digest()],
        quotient_chunks_cap: vec![zero_digest()],
        fri_proof: FRIProof {
            commit_phase_caps: vec![vec![zero_digest()]],
            query_proofs: vec![],
            final_poly: vec![],
        },
    }
}

#[test]
fn basic_proof_structure_check() {
    let proof = small_proof();
    let verifier = MobileProofVerifier::new();
    assert!(verifier.verify_proof_structure(&proof));
}

#[test]
fn empty_proof_structure_check() {
    let proof = STARKProof {
        trace_cap: vec![],
        quotient_chunks_cap: vec![],
        fri_proof: FRIProof {
            commit_phase_caps: vec![],
            query_proofs: vec![],
            final_poly: vec![],
        },
    };
    let verifier = MobileProofVerifier::new();
    assert!(!verifier.verify_proof_structure(&proof));
}

#[test]
fn codec_round_trip() {
    let proof = STARKProof {
        trace_cap: vec![Digest { e0: 1, e1: 2, e2: 3, e3: 4 }],
        quotient_chunks_cap: vec![zero_digest(), Digest { e0: 9, e1: 8, e2: 7, e3: 6 }],
        fri_proof: FRIProof {
            commit_phase_caps: vec![vec![zero_digest()], vec![]],
            query_proofs: vec![QueryProof {
                initial_trees_proof: vec![vec![5, 6, 7], vec![]],
                steps: vec![
                    FRIQueryStep {
                        sibling_value: ExtElem { c0: 11, c1: 12 },
                        opening_proof: vec![zero_digest()],
                    },
                    FRIQueryStep {
                        sibling_value: ExtElem { c0: 13, c1: 14 },
                        opening_proof: vec![],
                    },
                ],
            }],
            final_poly: vec![ExtElem { c0: 21, c1: 22 }],
        },
    };
    let bytes = encode_proof(&proof);
    let decoded = decode_proof(&bytes).expect("decoding its own encoding must succeed");
    assert_eq!(decoded, proof);
}

#[test]
fn u64_encoding_is_little_endian() {
    let proof = STARKProof {
        trace_cap: vec![],
        quotient_chunks_cap: vec![],
        fri_proof: FRIProof {
            commit_phase_caps: vec![],
            query_proofs: vec![],
            final_poly: vec![],
        },
    };
    let bytes = encode_proof(&proof);
    // Five empty lists: five zero counts of eight bytes each.
    assert_eq!(bytes, vec![0u8; 40]);
}

#[test]
fn truncated_bytes_fail_to_decode() {
    let proof = small_proof();
    let mut bytes = encode_proof(&proof);
    bytes.pop();
    assert!(decode_proof(&bytes).is_none());
}

#[test]
fn trailing_bytes_fail_to_decode() {
    let proof = small_proof();
    let mut bytes = encode_proof(&proof);
    bytes.push(0);
    assert!(decode_proof(&bytes).is_none());
}

#[test]
fn garbage_bytes_give_deserialization_error() {
    let verifier = MobileProofVerifier::new();
    let result = verifier.verify_proof(&[1, 2, 3]);
    assert_eq!(result, Err(VerificationError::DeserializationFailed));
}

#[test]
fn valid_small_proof_verifies() {
    let verifier = MobileProofVerifier::new();
    let bytes = encode_proof(&small_proof());
    assert_eq!(verifier.verify_proof(&bytes), Ok(true));
}

#[test]
fn structural_failure_is_reported() {
    let verifier = MobileProofVerifier::new();
    let proof = STARKProof {
        trace_cap: vec![],
        quotient_chunks_cap: vec![zero_digest()],
        fri_proof: FRIProof {
            commit_phase_caps: vec![],
            query_proofs: vec![],
            final_poly: vec![],
        },
    };
    assert!(!verifier.verify_stark_proof(&proof));
    assert_eq!(
        verifier.verify_stark_proof_detailed(&proof),
        Err(VerificationError::StructuralCheckFailed)
    );
}

#[test]
fn fri_layer_mismatch_is_reported() {
    let verifier = MobileProofVerifier::new();
    let proof = STARKProof {
        trace_cap: vec![zero_digest()],
        quotient_chunks_cap: vec![zero_digest()],
        fri_proof: FRIProof {
            // Two committed layers but a query with one step.
            commit_phase_caps: vec![vec![zero_digest()], vec![zero_digest()]],
            query_proofs: vec![QueryProof {
                initial_trees_proof: vec![],
                steps: vec![FRIQueryStep {
                    sibling_value: ExtElem { c0: 0, c1: 0 },
                    opening_proof: vec![],
                }],
            }],
            final_poly: vec![],
        },
    };
    assert!(!verifier.verify_fri_consistency(&proof));
    assert_eq!(
        verifier.verify_stark_proof_detailed(&proof),
        Err(VerificationError::FRICheckFailed)
    );
}

#[test]
fn non_canonical_element_is_reported() {
    let verifier = MobileProofVerifier::new();
    let proof = STARKProof {
        trace_cap: vec![zero_digest()],
        quotient_chunks_cap: vec![zero_digest()],
        fri_proof: FRIProof {
            commit_phase_caps: vec![],
            query_proofs: vec![],
            final_poly: vec![ExtElem { c0: GOLDILOCKS_MODULUS, c1: 0 }],
        },
    };
    assert!(!verifier.verify_constraints(&proof));
    assert_eq!(
        verifier.verify_stark_proof_detailed(&proof),
        Err(VerificationError::ConstraintCheckFailed)
    );
}

#[test]
fn mobile_config_defaults() {
    let config = VerifierConfig::mobile_optimized();
    assert_eq!(config.max_memory_mb, 400);
    assert_eq!(config.max_verification_time_ms, 500);
    assert_eq!(config.fri_queries, 80);
}
