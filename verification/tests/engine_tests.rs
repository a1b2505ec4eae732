use cubiq::engine::{check_consistency, BlockProposal, ConsistencyError, QubeNode, Rejection, Transaction};
use cubiq::ledger::FinalityOutcome;
use cubiq::prover::{encode_proof, Digest, FRIProof, STARKProof};
use cubiq::resolver::{FetchError, ProofBundle, ProofMetadata, PublicInputs};
use cubiq::validators::Validator;
use cubiq::zkurl::ZkURLError;

fn zero_digest() -> Digest {
    Digest { e0: 0, e1: 0, e2: 0, e3: 0 }
}

fn valid_proof_bytes() -> Vec<u8> {
    encode_proof(&STARKProof {
        trace_cap: vec![zero_digest()],
        quotient_chunks_cap: vec![zero_digest()],
        fri_proof: FRIProof {
            commit_phase_caps: vec![],
            query_proofs: vec![],
            final_poly: vec![],
        },
    })
}

fn proposal() -> BlockProposal {
    BlockProposal {
        block_hash: "0xabc".to_string(),
        state_root: "0xbeef".to_string(),
        zkurl: "zk://prover@domain.com/block1#v1&gzip&stark".to_string(),
        transactions: vec![
            Transaction {
                hash: "t1".to_string(),
                from: "alice".to_string(),
                to: "bob".to_string(),
                value: 5,
                gas_used: 21000,
            data: vec![],
            },
            Transaction {
                hash: "t2".to_string(),
                from: "bob".to_string(),
                to: "carol".to_string(),
                value: 9,
                gas_used: 42000,
                data: vec![1, 2],
            },
        ],
        proposer_id: "proposer".to_string(),
        timestamp: 123,
    }
}

fn matching_bundle(now: u64) -> ProofBundle {
    let bytes = valid_proof_bytes();
    let len = bytes.len();
    ProofBundle {
        proof_bytes: bytes,
        public_inputs: PublicInputs {
            block_hash: "0xabc".to_string(),
            state_root: "0xbeef".to_string(),
            gas_used: 63000,
            transaction_count: 2,
        },
        signature: String::new(),
        prover_id: "prover".to_string(),
        timestamp: now,
        metadata: ProofMetadata { version: "v1".to_string(), compression: None, size_bytes: len },
    }
}

fn node_with_self_stake(id: &str, stake: u64) -> QubeNode {
    let mut node = QubeNode::new(id.to_string(), stake, vec![]);
    node.validator_set.upsert(Validator {
        node_id: id.to_string(),
        stake,
        public_key: "pk".to_string(),
        is_active: true,
        last_vote_time: 0,
    });
    node
}

#[test]
fn end_to_end_accept_emits_one_vote() {
    let now = 1_000_000u64;
    let mut node = node_with_self_stake("tester", 10_000);
    let result = node.process_block_proposal(&proposal(), Ok(matching_bundle(now)), now);
    let vote = result.expect("a fresh, matching bundle must yield a vote");
    assert_eq!(vote.voter_id, "tester");
    assert_eq!(vote.stake, 10_000);
    assert_eq!(vote.block_hash, "0xabc");
    assert_eq!(vote.timestamp, now);
    // The single vote carries this node's full stake, which meets the
    // supermajority threshold: the block finalizes at height 0.
    assert_eq!(node.consensus_state.finalized_blocks, vec!["0xabc".to_string()]);
    assert_eq!(node.consensus_state.current_height, 1);
}

#[test]
fn end_to_end_reject_on_exhausted_endpoints() {
    let now = 1_000_000u64;
    let mut node = node_with_self_stake("tester", 10_000);
    let result =
        node.process_block_proposal(&proposal(), Err(FetchError::AllEndpointsExhausted), now);
    assert_eq!(result, Err(Rejection::ProofUnavailable(FetchError::AllEndpointsExhausted)));
    assert_eq!(node.consensus_state.votes.len(), 0);
    assert!(node.consensus_state.finalized_blocks.is_empty());
}

#[test]
fn test_node_proposal_handles_invalid_zkurl() {
    let now = 1_000_000u64;
    let mut node = node_with_self_stake("tester", 10_000);
    let mut bad = proposal();
    bad.zkurl = "invalid-scheme://".to_string();
    let result = node.process_block_proposal(&bad, Ok(matching_bundle(now)), now);
    assert_eq!(result, Err(Rejection::ProofAddressInvalid(ZkURLError::InvalidScheme)));
    assert_eq!(node.consensus_state.votes.len(), 0);
}

#[test]
fn stale_bundle_is_unavailable() {
    let now = 1_000_000u64;
    let mut node = node_with_self_stake("tester", 10_000);
    let mut bundle = matching_bundle(now);
    bundle.timestamp = now - 3601;
    let result = node.process_block_proposal(&proposal(), Ok(bundle), now);
    assert_eq!(result, Err(Rejection::ProofUnavailable(FetchError::AllEndpointsExhausted)));
}

#[test]
fn undecodable_proof_is_invalid() {
    let now = 1_000_000u64;
    let mut node = node_with_self_stake("tester", 10_000);
    let mut bundle = matching_bundle(now);
    bundle.proof_bytes = vec![9, 9, 9];
    let result = node.process_block_proposal(&proposal(), Ok(bundle), now);
    assert_eq!(result, Err(Rejection::ProofInvalid));
}

#[test]
fn first_mismatch_is_reported_in_order() {
    let p = proposal();
    let now = 1_000_000u64;
    let good = matching_bundle(now).public_inputs;
    assert_eq!(check_consistency(&p, &good), Ok(()));

    let mut inputs = good.clone();
    inputs.block_hash = "other".to_string();
    inputs.gas_used = 1;
    assert_eq!(check_consistency(&p, &inputs), Err(ConsistencyError::BlockHashMismatch));

    let mut inputs = good.clone();
    inputs.state_root = "other".to_string();
    assert_eq!(check_consistency(&p, &inputs), Err(ConsistencyError::StateRootMismatch));

    let mut inputs = good.clone();
    inputs.transaction_count = 3;
    assert_eq!(check_consistency(&p, &inputs), Err(ConsistencyError::TxCountMismatch));

    let mut inputs = good.clone();
    inputs.gas_used = 63001;
    assert_eq!(check_consistency(&p, &inputs), Err(ConsistencyError::GasMismatch));
}

#[test]
fn mismatched_bundle_rejects_proposal() {
    let now = 1_000_000u64;
    let mut node = node_with_self_stake("tester", 10_000);
    let mut bundle = matching_bundle(now);
    bundle.public_inputs.gas_used = 1;
    let result = node.process_block_proposal(&proposal(), Ok(bundle), now);
    assert_eq!(
        result,
        Err(Rejection::ProposalInconsistent(ConsistencyError::GasMismatch))
    );
}

#[test]
fn sub_quorum_vote_stays_pending() {
    let now = 1_000_000u64;
    let mut node = node_with_self_stake("tester", 10);
    // A second, heavier validator keeps this node's stake below quorum.
    node.validator_set.upsert(Validator {
        node_id: "heavy".to_string(),
        stake: 90,
        public_key: "pk2".to_string(),
        is_active: true,
        last_vote_time: 0,
    });
    let result = node.process_block_proposal(&proposal(), Ok(matching_bundle(now)), now);
    assert!(result.is_ok());
    assert!(node.consensus_state.finalized_blocks.is_empty());
    assert_eq!(node.consensus_state.votes.len(), 1);
    let outcome = node.consensus_state.record_vote(
        0,
        cubiq::ledger::Vote {
            block_hash: "0xabc".to_string(),
            voter_id: "heavy".to_string(),
            stake: 90,
            timestamp: now,
            signature: "sig".to_string(),
        },
        &node.validator_set.clone(),
    );
    assert_eq!(outcome, Ok(FinalityOutcome::Finalized));
}
