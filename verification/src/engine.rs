//! The per-proposal decision pipeline.
//!
//! A proposal is voted on only after four ordered steps succeed: its
//! address parses, its bundle was fetched and is acceptable, its proof
//! decodes and verifies, and its public inputs match the proposal. The
//! network fetch happens outside the crate and its outcome is handed in;
//! every decision about that outcome is made and proved here. A vote is
//! emitted only when all steps succeed, and it is recorded in the node's
//! own ledger as `spec_record_vote` says.

use vstd::prelude::*;
use vstd::string::*;
use crate::strutil::str_eq;
use crate::zkurl::{ZkURL, ZkURLError, spec_parse};
use crate::resolver::{
    ZkURLResolver,
    ProofBundle,
    PublicInputs,
    FetchError,
    spec_validate_bundle,
};
use crate::prover::{MobileProofVerifier, spec_decode_proof, spec_verify_proof};
use crate::ledger::{ConsensusState, Vote, clone_vote, spec_record_vote};
use crate::validators::ValidatorSet;

verus! {

/// An opaque payload carried by a block; only its gas is read here.
#[derive(Debug, Clone, PartialEq, Eq)]
pub struct Transaction {
    pub hash: String,
    pub from: String,
    pub to: String,
    pub value: u64,
    pub gas_used: u64,
    pub data: Vec<u8>,
}

/// An inbound block proposal referencing its proof by zkURL text.
#[derive(Debug)]
pub struct BlockProposal {
    pub block_hash: String,
    pub state_root: String,
    pub zkurl: String,
    pub transactions: Vec<Transaction>,
    pub proposer_id: String,
    pub timestamp: u64,
}

/// The first cross-check between proposal and proof that fails.
#[derive(Debug, Clone, Copy, PartialEq, Eq, Structural)]
pub enum ConsistencyError {
    BlockHashMismatch,
    StateRootMismatch,
    TxCountMismatch,
    GasMismatch,
}

/// Why a proposal was rejected; each step of the pipeline has its reason.
#[derive(Debug, Clone, PartialEq, Eq)]
pub enum Rejection {
    /// The address text does not parse.
    ProofAddressInvalid(ZkURLError),
    /// No acceptable bundle came from any endpoint.
    ProofUnavailable(FetchError),
    /// The proof does not decode or does not verify.
    ProofInvalid,
    /// The proof's public inputs disagree with the proposal.
    ProposalInconsistent(ConsistencyError),
}

/// Why an accepted vote could not be handed to the outbound channel.
/// Produced at the emission edge, outside this crate; it is fatal for the
/// engine, since no consumer remains, and the loop must end cleanly.
#[derive(Debug, Clone, Copy, PartialEq, Eq, Structural)]
pub enum VoteSubmissionError {
    /// The outbound vote channel has no receiver left.
    ChannelClosed,
}

/// Sum of the gas used by a sequence of transactions.
pub open spec fn spec_gas_sum(txs: Seq<Transaction>) -> int
    decreases txs.len(),
{
    if txs.len() == 0 {
        0
    } else {
        spec_gas_sum(txs.drop_last()) + txs.last().gas_used as int
    }
}

proof fn lemma_gas_sum_take_succ(txs: Seq<Transaction>, i: int)
    requires
        0 <= i < txs.len(),
    ensures
        spec_gas_sum(txs.take(i + 1)) == spec_gas_sum(txs.take(i)) + txs[i].gas_used as int,
{
    assert(txs.take(i + 1).drop_last() =~= txs.take(i));
    assert(txs.take(i + 1).last() == txs[i]);
}

/// Sum of the gas used by the proposal's transactions.
pub fn sum_gas(txs: &Vec<Transaction>) -> (r: u128)
    ensures
        r as int == spec_gas_sum(txs@),
{
    let n = txs.len();
    let mut sum: u128 = 0;
    let mut i: usize = 0;
    proof {
        assert(txs@.take(0) =~= Seq::<Transaction>::empty());
    }
    while i < n
        invariant
            0 <= i <= n,
            n == txs@.len(),
            sum as int == spec_gas_sum(txs@.take(i as int)),
            sum as int <= (i as int) * (u64::MAX as int),
        decreases n - i,
    {
        proof {
            lemma_gas_sum_take_succ(txs@, i as int);
            assert((i as int + 1) * (u64::MAX as int) == (i as int) * (u64::MAX as int)
                + u64::MAX as int) by (nonlinear_arith);
            assert((i as int + 1) * (u64::MAX as int) < u128::MAX as int) by (nonlinear_arith)
                requires
                    0 <= i as int + 1 <= u64::MAX as int + 1,
            ;
        }
        sum = sum + (txs[i].gas_used as u128);
        i = i + 1;
    }
    proof {
        assert(txs@.take(n as int) =~= txs@);
    }
    sum
}

/// The cross-checks between a proposal and the proof's public inputs, in
/// order, with the first mismatch reported: block hash, state root,
/// transaction count, summed gas.
pub open spec fn spec_check_consistency(p: BlockProposal, inputs: PublicInputs) -> Result<
    (),
    ConsistencyError,
> {
    if p.block_hash@ != inputs.block_hash@ {
        Result::Err(ConsistencyError::BlockHashMismatch)
    } else if p.state_root@ != inputs.state_root@ {
        Result::Err(ConsistencyError::StateRootMismatch)
    } else if p.transactions@.len() != inputs.transaction_count as int {
        Result::Err(ConsistencyError::TxCountMismatch)
    } else if spec_gas_sum(p.transactions@) != inputs.gas_used as int {
        Result::Err(ConsistencyError::GasMismatch)
    } else {
        Result::Ok(())
    }
}

/// Cross-checks a proposal against public inputs, exactly
/// `spec_check_consistency`.
pub fn check_consistency(proposal: &BlockProposal, inputs: &PublicInputs) -> (r: Result<
    (),
    ConsistencyError,
>)
    ensures
        r == spec_check_consistency(*proposal, *inputs),
{
    if !str_eq(proposal.block_hash.as_str(), inputs.block_hash.as_str()) {
        return Result::Err(ConsistencyError::BlockHashMismatch);
    }
    if !str_eq(proposal.state_root.as_str(), inputs.state_root.as_str()) {
        return Result::Err(ConsistencyError::StateRootMismatch);
    }
    if proposal.transactions.len() as u64 != inputs.transaction_count as u64 {
        return Result::Err(ConsistencyError::TxCountMismatch);
    }
    let gas = sum_gas(&proposal.transactions);
    if gas != inputs.gas_used as u128 {
        return Result::Err(ConsistencyError::GasMismatch);
    }
    Result::Ok(())
}

/// A validator node: its identity and stake, its view of the validator
/// set, its fetch plan, and its vote ledger.
#[derive(Debug)]
pub struct QubeNode {
    /// This node's validator identity.
    pub node_id: String,
    /// The stake this node votes with.
    pub stake_amount: u64,
    /// The registered validators and the quorum threshold.
    pub validator_set: ValidatorSet,
    /// How proof addresses are resolved to URLs.
    pub zkurl_resolver: ZkURLResolver,
    /// Votes per height and block, and the finalized chain.
    pub consensus_state: ConsensusState,
}

/// Whether two node states agree on every field.
pub open spec fn node_unchanged(a: QubeNode, b: QubeNode) -> bool {
    &&& a.node_id == b.node_id
    &&& a.stake_amount == b.stake_amount
    &&& a.validator_set == b.validator_set
    &&& a.zkurl_resolver == b.zkurl_resolver
    &&& a.consensus_state@ == b.consensus_state@
}

impl QubeNode {
    /// A fresh node with an empty registry and ledger.
    pub fn new(node_id: String, stake_amount: u64, resolver_endpoints: Vec<String>) -> (r:
        QubeNode)
        ensures
            r.node_id == node_id,
            r.stake_amount == stake_amount,
            r.validator_set.wf(),
            r.validator_set.validators@.len() == 0,
            r.consensus_state.wf(),
            r.consensus_state.current_height == 0,
            r.zkurl_resolver.fallback_endpoints@ == resolver_endpoints@,
    {
        QubeNode {
            node_id,
            stake_amount,
            validator_set: ValidatorSet::new(),
            zkurl_resolver: ZkURLResolver::new(resolver_endpoints),
            consensus_state: ConsensusState::new(),
        }
    }

    /// The vote this node casts for a proposal: the proposal's block hash,
    /// this node's identity and stake, the given time, and the placeholder
    /// signature pending an external signing scheme.
    pub fn make_vote(&self, proposal: &BlockProposal, now: u64) -> (r: Vote)
        ensures
            r.block_hash == proposal.block_hash,
            r.voter_id == self.node_id,
            r.stake == self.stake_amount,
            r.timestamp == now,
            r.signature@ == "dummy_signature"@,
    {
        Vote {
            block_hash: proposal.block_hash.clone(),
            voter_id: self.node_id.clone(),
            stake: self.stake_amount,
            timestamp: now,
            signature: "dummy_signature".to_owned(),
        }
    }

    /// Decides one proposal, given the outcome the fetcher produced for its
    /// address and the local time. The four steps run strictly in order and
    /// the first failure rejects the proposal, leaving the node unchanged:
    /// an unparsable address, a failed fetch, a bundle that fails
    /// validation (counted as no endpoint having served a valid bundle), a
    /// proof that does not decode or verify, and finally the first
    /// inconsistent public input. Only full success emits a vote, which is
    /// also recorded in this node's own ledger at its current height.
    pub fn process_block_proposal(
        &mut self,
        proposal: &BlockProposal,
        fetched: Result<ProofBundle, FetchError>,
        now: u64,
    ) -> (r: Result<Vote, Rejection>)
        requires
            old(self).consensus_state.wf(),
            old(self).consensus_state.current_height < u64::MAX,
        ensures
            final(self).consensus_state.wf(),
            final(self).node_id == old(self).node_id,
            final(self).stake_amount == old(self).stake_amount,
            final(self).validator_set == old(self).validator_set,
            final(self).zkurl_resolver == old(self).zkurl_resolver,
            r is Err ==> node_unchanged(*final(self), *old(self)),
            (match spec_parse(proposal.zkurl@) {
                Result::Err(e) => r == Result::<Vote, Rejection>::Err(
                    Rejection::ProofAddressInvalid(e),
                ),
                Result::Ok(_) => (match fetched {
                    Result::Err(f) => r == Result::<Vote, Rejection>::Err(
                        Rejection::ProofUnavailable(f),
                    ),
                    Result::Ok(b) => {
                        if spec_validate_bundle(b, now) is Err {
                            r == Result::<Vote, Rejection>::Err(
                                Rejection::ProofUnavailable(FetchError::AllEndpointsExhausted),
                            )
                        } else if !(spec_decode_proof(b.proof_bytes@) matches Option::Some(p)
                            && spec_verify_proof(p)) {
                            r == Result::<Vote, Rejection>::Err(Rejection::ProofInvalid)
                        } else {
                            match spec_check_consistency(*proposal, b.public_inputs) {
                                Result::Err(c) => r == Result::<Vote, Rejection>::Err(
                                    Rejection::ProposalInconsistent(c),
                                ),
                                Result::Ok(_) => r matches Ok(v) && v.block_hash
                                    == proposal.block_hash && v.voter_id == old(self).node_id
                                    && v.stake == old(self).stake_amount && v.timestamp == now
                                    && v.signature@ == "dummy_signature"@
                                    && final(self).consensus_state@ == spec_record_vote(
                                    old(self).consensus_state@,
                                    old(self).consensus_state.current_height,
                                    v,
                                    old(self).validator_set,
                                ).0,
                            }
                        }
                    },
                }),
            }),
    {
        match ZkURL::parse(proposal.zkurl.as_str()) {
            Result::Ok(_) => {},
            Result::Err(e) => {
                return Result::Err(Rejection::ProofAddressInvalid(e));
            },
        }
        let bundle = match fetched {
            Result::Ok(b) => b,
            Result::Err(f) => {
                return Result::Err(Rejection::ProofUnavailable(f));
            },
        };
        match self.zkurl_resolver.verify_proof_bundle(&bundle, now) {
            Result::Ok(_) => {},
            Result::Err(_) => {
                return Result::Err(Rejection::ProofUnavailable(FetchError::AllEndpointsExhausted));
            },
        }
        let verifier = MobileProofVerifier::new();
        let valid = match verifier.verify_proof(bundle.proof_bytes.as_slice()) {
            Result::Ok(v) => v,
            Result::Err(_) => {
                return Result::Err(Rejection::ProofInvalid);
            },
        };
        if !valid {
            return Result::Err(Rejection::ProofInvalid);
        }
        match check_consistency(proposal, &bundle.public_inputs) {
            Result::Ok(_) => {},
            Result::Err(c) => {
                return Result::Err(Rejection::ProposalInconsistent(c));
            },
        }
        let vote = self.make_vote(proposal, now);
        let recorded = clone_vote(&vote);
        let height = self.consensus_state.current_height;
        let _ = self.consensus_state.record_vote(height, recorded, &self.validator_set);
        Result::Ok(vote)
    }
}

} // verus!
