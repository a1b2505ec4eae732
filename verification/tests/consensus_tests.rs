use cubiq::ledger::{ConsensusState, FinalityOutcome, Vote, VoteError};
use cubiq::validators::{Validator, ValidatorSet};

fn validator(id: &str, stake: u64, active: bool) -> Validator {
    Validator {
        node_id: id.to_string(),
        stake,
        public_key: format!("pk-{}", id),
        is_active: active,
        last_vote_time: 0,
    }
}

fn vote(block: &str, voter: &str, stake: u64) -> Vote {
    Vote {
        block_hash: block.to_string(),
        voter_id: voter.to_string(),
        stake,
        timestamp: 7,
        signature: "sig".to_string(),
    }
}

#[test]
fn registry_totals_follow_formula() {
    let mut set = ValidatorSet::new();
    assert_eq!(set.total_stake, 0);
    assert_eq!(set.quorum_threshold(), 0);
    set.upsert(validator("a", 100, true));
    set.upsert(validator("b", 50, true));
    assert_eq!(set.total_stake, 150);
    // ceil(2 * 150 / 3) == 100
    assert_eq!(set.quorum_threshold(), 100);
    set.upsert(validator("b", 80, true));
    assert_eq!(set.total_stake, 180);
    assert_eq!(set.quorum_threshold(), 120);
}

#[test]
fn deactivate_excludes_stake_but_keeps_entry() {
    let mut set = ValidatorSet::new();
    set.upsert(validator("a", 100, true));
    set.upsert(validator("b", 50, true));
    set.deactivate("a");
    assert_eq!(set.total_stake, 50);
    assert_eq!(set.quorum_threshold(), 34);
    assert_eq!(set.stake_of("a"), Some(100));
    assert!(!set.is_active("a"));
    assert!(set.is_active("b"));
    assert_eq!(set.stake_of("missing"), None);
}

#[test]
fn duplicate_vote_counts_once() {
    let mut set = ValidatorSet::new();
    set.upsert(validator("v1", 10, true));
    set.upsert(validator("v2", 10, true));
    set.upsert(validator("v3", 10, true));
    // threshold: ceil(60/3) = 20
    let mut ledger = ConsensusState::new();
    let r1 = ledger.record_vote(5, vote("blockA", "v1", 10), &set);
    assert_eq!(r1, Ok(FinalityOutcome::Pending));
    assert_eq!(ledger.aggregate_stake(5, "blockA", &set), 10);
    let r2 = ledger.record_vote(5, vote("blockA", "v1", 10), &set);
    assert_eq!(r2, Ok(FinalityOutcome::Pending));
    assert_eq!(ledger.aggregate_stake(5, "blockA", &set), 10);
    assert_eq!(ledger.votes.len(), 1);
}

#[test]
fn distinct_votes_never_decrease_aggregate() {
    let mut set = ValidatorSet::new();
    for (id, stake) in [("v1", 10u64), ("v2", 8), ("v3", 30)] {
        set.upsert(validator(id, stake, true));
    }
    let mut ledger = ConsensusState::new();
    let mut last = 0u128;
    for (voter, stake) in [("v1", 10u64), ("v2", 8)] {
        ledger.record_vote(3, vote("blockB", voter, stake), &set).unwrap();
        let agg = ledger.aggregate_stake(3, "blockB", &set);
        assert!(agg >= last);
        last = agg;
    }
    assert_eq!(last, 18);
}

#[test]
fn equivocation_is_rejected_first_vote_wins() {
    let mut set = ValidatorSet::new();
    set.upsert(validator("v1", 10, true));
    set.upsert(validator("v2", 50, true));
    let mut ledger = ConsensusState::new();
    assert_eq!(ledger.record_vote(2, vote("blockA", "v1", 10), &set), Ok(FinalityOutcome::Pending));
    let conflict = ledger.record_vote(2, vote("blockB", "v1", 10), &set);
    assert_eq!(conflict, Err(VoteError::Equivocation));
    assert_eq!(ledger.aggregate_stake(2, "blockA", &set), 10);
    assert_eq!(ledger.aggregate_stake(2, "blockB", &set), 0);
}

#[test]
fn quorum_finalizes_and_prunes() {
    let mut set = ValidatorSet::new();
    set.upsert(validator("v1", 40, true));
    set.upsert(validator("v2", 40, true));
    set.upsert(validator("v3", 20, true));
    // total 100, threshold ceil(200/3) = 67
    let mut ledger = ConsensusState::new();
    assert_eq!(ledger.record_vote(0, vote("blockC", "v1", 40), &set), Ok(FinalityOutcome::Pending));
    let fin = ledger.record_vote(0, vote("blockC", "v2", 40), &set);
    assert_eq!(fin, Ok(FinalityOutcome::Finalized));
    assert_eq!(ledger.finalized_blocks, vec!["blockC".to_string()]);
    assert_eq!(ledger.finalized_heights, vec![0u64]);
    assert_eq!(ledger.current_height, 1);
    assert_eq!(ledger.current_round, 0);
    assert_eq!(ledger.votes.len(), 0);
}

#[test]
fn finalized_height_is_never_finalized_again() {
    let mut set = ValidatorSet::new();
    set.upsert(validator("v1", 40, true));
    set.upsert(validator("v2", 40, true));
    set.upsert(validator("v3", 20, true));
    let mut ledger = ConsensusState::new();
    ledger.record_vote(0, vote("blockC", "v1", 40), &set).unwrap();
    assert_eq!(
        ledger.record_vote(0, vote("blockC", "v2", 40), &set),
        Ok(FinalityOutcome::Finalized)
    );
    // Late votes at the finalized height reach quorum again, but the chain
    // is untouched and the outcome stays pending.
    assert_eq!(ledger.record_vote(0, vote("blockD", "v1", 40), &set), Ok(FinalityOutcome::Pending));
    assert_eq!(ledger.record_vote(0, vote("blockD", "v2", 40), &set), Ok(FinalityOutcome::Pending));
    assert_eq!(ledger.finalized_blocks, vec!["blockC".to_string()]);
    assert_eq!(ledger.finalized_heights, vec![0u64]);
}

#[test]
fn inactive_stake_does_not_count_toward_quorum() {
    let mut set = ValidatorSet::new();
    set.upsert(validator("v1", 60, true));
    set.upsert(validator("v2", 40, true));
    set.deactivate("v1");
    // total 40, threshold ceil(80/3) = 27
    let mut ledger = ConsensusState::new();
    let r = ledger.record_vote(1, vote("blockE", "v1", 60), &set);
    assert_eq!(r, Ok(FinalityOutcome::Pending));
    assert_eq!(ledger.aggregate_stake(1, "blockE", &set), 0);
}

#[test]
fn group_votes_by_block_partitions_votes() {
    let mut set = ValidatorSet::new();
    // Enough validators that three single-stake votes stay below quorum.
    for id in ["v1", "v2", "v3", "v4", "v5", "v6"] {
        set.upsert(validator(id, 1, true));
    }
    let mut ledger = ConsensusState::new();
    ledger.record_vote(9, vote("blockX", "v1", 1), &set).unwrap();
    ledger.record_vote(9, vote("blockY", "v2", 1), &set).unwrap();
    ledger.record_vote(9, vote("blockX", "v3", 1), &set).unwrap();
    let groups = ledger.group_votes_by_block();
    assert_eq!(groups.len(), 2);
    let x = groups.iter().find(|g| g.0 == "blockX").unwrap();
    let y = groups.iter().find(|g| g.0 == "blockY").unwrap();
    assert_eq!(x.1.len(), 2);
    assert_eq!(x.1[0].voter_id, "v1");
    assert_eq!(x.1[1].voter_id, "v3");
    assert_eq!(y.1.len(), 1);
    assert_eq!(y.1[0].voter_id, "v2");
}
