//! Vote records per height and block, and the finality rule.
//!
//! Votes are keyed by `(height, block hash, voter)`: inserting the same key
//! twice is a no-op, and a second vote by the same voter for a different
//! block at the same height is equivocation and is rejected. When the
//! aggregate active stake for a block reaches the registry's supermajority
//! threshold and the height is not yet finalized, the block is appended to
//! the finalized sequence, the height advances, and the superseded height's
//! votes are pruned. The whole transition is the spec function
//! `spec_record_vote`; the executable `record_vote` is proved to implement
//! it exactly.

use vstd::prelude::*;
use crate::strutil::str_eq;
use crate::validators::{ValidatorSet, spec_validator_of};

verus! {

/// A vote for a block, weighted by the voter's stake.
#[derive(Debug, Clone, PartialEq, Eq)]
pub struct Vote {
    pub block_hash: String,
    pub voter_id: String,
    pub stake: u64,
    pub timestamp: u64,
    pub signature: String,
}

/// A vote recorded at a height.
#[derive(Debug, PartialEq, Eq)]
pub struct StoredVote {
    pub height: u64,
    pub vote: Vote,
}

/// What recording a vote concluded for its block.
#[derive(Debug, Clone, Copy, PartialEq, Eq, Structural)]
pub enum FinalityOutcome {
    /// The block has not reached quorum stake (or its height is already
    /// final).
    Pending,
    /// The block reached quorum stake and was finalized now.
    Finalized,
}

/// Why a vote was rejected.
#[derive(Debug, Clone, Copy, PartialEq, Eq, Structural)]
pub enum VoteError {
    /// The voter already voted for a different block at this height; the
    /// first vote wins.
    Equivocation,
}

/// Whether a validator is registered and active.
pub open spec fn spec_is_active(reg: ValidatorSet, id: Seq<char>) -> bool {
    match spec_validator_of(reg.validators@, id) {
        Option::Some(v) => v.is_active,
        Option::None => false,
    }
}

/// The stake a stored vote contributes to `(height, block hash)`: its own
/// stake when it matches the key and its voter is active, zero otherwise.
pub open spec fn vote_weight(sv: StoredVote, height: u64, bh: Seq<char>, reg: ValidatorSet) -> int {
    if sv.height == height && sv.vote.block_hash@ == bh && spec_is_active(reg, sv.vote.voter_id@) {
        sv.vote.stake as int
    } else {
        0
    }
}

/// Aggregate active stake voted for `(height, block hash)`.
pub open spec fn spec_aggregate(
    votes: Seq<StoredVote>,
    height: u64,
    bh: Seq<char>,
    reg: ValidatorSet,
) -> int
    decreases votes.len(),
{
    if votes.len() == 0 {
        0
    } else {
        spec_aggregate(votes.drop_last(), height, bh, reg) + vote_weight(
            votes.last(),
            height,
            bh,
            reg,
        )
    }
}

/// Index of the first stored vote by `voter` at `height`, at or after `from`.
pub open spec fn spec_find_vote(
    votes: Seq<StoredVote>,
    height: u64,
    voter: Seq<char>,
    from: int,
) -> Option<int>
    decreases votes.len() - from,
{
    if from < 0 || from >= votes.len() {
        Option::None
    } else if votes[from].height == height && votes[from].vote.voter_id@ == voter {
        Option::Some(from)
    } else {
        spec_find_vote(votes, height, voter, from + 1)
    }
}

/// The vote sequence after an insert: unchanged when the `(height, voter)`
/// key is already present, appended otherwise.
pub open spec fn spec_insert_vote(votes: Seq<StoredVote>, height: u64, vote: Vote) -> Seq<
    StoredVote,
> {
    if spec_find_vote(votes, height, vote.voter_id@, 0) is Some {
        votes
    } else {
        votes.push(StoredVote { height, vote })
    }
}

/// The vote sequence with every vote at `height` removed.
pub open spec fn spec_prune(votes: Seq<StoredVote>, height: u64) -> Seq<StoredVote>
    decreases votes.len(),
{
    if votes.len() == 0 {
        Seq::<StoredVote>::empty()
    } else {
        let rest = spec_prune(votes.drop_last(), height);
        if votes.last().height == height {
            rest
        } else {
            rest.push(votes.last())
        }
    }
}

/// No two stored votes share a `(height, voter)` key.
pub open spec fn vote_keys_unique(votes: Seq<StoredVote>) -> bool {
    forall|i: int, j: int|
        0 <= i < j < votes.len() ==> !(votes[i].height == votes[j].height
            && votes[i].vote.voter_id@ == votes[j].vote.voter_id@)
}

/// Mathematical value of a `ConsensusState`.
#[verifier::ext_equal]
pub struct LedgerView {
    pub current_height: u64,
    pub current_round: u32,
    pub votes: Seq<StoredVote>,
    pub finalized_blocks: Seq<String>,
    pub finalized_heights: Seq<u64>,
}

/// Well-formedness of the ledger: unique vote keys, one finalized block per
/// finalized height, and no height finalized twice.
pub open spec fn ledger_wf(v: LedgerView) -> bool {
    &&& vote_keys_unique(v.votes)
    &&& v.finalized_blocks.len() == v.finalized_heights.len()
    &&& forall|i: int, j: int|
        0 <= i < j < v.finalized_heights.len() ==> v.finalized_heights[i]
            != v.finalized_heights[j]
}

/// The ledger after a non-equivocating vote is applied: the vote is
/// inserted (idempotently); when the block's aggregate active stake reaches
/// the supermajority threshold and the height is not yet final, the block
/// is finalized, the current height advances past it, the round resets,
/// and the superseded height's votes are pruned.
pub open spec fn spec_apply_vote(s: LedgerView, height: u64, vote: Vote, reg: ValidatorSet) -> (
    LedgerView,
    Result<FinalityOutcome, VoteError>,
) {
    let votes1 = spec_insert_vote(s.votes, height, vote);
    let agg = spec_aggregate(votes1, height, vote.block_hash@, reg);
    if agg >= reg.supermajority_threshold as int && !s.finalized_heights.contains(height) {
        (
            LedgerView {
                current_height: (height as int + 1) as u64,
                current_round: 0,
                votes: spec_prune(votes1, height),
                finalized_blocks: s.finalized_blocks.push(vote.block_hash),
                finalized_heights: s.finalized_heights.push(height),
            },
            Result::Ok(FinalityOutcome::Finalized),
        )
    } else {
        (
            LedgerView {
                current_height: s.current_height,
                current_round: s.current_round,
                votes: votes1,
                finalized_blocks: s.finalized_blocks,
                finalized_heights: s.finalized_heights,
            },
            Result::Ok(FinalityOutcome::Pending),
        )
    }
}

/// The full transition of `record_vote`: equivocation (same voter, same
/// height, different block) rejects the vote and leaves the ledger
/// unchanged; otherwise the vote is applied as `spec_apply_vote` says.
pub open spec fn spec_record_vote(s: LedgerView, height: u64, vote: Vote, reg: ValidatorSet) -> (
    LedgerView,
    Result<FinalityOutcome, VoteError>,
) {
    match spec_find_vote(s.votes, height, vote.voter_id@, 0) {
        Option::Some(i) => {
            if s.votes[i].vote.block_hash@ != vote.block_hash@ {
                (s, Result::Err(VoteError::Equivocation))
            } else {
                spec_apply_vote(s, height, vote, reg)
            }
        },
        Option::None => spec_apply_vote(s, height, vote, reg),
    }
}

proof fn lemma_aggregate_take_succ(
    votes: Seq<StoredVote>,
    height: u64,
    bh: Seq<char>,
    reg: ValidatorSet,
    i: int,
)
    requires
        0 <= i < votes.len(),
    ensures
        spec_aggregate(votes.take(i + 1), height, bh, reg) == spec_aggregate(
            votes.take(i),
            height,
            bh,
            reg,
        ) + vote_weight(votes[i], height, bh, reg),
{
    assert(votes.take(i + 1).drop_last() =~= votes.take(i));
    assert(votes.take(i + 1).last() == votes[i]);
}

/// Appending one stored vote adds its weight to the aggregate.
pub proof fn lemma_aggregate_push(
    votes: Seq<StoredVote>,
    sv: StoredVote,
    height: u64,
    bh: Seq<char>,
    reg: ValidatorSet,
)
    ensures
        spec_aggregate(votes.push(sv), height, bh, reg) == spec_aggregate(votes, height, bh, reg)
            + vote_weight(sv, height, bh, reg),
{
    assert(votes.push(sv).drop_last() =~= votes);
    assert(votes.push(sv).last() == sv);
}

proof fn lemma_find_vote_some_from(
    votes: Seq<StoredVote>,
    height: u64,
    voter: Seq<char>,
    from: int,
    k: int,
)
    requires
        0 <= from,
        spec_find_vote(votes, height, voter, from) == Option::Some(k),
    ensures
        from <= k < votes.len(),
        votes[k].height == height && votes[k].vote.voter_id@ == voter,
    decreases votes.len() - from,
{
    if from < votes.len() && !(votes[from].height == height && votes[from].vote.voter_id@
        == voter) {
        lemma_find_vote_some_from(votes, height, voter, from + 1, k);
    }
}

proof fn lemma_find_vote_none_from(votes: Seq<StoredVote>, height: u64, voter: Seq<char>, from: int)
    requires
        0 <= from,
        spec_find_vote(votes, height, voter, from) is None,
    ensures
        forall|i: int|
            from <= i < votes.len() ==> !(votes[i].height == height && votes[i].vote.voter_id@
                == voter),
    decreases votes.len() - from,
{
    if from < votes.len() {
        lemma_find_vote_none_from(votes, height, voter, from + 1);
    }
}

/// Pruning keeps keys unique and drops exactly the pruned height: every
/// remaining vote is one of the original votes, at another height.
pub proof fn lemma_prune_unique(votes: Seq<StoredVote>, height: u64)
    requires
        vote_keys_unique(votes),
    ensures
        vote_keys_unique(spec_prune(votes, height)),
        forall|k: int|
            0 <= k < spec_prune(votes, height).len() ==> #[trigger] spec_prune(votes, height)[k].height
                != height,
        forall|k: int|
            0 <= k < spec_prune(votes, height).len() ==> votes.contains(
                #[trigger] spec_prune(votes, height)[k],
            ),
    decreases votes.len(),
{
    if votes.len() > 0 {
        let d = votes.drop_last();
        lemma_prune_unique(d, height);
        let pd = spec_prune(d, height);
        assert(forall|k: int| 0 <= k < d.len() ==> votes.contains(#[trigger] d[k])) by {
            assert forall|k: int| 0 <= k < d.len() implies votes.contains(#[trigger] d[k]) by {
                assert(votes[k] == d[k]);
            }
        }
        assert forall|k: int| 0 <= k < pd.len() implies votes.contains(#[trigger] pd[k]) by {
            assert(d.contains(pd[k]));
            let m = choose|m: int| 0 <= m < d.len() && d[m] == pd[k];
            assert(votes[m] == pd[k]);
        }
        if votes.last().height != height {
            let p = spec_prune(votes, height);
            assert(p == pd.push(votes.last()));
            assert forall|i: int, j: int|
                0 <= i < j < p.len() implies !(p[i].height == p[j].height && p[i].vote.voter_id@
                == p[j].vote.voter_id@) by {
                if j == p.len() - 1 {
                    assert(p[j] == votes.last());
                    assert(d.contains(pd[i]));
                    let m = choose|m: int| 0 <= m < d.len() && d[m] == pd[i];
                    assert(votes[m] == p[i]);
                    assert(votes[votes.len() - 1] == votes.last());
                } else {
                    assert(p[i] == pd[i] && p[j] == pd[j]);
                }
            }
        }
    }
}

/// Vote records per height and block, and the finalized chain.
#[derive(Debug)]
pub struct ConsensusState {
    /// The next height to finalize.
    pub current_height: u64,
    /// The round within the current height.
    pub current_round: u32,
    /// Recorded votes, keyed by `(height, block hash, voter)`.
    pub votes: Vec<StoredVote>,
    /// Block hashes in finalization order, one per finalized height.
    pub finalized_blocks: Vec<String>,
    /// The heights finalized, parallel to `finalized_blocks`.
    pub finalized_heights: Vec<u64>,
}

impl View for ConsensusState {
    type V = LedgerView;

    open spec fn view(&self) -> LedgerView {
        LedgerView {
            current_height: self.current_height,
            current_round: self.current_round,
            votes: self.votes@,
            finalized_blocks: self.finalized_blocks@,
            finalized_heights: self.finalized_heights@,
        }
    }
}

impl ConsensusState {
    /// Well-formedness of the ledger.
    pub open spec fn wf(&self) -> bool {
        ledger_wf(self@)
    }

    /// An empty ledger at height zero.
    pub fn new() -> (r: ConsensusState)
        ensures
            r.wf(),
            r.current_height == 0,
            r.current_round == 0,
            r@.votes == Seq::<StoredVote>::empty(),
            r@.finalized_blocks == Seq::<String>::empty(),
            r@.finalized_heights == Seq::<u64>::empty(),
    {
        let r = ConsensusState {
            current_height: 0,
            current_round: 0,
            votes: Vec::new(),
            finalized_blocks: Vec::new(),
            finalized_heights: Vec::new(),
        };
        proof {
            assert(r@.votes =~= Seq::<StoredVote>::empty());
            assert(r@.finalized_blocks =~= Seq::<String>::empty());
            assert(r@.finalized_heights =~= Seq::<u64>::empty());
        }
        r
    }

    /// Index of the stored vote by `voter_id` at `height`, if any.
    fn find_vote_index(&self, height: u64, voter_id: &str) -> (r: Option<usize>)
        ensures
            (match r {
                Option::Some(i) => spec_find_vote(self.votes@, height, voter_id@, 0)
                    == Option::Some(i as int) && i < self.votes@.len(),
                Option::None => spec_find_vote(self.votes@, height, voter_id@, 0) is None,
            }),
    {
        let n = self.votes.len();
        let mut i: usize = 0;
        while i < n
            invariant
                0 <= i <= n,
                n == self.votes@.len(),
                spec_find_vote(self.votes@, height, voter_id@, 0) == spec_find_vote(
                    self.votes@,
                    height,
                    voter_id@,
                    i as int,
                ),
            decreases n - i,
        {
            if self.votes[i].height == height && str_eq(
                self.votes[i].vote.voter_id.as_str(),
                voter_id,
            ) {
                return Option::Some(i);
            }
            i = i + 1;
        }
        Option::None
    }

    /// Whether `height` is already finalized.
    pub fn height_finalized(&self, height: u64) -> (r: bool)
        ensures
            r == self.finalized_heights@.contains(height),
    {
        let n = self.finalized_heights.len();
        let mut i: usize = 0;
        while i < n
            invariant
                0 <= i <= n,
                n == self.finalized_heights@.len(),
                forall|j: int| 0 <= j < i ==> self.finalized_heights@[j] != height,
            decreases n - i,
        {
            if self.finalized_heights[i] == height {
                return true;
            }
            i = i + 1;
        }
        false
    }

    /// Aggregate active stake voted for `(height, block_hash)`.
    pub fn aggregate_stake(&self, height: u64, block_hash: &str, registry: &ValidatorSet) -> (r:
        u128)
        ensures
            r as int == spec_aggregate(self.votes@, height, block_hash@, *registry),
    {
        let n = self.votes.len();
        let mut sum: u128 = 0;
        let mut i: usize = 0;
        proof {
            assert(self.votes@.take(0) =~= Seq::<StoredVote>::empty());
        }
        while i < n
            invariant
                0 <= i <= n,
                n == self.votes@.len(),
                sum as int == spec_aggregate(
                    self.votes@.take(i as int),
                    height,
                    block_hash@,
                    *registry,
                ),
                sum as int <= (i as int) * (u64::MAX as int),
            decreases n - i,
        {
            proof {
                lemma_aggregate_take_succ(self.votes@, height, block_hash@, *registry, i as int);
                assert((i as int + 1) * (u64::MAX as int) == (i as int) * (u64::MAX as int)
                    + u64::MAX as int) by (nonlinear_arith);
                assert((i as int + 1) * (u64::MAX as int) < u128::MAX as int) by (nonlinear_arith)
                    requires
                        0 <= i as int + 1 <= u64::MAX as int + 1,
                ;
            }
            let sv = &self.votes[i];
            if sv.height == height && str_eq(sv.vote.block_hash.as_str(), block_hash)
                && registry.is_active(sv.vote.voter_id.as_str()) {
                sum = sum + (sv.vote.stake as u128);
            }
            i = i + 1;
        }
        proof {
            assert(self.votes@.take(n as int) =~= self.votes@);
        }
        sum
    }

    /// Removes every stored vote at `height`.
    fn prune_height(&mut self, height: u64)
        ensures
            final(self).votes@ == spec_prune(old(self).votes@, height),
            final(self).current_height == old(self).current_height,
            final(self).current_round == old(self).current_round,
            final(self).finalized_blocks@ == old(self).finalized_blocks@,
            final(self).finalized_heights@ == old(self).finalized_heights@,
    {
        let ghost orig = self.votes@;
        let mut i: usize = 0;
        let ghost j: int = 0;
        proof {
            assert(orig.take(0) =~= Seq::<StoredVote>::empty());
            assert(self.votes@.take(0) =~= Seq::<StoredVote>::empty());
            assert(self.votes@.skip(0) =~= orig.skip(0));
        }
        while i < self.votes.len()
            invariant
                0 <= i <= self.votes@.len(),
                0 <= j <= orig.len(),
                self.votes@.len() - i == orig.len() - j,
                self.votes@.take(i as int) == spec_prune(orig.take(j), height),
                i as int == spec_prune(orig.take(j), height).len(),
                self.votes@.skip(i as int) == orig.skip(j),
                self.current_height == old(self).current_height,
                self.current_round == old(self).current_round,
                self.finalized_blocks@ == old(self).finalized_blocks@,
                self.finalized_heights@ == old(self).finalized_heights@,
            decreases self.votes@.len() - i,
        {
            proof {
                assert(self.votes@.skip(i as int)[0] == orig.skip(j)[0]);
                assert(self.votes@[i as int] == orig[j]);
                assert(orig.take(j + 1).drop_last() =~= orig.take(j));
                assert(orig.take(j + 1).last() == orig[j]);
            }
            let ghost pre = self.votes@;
            if self.votes[i].height == height {
                let _ = self.votes.remove(i);
                proof {
                    let newv = self.votes@;
                    assert forall|k: int| 0 <= k < newv.len() - i as int implies #[trigger] newv.skip(
                        i as int,
                    )[k] == orig.skip(j + 1)[k] by {
                        assert(newv[i as int + k] == pre[i as int + k + 1]);
                        assert(pre.skip(i as int)[k + 1] == orig.skip(j)[k + 1]);
                    }
                    assert(newv.skip(i as int) =~= orig.skip(j + 1));
                    assert(newv.take(i as int) =~= pre.take(i as int));
                    j = j + 1;
                }
            } else {
                proof {
                    let pi = i as int;
                    assert(pre.take(pi + 1) =~= pre.take(pi).push(orig[j]));
                    assert forall|k: int| 0 <= k < pre.len() - pi - 1 implies #[trigger] pre.skip(
                        pi + 1,
                    )[k] == orig.skip(j + 1)[k] by {
                        assert(pre.skip(pi)[k + 1] == orig.skip(j)[k + 1]);
                    }
                    assert(pre.skip(pi + 1) =~= orig.skip(j + 1));
                    j = j + 1;
                }
                i = i + 1;
            }
        }
        proof {
            assert(j == orig.len());
            assert(orig.take(j) =~= orig);
            assert(self.votes@.take(i as int) =~= self.votes@);
        }
    }

    /// Records a vote at `height` and decides finality. The insert and the
    /// threshold comparison are one call, the critical section of the
    /// ledger: no reader can observe the vote without its finality
    /// consequence.
    ///
    /// Equivocation (same voter, same height, different block) is rejected
    /// and the ledger is unchanged. Otherwise the vote is inserted
    /// (idempotently on a duplicate key); when the block's aggregate active
    /// stake reaches the registry's supermajority threshold and the height
    /// is not yet final, the block is appended to the finalized chain, the
    /// current height advances to `height + 1`, the round resets, and the
    /// height's votes are pruned. The result and the new state are exactly
    /// `spec_record_vote`.
    pub fn record_vote(&mut self, height: u64, vote: Vote, registry: &ValidatorSet) -> (r: Result<
        FinalityOutcome,
        VoteError,
    >)
        requires
            old(self).wf(),
            height < u64::MAX,
        ensures
            final(self).wf(),
            final(self)@ == spec_record_vote(old(self)@, height, vote, *registry).0,
            r == spec_record_vote(old(self)@, height, vote, *registry).1,
    {
        let ghost s0 = self@;
        let ghost gvote = vote;
        let bh = vote.block_hash.clone();
        let found = self.find_vote_index(height, vote.voter_id.as_str());
        match found {
            Option::Some(k) => {
                proof {
                    lemma_find_vote_some_from(s0.votes, height, gvote.voter_id@, 0, k as int);
                }
                if !str_eq(self.votes[k].vote.block_hash.as_str(), bh.as_str()) {
                    return Result::Err(VoteError::Equivocation);
                }
            },
            Option::None => {
                proof {
                    lemma_find_vote_none_from(s0.votes, height, gvote.voter_id@, 0);
                }
                self.votes.push(StoredVote { height, vote });
            },
        }
        let ghost votes1 = spec_insert_vote(s0.votes, height, gvote);
        proof {
            assert(self.votes@ == votes1);
            assert(vote_keys_unique(votes1)) by {
                if spec_find_vote(s0.votes, height, gvote.voter_id@, 0) is None {
                    lemma_find_vote_none_from(s0.votes, height, gvote.voter_id@, 0);
                }
            }
        }
        let agg = self.aggregate_stake(height, bh.as_str(), registry);
        let th = registry.quorum_threshold();
        let already = self.height_finalized(height);
        if agg >= th as u128 && !already {
            self.finalized_blocks.push(bh);
            self.finalized_heights.push(height);
            self.current_height = height + 1;
            self.current_round = 0;
            self.prune_height(height);
            proof {
                lemma_prune_unique(votes1, height);
                assert(self@ =~= spec_record_vote(s0, height, gvote, *registry).0);
            }
            Result::Ok(FinalityOutcome::Finalized)
        } else {
            proof {
                assert(self@ =~= spec_record_vote(s0, height, gvote, *registry).0);
            }
            Result::Ok(FinalityOutcome::Pending)
        }
    }

    /// The recorded votes grouped by block hash, over all heights. Keys are
    /// distinct, each group holds in order exactly the votes whose block
    /// hash equals its key, and every recorded vote's hash appears as a key.
    pub fn group_votes_by_block(&self) -> (r: Vec<(String, Vec<Vote>)>)
        ensures
            forall|a: int, b: int| 0 <= a < b < r@.len() ==> r@[a].0@ != r@[b].0@,
            forall|a: int|
                0 <= a < r@.len() ==> (#[trigger] r@[a]).1@ == spec_votes_for(
                    self.votes@,
                    r@[a].0@,
                ),
            forall|k: int|
                0 <= k < self.votes@.len() ==> #[trigger] has_group(
                    r@,
                    self.votes@[k].vote.block_hash@,
                ),
    {
        let n = self.votes.len();
        let mut r: Vec<(String, Vec<Vote>)> = Vec::new();
        let mut k: usize = 0;
        while k < n
            invariant
                0 <= k <= n,
                n == self.votes@.len(),
                forall|a: int, b: int| 0 <= a < b < r@.len() ==> r@[a].0@ != r@[b].0@,
                forall|a: int|
                    0 <= a < r@.len() ==> (#[trigger] r@[a]).1@ == spec_votes_for(
                        self.votes@,
                        r@[a].0@,
                    ),
                forall|i: int|
                    0 <= i < k ==> #[trigger] has_group(r@, self.votes@[i].vote.block_hash@),
            decreases n - k,
        {
            let bh = &self.votes[k].vote.block_hash;
            let fg = find_group(&r, bh.as_str());
            let ghost r0 = r@;
            if fg.is_none() {
                let mut g: Vec<Vote> = Vec::new();
                let mut m: usize = 0;
                proof {
                    assert(self.votes@.take(0) =~= Seq::<StoredVote>::empty());
                }
                while m < n
                    invariant
                        0 <= m <= n,
                        n == self.votes@.len(),
                        k < n,
                        bh == &self.votes@[k as int].vote.block_hash,
                        g@ == spec_votes_for(self.votes@.take(m as int), bh@),
                    decreases n - m,
                {
                    proof {
                        assert(self.votes@.take(m as int + 1).drop_last() =~= self.votes@.take(
                            m as int,
                        ));
                        assert(self.votes@.take(m as int + 1).last() == self.votes@[m as int]);
                    }
                    if str_eq(self.votes[m].vote.block_hash.as_str(), bh.as_str()) {
                        g.push(clone_vote(&self.votes[m].vote));
                    }
                    m = m + 1;
                }
                proof {
                    assert(self.votes@.take(n as int) =~= self.votes@);
                }
                let key = bh.clone();
                r.push((key, g));
                proof {
                    assert(forall|a: int| 0 <= a < r0.len() ==> r@[a] == r0[a]);
                }
            }
            proof {
                match fg {
                    Option::Some(a) => {
                        assert(r@[a as int].0@ == self.votes@[k as int].vote.block_hash@);
                        assert(has_group(r@, self.votes@[k as int].vote.block_hash@));
                    },
                    Option::None => {
                        assert(r@[r@.len() - 1].0@ == self.votes@[k as int].vote.block_hash@);
                        assert(has_group(r@, self.votes@[k as int].vote.block_hash@));
                    },
                }
                assert forall|i: int| 0 <= i < k + 1 implies #[trigger] has_group(
                    r@,
                    self.votes@[i].vote.block_hash@,
                ) by {
                    if i < k {
                        assert(has_group(r0, self.votes@[i].vote.block_hash@));
                        let a0 = choose|a: int|
                            0 <= a < r0.len() && (#[trigger] r0[a]).0@
                                == self.votes@[i].vote.block_hash@;
                        assert(0 <= a0 < r@.len() && r@[a0].0@
                            == self.votes@[i].vote.block_hash@);
                    }
                }
            }
            k = k + 1;
        }
        r
    }
}

/// Whether some group in `r` is keyed by `bh`.
pub open spec fn has_group(r: Seq<(String, Vec<Vote>)>, bh: Seq<char>) -> bool {
    exists|a: int| 0 <= a < r.len() && (#[trigger] r[a]).0@ == bh
}

/// Copy of a vote, equal to the original.
pub fn clone_vote(v: &Vote) -> (r: Vote)
    ensures
        r == *v,
{
    let r = Vote {
        block_hash: v.block_hash.clone(),
        voter_id: v.voter_id.clone(),
        stake: v.stake,
        timestamp: v.timestamp,
        signature: v.signature.clone(),
    };
    r
}

/// The votes in `votes`, in order, whose block hash is `bh`.
pub open spec fn spec_votes_for(votes: Seq<StoredVote>, bh: Seq<char>) -> Seq<Vote>
    decreases votes.len(),
{
    if votes.len() == 0 {
        Seq::<Vote>::empty()
    } else {
        let rest = spec_votes_for(votes.drop_last(), bh);
        if votes.last().vote.block_hash@ == bh {
            rest.push(votes.last().vote)
        } else {
            rest
        }
    }
}

/// Index of the group keyed by `bh`, if any.
fn find_group(r: &Vec<(String, Vec<Vote>)>, bh: &str) -> (res: Option<usize>)
    ensures
        (match res {
            Option::Some(a) => a < r@.len() && r@[a as int].0@ == bh@,
            Option::None => forall|a: int| 0 <= a < r@.len() ==> (#[trigger] r@[a]).0@ != bh@,
        }),
{
    let n = r.len();
    let mut i: usize = 0;
    while i < n
        invariant
            0 <= i <= n,
            n == r@.len(),
            forall|a: int| 0 <= a < i ==> (#[trigger] r@[a]).0@ != bh@,
        decreases n - i,
    {
        if str_eq(r[i].0.as_str(), bh) {
            return Option::Some(i);
        }
        i = i + 1;
    }
    Option::None
}

/// After appending a vote whose `(height, voter)` key is absent, the search
/// for that key finds exactly the appended entry.
proof fn lemma_find_vote_push(votes: Seq<StoredVote>, height: u64, sv: StoredVote, from: int)
    requires
        0 <= from <= votes.len(),
        sv.height == height,
        spec_find_vote(votes, height, sv.vote.voter_id@, from) is None,
    ensures
        spec_find_vote(votes.push(sv), height, sv.vote.voter_id@, from) == Option::Some(
            votes.len() as int,
        ),
    decreases votes.len() - from,
{
    let p = votes.push(sv);
    if from < votes.len() {
        assert(p[from] == votes[from]);
        lemma_find_vote_push(votes, height, sv, from + 1);
    } else {
        assert(p[from] == sv);
    }
}

/// Law: recording the identical vote twice changes the aggregate stake for
/// its `(height, block hash)` key by that vote's stake exactly once. Stated
/// for a fresh, active voter whose first record leaves the block pending;
/// the second record then changes nothing at all.
pub proof fn lemma_record_idempotent(s: LedgerView, height: u64, vote: Vote, reg: ValidatorSet)
    requires
        ledger_wf(s),
        spec_find_vote(s.votes, height, vote.voter_id@, 0) is None,
        spec_is_active(reg, vote.voter_id@),
        spec_record_vote(s, height, vote, reg).1 == Result::<FinalityOutcome, VoteError>::Ok(
            FinalityOutcome::Pending,
        ),
    ensures
        spec_aggregate(
            spec_record_vote(s, height, vote, reg).0.votes,
            height,
            vote.block_hash@,
            reg,
        ) == spec_aggregate(s.votes, height, vote.block_hash@, reg) + vote.stake as int,
        spec_record_vote(spec_record_vote(s, height, vote, reg).0, height, vote, reg).0
            == spec_record_vote(s, height, vote, reg).0,
        spec_record_vote(spec_record_vote(s, height, vote, reg).0, height, vote, reg).1
            == Result::<FinalityOutcome, VoteError>::Ok(FinalityOutcome::Pending),
{
    let sv = StoredVote { height, vote };
    let votes1 = spec_insert_vote(s.votes, height, vote);
    assert(votes1 == s.votes.push(sv));
    lemma_aggregate_push(s.votes, sv, height, vote.block_hash@, reg);
    assert(vote_weight(sv, height, vote.block_hash@, reg) == vote.stake as int);
    let s1 = spec_record_vote(s, height, vote, reg).0;
    assert(s1.votes == votes1);
    lemma_find_vote_push(s.votes, height, sv, 0);
    let k = s.votes.len() as int;
    assert(spec_find_vote(votes1, height, vote.voter_id@, 0) == Option::Some(k));
    assert(votes1[k].vote.block_hash@ == vote.block_hash@);
    assert(spec_insert_vote(votes1, height, vote) == votes1);
    assert(spec_record_vote(s1, height, vote, reg).0 =~= s1);
}

/// Law: for a fixed validator set, recording a further vote never decreases
/// a block's aggregate active stake.
pub proof fn lemma_aggregate_monotone(
    votes: Seq<StoredVote>,
    h2: u64,
    vote: Vote,
    height: u64,
    bh: Seq<char>,
    reg: ValidatorSet,
)
    ensures
        spec_aggregate(spec_insert_vote(votes, h2, vote), height, bh, reg) >= spec_aggregate(
            votes,
            height,
            bh,
            reg,
        ),
{
    if spec_find_vote(votes, h2, vote.voter_id@, 0) is None {
        lemma_aggregate_push(votes, StoredVote { height: h2, vote }, height, bh, reg);
    }
}

/// Law: finality is permanent. Recording any further vote preserves every
/// finalized `(height, block)` entry, and a height already finalized is
/// never finalized again or overwritten.
pub proof fn lemma_finality_permanent(s: LedgerView, height: u64, vote: Vote, reg: ValidatorSet)
    requires
        ledger_wf(s),
    ensures
        spec_record_vote(s, height, vote, reg).0.finalized_heights.len()
            >= s.finalized_heights.len(),
        forall|k: int|
            0 <= k < s.finalized_heights.len()
                ==> #[trigger] spec_record_vote(s, height, vote, reg).0.finalized_heights[k]
                == s.finalized_heights[k] && spec_record_vote(
                s,
                height,
                vote,
                reg,
            ).0.finalized_blocks[k] == s.finalized_blocks[k],
        s.finalized_heights.contains(height) ==> spec_record_vote(
            s,
            height,
            vote,
            reg,
        ).0.finalized_heights == s.finalized_heights && spec_record_vote(
            s,
            height,
            vote,
            reg,
        ).0.finalized_blocks == s.finalized_blocks,
{
}

} // verus!
