//! Stake-weighted validator identities and the quorum threshold.
//!
//! `ValidatorSet` keeps the mapping from node id to validator together with
//! two derived fields, the total active stake and the supermajority
//! threshold `ceil(2 * total / 3)`. Every mutation re-establishes the
//! well-formedness invariant `wf`, so no caller ever observes stale totals.

use vstd::prelude::*;
use crate::strutil::str_eq;

verus! {

/// A stake-weighted validator identity.
#[derive(Debug, Clone, PartialEq, Eq)]
pub struct Validator {
    pub node_id: String,
    pub stake: u64,
    pub public_key: String,
    pub is_active: bool,
    pub last_vote_time: u64,
}

/// The stake a validator contributes to the active total.
pub open spec fn active_stake(v: Validator) -> int {
    if v.is_active {
        v.stake as int
    } else {
        0
    }
}

/// Sum of the active stakes of a sequence of validators.
pub open spec fn spec_active_stake_sum(vs: Seq<Validator>) -> int
    decreases vs.len(),
{
    if vs.len() == 0 {
        0
    } else {
        spec_active_stake_sum(vs.drop_last()) + active_stake(vs.last())
    }
}

/// Index of the first validator with the given node id at or after `from`.
pub open spec fn spec_find_validator(vs: Seq<Validator>, id: Seq<char>, from: int) -> Option<int>
    decreases vs.len() - from,
{
    if from < 0 || from >= vs.len() {
        Option::None
    } else if vs[from].node_id@ == id {
        Option::Some(from)
    } else {
        spec_find_validator(vs, id, from + 1)
    }
}

/// The validator registered under the given node id, if any.
pub open spec fn spec_validator_of(vs: Seq<Validator>, id: Seq<char>) -> Option<Validator> {
    match spec_find_validator(vs, id, 0) {
        Option::None => Option::None,
        Option::Some(i) => Option::Some(vs[i]),
    }
}

/// The validator sequence after an upsert: replace the entry with the same
/// node id, or append when none exists.
pub open spec fn spec_upsert(vs: Seq<Validator>, v: Validator) -> Seq<Validator> {
    match spec_find_validator(vs, v.node_id@, 0) {
        Option::Some(i) => vs.update(i, v),
        Option::None => vs.push(v),
    }
}

/// The supermajority threshold: `ceil(2 * total / 3)`.
pub open spec fn spec_quorum(total: int) -> int {
    (2 * total + 2) / 3
}

proof fn lemma_active_sum_nonneg(vs: Seq<Validator>)
    ensures
        spec_active_stake_sum(vs) >= 0,
    decreases vs.len(),
{
    if vs.len() > 0 {
        lemma_active_sum_nonneg(vs.drop_last());
    }
}

proof fn lemma_active_sum_take_succ(vs: Seq<Validator>, i: int)
    requires
        0 <= i < vs.len(),
    ensures
        spec_active_stake_sum(vs.take(i + 1)) == spec_active_stake_sum(vs.take(i)) + active_stake(
            vs[i],
        ),
{
    assert(vs.take(i + 1).drop_last() =~= vs.take(i));
    assert(vs.take(i + 1).last() == vs[i]);
}

proof fn lemma_active_sum_take_all(vs: Seq<Validator>)
    ensures
        spec_active_stake_sum(vs.take(vs.len() as int)) == spec_active_stake_sum(vs),
{
    assert(vs.take(vs.len() as int) =~= vs);
}

proof fn lemma_active_sum_take_bound(vs: Seq<Validator>, i: int)
    requires
        0 <= i <= vs.len(),
    ensures
        spec_active_stake_sum(vs.take(i)) <= spec_active_stake_sum(vs),
    decreases vs.len() - i,
{
    if i == vs.len() {
        lemma_active_sum_take_all(vs);
    } else {
        lemma_active_sum_take_succ(vs, i);
        lemma_active_sum_take_bound(vs, i + 1);
    }
}

/// Replacing one validator changes the active sum by the difference of the
/// two contributions.
pub proof fn lemma_active_sum_update(vs: Seq<Validator>, i: int, v: Validator)
    requires
        0 <= i < vs.len(),
    ensures
        spec_active_stake_sum(vs.update(i, v)) == spec_active_stake_sum(vs) - active_stake(vs[i])
            + active_stake(v),
    decreases vs.len(),
{
    if i == vs.len() - 1 {
        assert(vs.update(i, v).drop_last() =~= vs.drop_last());
        assert(vs.update(i, v).last() == v);
    } else {
        assert(vs.update(i, v).drop_last() =~= vs.drop_last().update(i, v));
        assert(vs.update(i, v).last() == vs.last());
        lemma_active_sum_update(vs.drop_last(), i, v);
    }
}

/// The registered validators with their derived totals.
#[derive(Debug, Clone)]
pub struct ValidatorSet {
    /// The registered validators; node ids are unique.
    pub validators: Vec<Validator>,
    /// Sum of the stakes of the active validators.
    pub total_stake: u64,
    /// `ceil(2 * total_stake / 3)`, the stake needed for finality.
    pub supermajority_threshold: u64,
}

impl ValidatorSet {
    /// Well-formedness: unique node ids, and both derived fields equal
    /// their defining formulas.
    pub open spec fn wf(&self) -> bool {
        &&& forall|i: int, j: int|
            0 <= i < j < self.validators@.len() ==> self.validators@[i].node_id@
                != self.validators@[j].node_id@
        &&& self.total_stake as int == spec_active_stake_sum(self.validators@)
        &&& self.supermajority_threshold as int == spec_quorum(self.total_stake as int)
    }

    /// An empty registry: no validators, no stake, zero threshold.
    pub fn new() -> (r: ValidatorSet)
        ensures
            r.wf(),
            r.validators@ == Seq::<Validator>::empty(),
            r.total_stake == 0,
            r.supermajority_threshold == 0,
    {
        let r = ValidatorSet { validators: Vec::new(), total_stake: 0, supermajority_threshold: 0 };
        proof {
            assert(r.validators@ =~= Seq::<Validator>::empty());
        }
        r
    }

    /// Index of the validator registered under `node_id`, if any.
    fn find_index(&self, node_id: &str) -> (r: Option<usize>)
        ensures
            (match r {
                Option::Some(i) => spec_find_validator(self.validators@, node_id@, 0)
                    == Option::Some(i as int) && i < self.validators@.len(),
                Option::None => spec_find_validator(self.validators@, node_id@, 0) is None,
            }),
    {
        let n = self.validators.len();
        let mut i: usize = 0;
        while i < n
            invariant
                0 <= i <= n,
                n == self.validators@.len(),
                spec_find_validator(self.validators@, node_id@, 0) == spec_find_validator(
                    self.validators@,
                    node_id@,
                    i as int,
                ),
            decreases n - i,
        {
            if str_eq(self.validators[i].node_id.as_str(), node_id) {
                return Option::Some(i);
            }
            i = i + 1;
        }
        Option::None
    }

    /// Recomputes `total_stake` and `supermajority_threshold` from the
    /// validator sequence.
    fn recompute_totals(&mut self)
        requires
            spec_active_stake_sum(old(self).validators@) <= u64::MAX as int,
        ensures
            final(self).validators@ == old(self).validators@,
            final(self).total_stake as int == spec_active_stake_sum(final(self).validators@),
            final(self).supermajority_threshold as int == spec_quorum(
                final(self).total_stake as int,
            ),
    {
        let n = self.validators.len();
        let mut sum: u64 = 0;
        let mut i: usize = 0;
        proof {
            assert(self.validators@.take(0) =~= Seq::<Validator>::empty());
        }
        while i < n
            invariant
                0 <= i <= n,
                n == self.validators@.len(),
                spec_active_stake_sum(self.validators@) <= u64::MAX as int,
                sum as int == spec_active_stake_sum(self.validators@.take(i as int)),
            decreases n - i,
        {
            proof {
                lemma_active_sum_take_succ(self.validators@, i as int);
                lemma_active_sum_take_bound(self.validators@, i as int + 1);
                lemma_active_sum_nonneg(self.validators@.take(i as int));
            }
            if self.validators[i].is_active {
                sum = sum + self.validators[i].stake;
            }
            i = i + 1;
        }
        proof {
            lemma_active_sum_take_all(self.validators@);
        }
        self.total_stake = sum;
        let t2: u128 = 2 * (sum as u128) + 2;
        let th: u128 = t2 / 3;
        assert(th <= sum as u128) by (nonlinear_arith)
            requires
                t2 == 2 * (sum as u128) + 2,
                th == t2 / 3,
        ;
        self.supermajority_threshold = th as u64;
    }

    /// Inserts or replaces the validator registered under `v.node_id` and
    /// recomputes both derived totals atomically.
    pub fn upsert(&mut self, v: Validator)
        requires
            old(self).wf(),
            spec_active_stake_sum(spec_upsert(old(self).validators@, v)) <= u64::MAX as int,
        ensures
            final(self).wf(),
            final(self).validators@ == spec_upsert(old(self).validators@, v),
    {
        let ghost vs0 = self.validators@;
        match self.find_index(v.node_id.as_str()) {
            Option::Some(i) => {
                self.validators.set(i, v);
            },
            Option::None => {
                self.validators.push(v);
            },
        }
        proof {
            assert(self.validators@ == spec_upsert(vs0, v));
            assert forall|i: int, j: int|
                0 <= i < j < self.validators@.len() implies self.validators@[i].node_id@
                != self.validators@[j].node_id@ by {
            match spec_find_validator(vs0, v.node_id@, 0) {
                Option::Some(k) => {
                    lemma_find_validator_some(vs0, v.node_id@, k);
                },
                Option::None => {
                    lemma_find_validator_none(vs0, v.node_id@);
                },
            }
            }
        }
        self.recompute_totals();
    }

    /// Marks the validator registered under `node_id` inactive (a no-op for
    /// an unknown id) and recomputes both derived totals atomically.
    pub fn deactivate(&mut self, node_id: &str)
        requires
            old(self).wf(),
        ensures
            final(self).wf(),
            (match spec_find_validator(old(self).validators@, node_id@, 0) {
                Option::Some(i) => final(self).validators@ == old(self).validators@.update(
                    i,
                    Validator { is_active: false, ..old(self).validators@[i] },
                ),
                Option::None => final(self).validators@ == old(self).validators@,
            }),
    {
        let ghost vs0 = self.validators@;
        match self.find_index(node_id) {
            Option::Some(i) => {
                let old_v = &self.validators[i];
                let v = Validator {
                    node_id: old_v.node_id.clone(),
                    stake: old_v.stake,
                    public_key: old_v.public_key.clone(),
                    is_active: false,
                    last_vote_time: old_v.last_vote_time,
                };
                proof {
                    lemma_active_sum_update(vs0, i as int, v);
                    lemma_active_sum_nonneg(vs0);
                }
                self.validators.set(i, v);
                proof {
                    assert forall|a: int, b: int|
                        0 <= a < b < self.validators@.len() implies self.validators@[a].node_id@
                        != self.validators@[b].node_id@ by {}
                }
                self.recompute_totals();
            },
            Option::None => {
            },
        }
    }

    /// The stake of the validator registered under `node_id`, if any.
    pub fn stake_of(&self, node_id: &str) -> (r: Option<u64>)
        ensures
            (match spec_validator_of(self.validators@, node_id@) {
                Option::Some(v) => r == Option::Some(v.stake),
                Option::None => r is None,
            }),
    {
        match self.find_index(node_id) {
            Option::Some(i) => Option::Some(self.validators[i].stake),
            Option::None => Option::None,
        }
    }

    /// Whether a validator is registered under `node_id` and active.
    pub fn is_active(&self, node_id: &str) -> (r: bool)
        ensures
            r == (match spec_validator_of(self.validators@, node_id@) {
                Option::Some(v) => v.is_active,
                Option::None => false,
            }),
    {
        match self.find_index(node_id) {
            Option::Some(i) => self.validators[i].is_active,
            Option::None => false,
        }
    }

    /// The stake needed for finality. Under `wf` this equals
    /// `ceil(2 * total_stake / 3)`.
    pub fn quorum_threshold(&self) -> (r: u64)
        ensures
            r == self.supermajority_threshold,
    {
        self.supermajority_threshold
    }
}

/// A found index really carries the id, and nothing before it does.
proof fn lemma_find_validator_some(vs: Seq<Validator>, id: Seq<char>, k: int)
    requires
        spec_find_validator(vs, id, 0) == Option::Some(k),
    ensures
        0 <= k < vs.len(),
        vs[k].node_id@ == id,
    decreases vs.len(),
{
    lemma_find_validator_some_from(vs, id, 0, k);
}

proof fn lemma_find_validator_some_from(vs: Seq<Validator>, id: Seq<char>, from: int, k: int)
    requires
        0 <= from,
        spec_find_validator(vs, id, from) == Option::Some(k),
    ensures
        from <= k < vs.len(),
        vs[k].node_id@ == id,
    decreases vs.len() - from,
{
    if from < vs.len() && vs[from].node_id@ != id {
        lemma_find_validator_some_from(vs, id, from + 1, k);
    }
}

/// A failed search means no validator carries the id.
proof fn lemma_find_validator_none(vs: Seq<Validator>, id: Seq<char>)
    requires
        spec_find_validator(vs, id, 0) is None,
    ensures
        forall|i: int| 0 <= i < vs.len() ==> vs[i].node_id@ != id,
{
    lemma_find_validator_none_from(vs, id, 0);
}

proof fn lemma_find_validator_none_from(vs: Seq<Validator>, id: Seq<char>, from: int)
    requires
        0 <= from,
        spec_find_validator(vs, id, from) is None,
    ensures
        forall|i: int| from <= i < vs.len() ==> vs[i].node_id@ != id,
    decreases vs.len() - from,
{
    if from < vs.len() {
        lemma_find_validator_none_from(vs, id, from + 1);
    }
}

} // verus!
