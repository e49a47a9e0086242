//! Proof of stake: a validator drawn with probability proportional to its
//! stake signs the next block; a block verifies when its signer is a
//! validator with a positive stake.
use vstd::prelude::*;
use vstd::string::StringExecFns;
use rand::{Rng, SeedableRng};
use crate::poh::{picks_at, slot_of, stake_sum, total_stake, Validator};

verus! {

/// A block with the id of the validator that made it.
#[derive(Debug)]
pub struct Block {
    pub previous_hash: String,
    pub transactions: Vec<String>,
    pub timestamp: u64,
    pub validator_id: String,
}

/// The validators taking part.
#[derive(Debug)]
pub struct PosSystem {
    pub validators: Vec<Validator>,
}

/// The number in `0..bound` that `rand`'s `StdRng` seeded with `seed` draws
/// first.
pub uninterp spec fn seeded_draw(seed: u64, bound: u64) -> u64;

/// Calls `StdRng::seed_from_u64(seed).gen_range(0..bound)`. Trusted: the
/// generator is deterministic for a given seed, and the draw lies in the
/// range, which must not be empty.
#[verifier::external_body]
fn draw_below(seed: u64, bound: u64) -> (r: u64)
    requires
        bound > 0,
    ensures
        r == seeded_draw(seed, bound),
        r < bound,
{
    rand::rngs::StdRng::seed_from_u64(seed).gen_range(0..bound)
}

impl Block {
    /// A block signed by `validator_id` and stamped with `timestamp`.
    pub fn new(previous_hash: &str, transactions: Vec<String>, validator_id: &str, timestamp: u64) -> (b: Block)
        ensures
            b.previous_hash@ == previous_hash@,
            b.transactions == transactions,
            b.timestamp == timestamp,
            b.validator_id@ == validator_id@,
    {
        Block {
            previous_hash: String::from_str(previous_hash),
            transactions,
            timestamp,
            validator_id: String::from_str(validator_id),
        }
    }
}

impl PosSystem {
    /// A system of these validators.
    pub fn new(validators: Vec<Validator>) -> (s: PosSystem)
        ensures
            s.validators == validators,
    {
        PosSystem { validators }
    }

    /// The validator whose slice of the stakes holds `target`.
    pub fn pick_validator(&self, target: u64) -> (v: &Validator)
        requires
            target < stake_sum(self.validators@, self.validators@.len() as int),
        ensures
            exists|i: int| picks_at(self.validators@, target as int, i) && *v == self.validators@[i],
    {
        let i = slot_of(&self.validators, target);
        &self.validators[i]
    }

    /// The validator drawn for `seed`, weighted by stake. The stakes must
    /// sum to a positive `u64`.
    pub fn select_validator(&self, seed: u64) -> (v: &Validator)
        requires
            0 < stake_sum(self.validators@, self.validators@.len() as int) <= u64::MAX,
        ensures
            exists|i: int|
                picks_at(
                    self.validators@,
                    seeded_draw(seed, stake_sum(self.validators@, self.validators@.len() as int) as u64) as int,
                    i,
                ) && *v == self.validators@[i],
    {
        let total = total_stake(&self.validators);
        let target = draw_below(seed, total);
        self.pick_validator(target)
    }

    /// A block signed by the validator drawn for `seed`, stamped `now`.
    pub fn create_block(&self, previous_hash: &str, transactions: Vec<String>, seed: u64, now: u64) -> (b: Block)
        requires
            0 < stake_sum(self.validators@, self.validators@.len() as int) <= u64::MAX,
        ensures
            b.previous_hash@ == previous_hash@,
            b.transactions == transactions,
            b.timestamp == now,
            exists|i: int|
                picks_at(
                    self.validators@,
                    seeded_draw(seed, stake_sum(self.validators@, self.validators@.len() as int) as u64) as int,
                    i,
                ) && b.validator_id@ == self.validators@[i].id@,
    {
        let validator = self.select_validator(seed);
        Block::new(previous_hash, transactions, validator.id.as_str(), now)
    }

    /// Whether some validator with a positive stake has the block's signer id.
    pub fn verify_block(&self, block: &Block) -> (ok: bool)
        ensures
            ok == exists|i: int|
                0 <= i < self.validators@.len() && (#[trigger] self.validators@[i]).id@
                    == block.validator_id@ && self.validators@[i].stake > 0,
    {
        let mut i: usize = 0;
        while i < self.validators.len()
            invariant
                i <= self.validators@.len(),
                forall|j: int|
                    0 <= j < i ==> !((#[trigger] self.validators@[j]).id@ == block.validator_id@
                        && self.validators@[j].stake > 0),
            decreases self.validators@.len() - i,
        {
            if self.validators[i].id == block.validator_id && self.validators[i].stake > 0 {
                return true;
            }
            i = i + 1;
        }
        false
    }
}

/// Every block that `create_block` makes verifies: the drawn validator's
/// slice of the stakes is not empty, so its stake is positive.
pub proof fn lemma_created_block_verifies(s: PosSystem, b: Block, t: int)
    requires
        exists|i: int| picks_at(s.validators@, t, i) && b.validator_id@ == s.validators@[i].id@,
    ensures
        exists|i: int|
            0 <= i < s.validators@.len() && (#[trigger] s.validators@[i]).id@ == b.validator_id@
                && s.validators@[i].stake > 0,
{
    let i = choose|i: int| picks_at(s.validators@, t, i) && b.validator_id@ == s.validators@[i].id@;
    assert(s.validators@[i].stake > 0);
}

} // verus!
