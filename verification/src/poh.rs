//! Proof of history: a chain of hashes, each over the one before, a tick
//! time and the first transaction, with a stake-weighted leader pick.
use vstd::prelude::*;
use vstd::string::StringExecFns;
use crate::digest::{hash_text, sha256_hex};
use crate::text::{decimal, push_decimal};

verus! {

/// A validator with its stake.
#[derive(Debug)]
pub struct Validator {
    pub id: String,
    pub stake: u64,
}

/// A block stamped with the time of the last tick.
#[derive(Debug)]
pub struct Block {
    pub previous_hash: String,
    pub transactions: Vec<String>,
    pub sequence_number: u64,
    pub timestamp: u64,
}

/// The validators, the recorded ticks (hash and time), and the last hash.
pub struct PoHSystem {
    pub validators: Vec<Validator>,
    pub hash_sequence: Vec<(String, u64)>,
    pub current_hash: String,
}

/// The sum of the first `n` stakes.
pub open spec fn stake_sum(v: Seq<Validator>, n: int) -> int
    decreases n,
{
    if n <= 0 {
        0
    } else {
        stake_sum(v, n - 1) + v[n - 1].stake
    }
}

/// Validator `i` holds `seed` modulo the total stake in its slice: the
/// stakes before it sum to at most that value, those up to it to more.
pub open spec fn picks(v: Seq<Validator>, seed: u64, i: int) -> bool {
    picks_at(v, (seed as int) % stake_sum(v, v.len() as int), i)
}

/// Validator `i`'s slice of the stakes holds `t`.
pub open spec fn picks_at(v: Seq<Validator>, t: int, i: int) -> bool {
    &&& 0 <= i < v.len()
    &&& stake_sum(v, i) <= t < stake_sum(v, i + 1)
}

/// Index of the validator whose slice of the stakes holds `target`.
pub fn slot_of(validators: &Vec<Validator>, target: u64) -> (i: usize)
    requires
        target < stake_sum(validators@, validators@.len() as int),
    ensures
        picks_at(validators@, target as int, i as int),
{
    let ghost v = validators@;
    let mut t = target;
    let mut i: usize = 0;
    while i < validators.len()
        invariant
            v == validators@,
            i <= v.len(),
            target < stake_sum(v, v.len() as int),
            stake_sum(v, i as int) <= target,
            t == target - stake_sum(v, i as int),
        decreases v.len() - i,
    {
        if t < validators[i].stake {
            return i;
        }
        t = t - validators[i].stake;
        i = i + 1;
    }
    assert(false);
    0
}

/// The sum of all stakes, which must fit in a `u64`.
pub fn total_stake(validators: &Vec<Validator>) -> (total: u64)
    requires
        stake_sum(validators@, validators@.len() as int) <= u64::MAX,
    ensures
        total == stake_sum(validators@, validators@.len() as int),
{
    let ghost v = validators@;
    let mut total: u64 = 0;
    let mut i: usize = 0;
    while i < validators.len()
        invariant
            v == validators@,
            i <= v.len(),
            total == stake_sum(v, i as int),
            stake_sum(v, v.len() as int) <= u64::MAX,
        decreases v.len() - i,
    {
        proof {
            lemma_stake_sum_monotone(v, i + 1, v.len() as int);
        }
        total = total + validators[i].stake;
        i = i + 1;
    }
    total
}

/// A picked validator has a positive stake.
pub proof fn lemma_picked_has_stake(v: Seq<Validator>, t: int, i: int)
    requires
        picks_at(v, t, i),
    ensures
        v[i].stake > 0,
{
}

/// The ticks as plain values.
pub open spec fn ticks(s: Seq<(String, u64)>) -> Seq<(Seq<char>, u64)> {
    Seq::new(s.len(), |i: int| (s[i].0@, s[i].1))
}

/// The text mixed into every tick: the first transaction, or nothing.
pub open spec fn first_tx(txs: Seq<String>) -> Seq<char> {
    if txs.len() > 0 {
        txs[0]@
    } else {
        Seq::empty()
    }
}

/// The hash after `k` ticks from `h0`, the ticks timed `start`,
/// `start + 1`, ..., each mixing in `data`.
pub open spec fn tick_hash(h0: Seq<char>, start: int, data: Seq<char>, k: nat) -> Seq<char>
    decreases k,
{
    if k == 0 {
        h0
    } else {
        hash_text(tick_hash(h0, start, data, (k - 1) as nat) + decimal((start + k - 1) as nat) + data)
    }
}

/// The ticks recorded by `count` steps from `h0` at `start`.
pub open spec fn new_ticks(h0: Seq<char>, start: int, data: Seq<char>, count: nat) -> Seq<(Seq<char>, u64)> {
    Seq::new(count, |k: int| (tick_hash(h0, start, data, (k + 1) as nat), (start + k) as u64))
}

/// The hash every history starts from: that of `genesis`.
pub open spec fn genesis_hash() -> Seq<char> {
    hash_text("genesis"@)
}

proof fn lemma_stake_sum_monotone(v: Seq<Validator>, i: int, j: int)
    requires
        0 <= i <= j,
    ensures
        stake_sum(v, i) <= stake_sum(v, j),
    decreases j - i,
{
    if i < j {
        lemma_stake_sum_monotone(v, i, j - 1);
    }
}

impl PoHSystem {
    /// A history with the validators and one tick: the genesis hash at time 0.
    pub fn new(validators: Vec<Validator>) -> (s: PoHSystem)
        ensures
            s.validators == validators,
            ticks(s.hash_sequence@) == seq![(genesis_hash(), 0u64)],
            s.current_hash@ == genesis_hash(),
    {
        let init_hash = sha256_hex("genesis");
        let first = init_hash.clone();
        let s = PoHSystem { validators, hash_sequence: vec![(first, 0)], current_hash: init_hash };
        assert(ticks(s.hash_sequence@) =~= seq![(genesis_hash(), 0u64)]);
        s
    }

    /// The validator whose slice of the total stake holds `seed` modulo the
    /// total: validator `i` is picked when the stakes before it sum to at
    /// most that value and those up to it sum to more.
    pub fn select_leader(&self, seed: u64) -> (leader: &Validator)
        requires
            0 < stake_sum(self.validators@, self.validators@.len() as int) <= u64::MAX,
        ensures
            exists|i: int| picks(self.validators@, seed, i) && *leader == self.validators@[i],
    {
        let total = total_stake(&self.validators);
        let target = seed % total;
        let k = slot_of(&self.validators, target);
        &self.validators[k]
    }

    /// Records `count` ticks timed `start_time`, `start_time + 1`, ...,
    /// each hashing the last hash, its time and the first transaction.
    pub fn generate_hash_sequence(&mut self, transactions: Vec<String>, count: u64, start_time: u64)
        requires
            count == 0 || start_time + (count - 1) <= u64::MAX,
        ensures
            final(self).validators == old(self).validators,
            ticks(final(self).hash_sequence@) == ticks(old(self).hash_sequence@) + new_ticks(
                old(self).current_hash@,
                start_time as int,
                first_tx(transactions@),
                count as nat,
            ),
            final(self).current_hash@ == tick_hash(
                old(self).current_hash@,
                start_time as int,
                first_tx(transactions@),
                count as nat,
            ),
    {
        let ghost h0 = self.current_hash@;
        let ghost before = ticks(self.hash_sequence@);
        let data = if transactions.len() > 0 {
            transactions[0].clone()
        } else {
            String::new()
        };
        assert(data@ == first_tx(transactions@));
        let mut last_hash = self.current_hash.clone();
        let mut i: u64 = 0;
        while i < count
            invariant
                count == 0 || start_time + (count - 1) <= u64::MAX,
                i <= count,
                self.validators == old(self).validators,
                last_hash@ == tick_hash(h0, start_time as int, data@, i as nat),
                ticks(self.hash_sequence@) == before + new_ticks(h0, start_time as int, data@, i as nat),
            decreases count - i,
        {
            let time = start_time + i;
            let mut input = last_hash.clone();
            push_decimal(&mut input, time);
            input.append(data.as_str());
            let hash = sha256_hex(input.as_str());
            assert(hash@ == tick_hash(h0, start_time as int, data@, (i + 1) as nat));
            let entry = hash.clone();
            let ghost prev = self.hash_sequence@;
            self.hash_sequence.push((entry, time));
            assert(ticks(self.hash_sequence@) =~= ticks(prev).push((hash@, time)));
            last_hash = hash;
            i = i + 1;
            assert(new_ticks(h0, start_time as int, data@, i as nat) =~= new_ticks(
                h0,
                start_time as int,
                data@,
                (i - 1) as nat,
            ).push((hash@, time)));
            assert(ticks(self.hash_sequence@) =~= before + new_ticks(h0, start_time as int, data@, i as nat));
        }
        self.current_hash = last_hash;
    }

    /// Picks the leader for `seed`, records one tick at `now` and returns a
    /// block numbered by the count of ticks and stamped with that tick's
    /// time, with the leader's id.
    pub fn create_block(&mut self, transactions: Vec<String>, previous_hash: &str, seed: u64, now: u64) -> (r: (Block, String))
        requires
            0 < stake_sum(old(self).validators@, old(self).validators@.len() as int) <= u64::MAX,
            old(self).hash_sequence@.len() < u64::MAX,
        ensures
            final(self).validators == old(self).validators,
            ticks(final(self).hash_sequence@) == ticks(old(self).hash_sequence@).push(
                (tick_hash(old(self).current_hash@, now as int, first_tx(transactions@), 1), now),
            ),
            final(self).current_hash@ == tick_hash(
                old(self).current_hash@,
                now as int,
                first_tx(transactions@),
                1,
            ),
            r.0.previous_hash@ == previous_hash@,
            r.0.transactions@ == transactions@,
            r.0.sequence_number == final(self).hash_sequence@.len(),
            r.0.timestamp == now,
            exists|i: int| picks(old(self).validators@, seed, i) && r.1@ == old(self).validators@[i].id@,
    {
        let leader_id = self.select_leader(seed).id.clone();
        let mut copy: Vec<String> = Vec::new();
        if transactions.len() > 0 {
            copy.push(transactions[0].clone());
        }
        assert(first_tx(copy@) == first_tx(transactions@));
        self.generate_hash_sequence(copy, 1, now);
        assert(new_ticks(old(self).current_hash@, now as int, first_tx(transactions@), 1) =~= seq![
            (tick_hash(old(self).current_hash@, now as int, first_tx(transactions@), 1), now),
        ]);
        assert(ticks(self.hash_sequence@).len() == self.hash_sequence@.len());
        let sequence_number = self.hash_sequence.len() as u64;
        let last = self.hash_sequence.len() - 1;
        let timestamp = self.hash_sequence[last].1;
        assert(ticks(self.hash_sequence@)[last as int].1 == timestamp);
        let block = Block {
            previous_hash: String::from_str(previous_hash),
            transactions,
            sequence_number,
            timestamp,
        };
        (block, leader_id)
    }

    /// Whether the tick numbered by the block's sequence number exists and
    /// carries the block's time.
    pub fn verify_block(&self, block: &Block) -> (ok: bool)
        requires
            block.sequence_number >= 1,
        ensures
            ok == (block.sequence_number <= self.hash_sequence@.len()
                && self.hash_sequence@[block.sequence_number - 1].1 == block.timestamp),
    {
        let k = block.sequence_number - 1;
        if k < self.hash_sequence.len() as u64 {
            self.hash_sequence[k as usize].1 == block.timestamp
        } else {
            false
        }
    }
}

/// A block that `create_block` returns verifies against the history it
/// left: one tick was appended with the block's time, and the block is
/// numbered by the count of ticks.
pub proof fn lemma_created_block_verifies(before: PoHSystem, after: PoHSystem, b: Block, h: Seq<char>)
    requires
        ticks(after.hash_sequence@) == ticks(before.hash_sequence@).push((h, b.timestamp)),
        b.sequence_number == after.hash_sequence@.len(),
    ensures
        b.sequence_number >= 1,
        b.sequence_number <= after.hash_sequence@.len() && after.hash_sequence@[b.sequence_number - 1].1
            == b.timestamp,
{
    let n = after.hash_sequence@.len();
    assert(ticks(after.hash_sequence@).len() == n);
    assert(ticks(after.hash_sequence@)[n - 1] == (h, b.timestamp));
}

/// The history can be extended in pieces: `a` ticks from `start`, then `b`
/// ticks from `start + a`, reach the same hash as `a + b` ticks from
/// `start`.
pub proof fn lemma_ticks_compose(h0: Seq<char>, start: int, data: Seq<char>, a: nat, b: nat)
    ensures
        tick_hash(tick_hash(h0, start, data, a), start + a, data, b) == tick_hash(h0, start, data, a + b),
    decreases b,
{
    if b > 0 {
        lemma_ticks_compose(h0, start, data, a, (b - 1) as nat);
        assert(start + a + b - 1 == start + (a + b) - 1);
    }
}

} // verus!
