//! Proof of work: a block is mined by raising its nonce until the hash of
//! its contents starts with `difficulty` zeros.
use vstd::prelude::*;
use vstd::string::{StringExecFns, StrSliceExecFns};
use crate::digest::{hash_text, sha256_hex};
use crate::text::{decimal, push_decimal};

verus! {

/// A block of transactions with its proof-of-work nonce.
pub struct Block {
    pub previous_hash: String,
    pub transactions: Vec<String>,
    pub timestamp: u64,
    pub nonce: u64,
    pub difficulty: usize,
}

/// The strings of `parts` written one after the other.
pub open spec fn joined(parts: Seq<String>) -> Seq<char>
    decreases parts.len(),
{
    if parts.len() == 0 {
        Seq::empty()
    } else {
        joined(parts.drop_last()) + parts.last()@
    }
}

/// The text a block is hashed from when its nonce is `nonce`: previous hash,
/// transactions, timestamp and nonce, in that order.
pub open spec fn block_text(b: Block, nonce: u64) -> Seq<char> {
    b.previous_hash@ + joined(b.transactions@) + decimal(b.timestamp as nat) + decimal(nonce as nat)
}

/// The hash of a block when its nonce is `nonce`.
pub open spec fn block_hash(b: Block, nonce: u64) -> Seq<char> {
    hash_text(block_text(b, nonce))
}

/// Whether `hash` starts with `difficulty` zeros.
pub open spec fn meets_difficulty(hash: Seq<char>, difficulty: nat) -> bool {
    difficulty <= hash.len() && forall|i: int| 0 <= i < difficulty ==> hash[i] == '0'
}

/// Some nonce from `from` on gives a hash that meets the difficulty.
pub open spec fn solvable_from(b: Block, from: u64) -> bool {
    exists|k: u64| from <= k && #[trigger] meets_difficulty(block_hash(b, k), b.difficulty as nat)
}

/// `k` is the first nonce from `from` on whose hash meets the difficulty.
pub open spec fn first_solution(b: Block, from: u64, k: u64) -> bool {
    &&& from <= k
    &&& meets_difficulty(block_hash(b, k), b.difficulty as nat)
    &&& forall|j: u64| from <= j < k ==> !meets_difficulty(#[trigger] block_hash(b, j), b.difficulty as nat)
}

/// Whether `hash` starts with `n` zeros.
pub fn starts_with_zeros(hash: &str, n: usize) -> (ok: bool)
    ensures
        ok == meets_difficulty(hash@, n as nat),
{
    let len = hash.unicode_len();
    let mut i: usize = 0;
    while i < n
        invariant
            len == hash@.len(),
            i <= n,
            forall|j: int| 0 <= j < i ==> j < hash@.len() && #[trigger] hash@[j] == '0',
        decreases n - i,
    {
        if i >= len || hash.get_char(i) != '0' {
            return false;
        }
        i = i + 1;
    }
    assert(i == n);
    if n > 0 {
        let ghost j = (n - 1) as int;
        assert(0 <= j < i);
        assert(hash@[j] == '0');
        assert(j < hash@.len());
    }
    true
}

impl Block {
    /// A block with nonce 0 stamped with `timestamp`.
    pub fn new(previous_hash: &str, transactions: Vec<String>, difficulty: usize, timestamp: u64) -> (b: Block)
        ensures
            b.previous_hash@ == previous_hash@,
            b.transactions@ == transactions@,
            b.timestamp == timestamp,
            b.nonce == 0,
            b.difficulty == difficulty,
    {
        Block {
            previous_hash: String::from_str(previous_hash),
            transactions,
            timestamp,
            nonce: 0,
            difficulty,
        }
    }

    /// The text the block is hashed from at its current nonce.
    fn hash_input(&self) -> (s: String)
        ensures
            s@ == block_text(*self, self.nonce),
    {
        let mut data = String::from_str(self.previous_hash.as_str());
        let mut i: usize = 0;
        while i < self.transactions.len()
            invariant
                i <= self.transactions@.len(),
                data@ == self.previous_hash@ + joined(self.transactions@.take(i as int)),
            decreases self.transactions@.len() - i,
        {
            data.append(self.transactions[i].as_str());
            assert(self.transactions@.take(i + 1).drop_last() =~= self.transactions@.take(i as int));
            i = i + 1;
            assert(data@ =~= self.previous_hash@ + joined(self.transactions@.take(i as int)));
        }
        assert(self.transactions@.take(self.transactions@.len() as int) =~= self.transactions@);
        push_decimal(&mut data, self.timestamp);
        push_decimal(&mut data, self.nonce);
        assert(data@ =~= block_text(*self, self.nonce));
        data
    }

    /// The lowercase hexadecimal SHA-256 of the block's contents.
    pub fn calculate_hash(&self) -> (h: String)
        ensures
            h@ == block_hash(*self, self.nonce),
            h@.len() == 64,
    {
        let data = self.hash_input();
        sha256_hex(data.as_str())
    }

    /// Whether `hash` starts with `difficulty` zeros.
    pub fn is_valid_hash(&self, hash: &str) -> (ok: bool)
        ensures
            ok == meets_difficulty(hash@, self.difficulty as nat),
    {
        starts_with_zeros(hash, self.difficulty)
    }

    /// Raises the nonce until the block's hash meets the difficulty and
    /// returns that hash. Some nonce up to `u64::MAX` must succeed: past it
    /// the nonce would overflow.
    pub fn mine_block(&mut self) -> (hash: String)
        requires
            solvable_from(*old(self), old(self).nonce),
        ensures
            first_solution(*old(self), old(self).nonce, final(self).nonce),
            final(self).previous_hash == old(self).previous_hash,
            final(self).transactions == old(self).transactions,
            final(self).timestamp == old(self).timestamp,
            final(self).difficulty == old(self).difficulty,
            hash@ == block_hash(*final(self), final(self).nonce),
    {
        let ghost start = self.nonce;
        loop
            invariant
                solvable_from(*old(self), start),
                start == old(self).nonce,
                start <= self.nonce,
                self.previous_hash == old(self).previous_hash,
                self.transactions == old(self).transactions,
                self.timestamp == old(self).timestamp,
                self.difficulty == old(self).difficulty,
                forall|j: u64| start <= j < self.nonce ==> !meets_difficulty(
                    #[trigger] block_hash(*old(self), j),
                    old(self).difficulty as nat,
                ),
            decreases u64::MAX - self.nonce,
        {
            let hash = self.calculate_hash();
            assert(block_hash(*self, self.nonce) == block_hash(*old(self), self.nonce));
            if self.is_valid_hash(hash.as_str()) {
                assert(block_hash(*final(self), final(self).nonce) == hash@);
                return hash;
            }
            if self.nonce == u64::MAX {
                let ghost k = choose|k: u64| start <= k && #[trigger] meets_difficulty(
                    block_hash(*old(self), k),
                    old(self).difficulty as nat,
                );
                assert(k <= self.nonce);
                assert(false);
            }
            self.nonce = self.nonce + 1;
        }
    }

    /// Mines the block when some nonce from the current one on succeeds,
    /// and returns its hash; otherwise leaves the block as it is and returns
    /// `None`.
    pub fn try_mine_block(&mut self) -> (hash: Option<String>)
        ensures
            hash is Some <==> solvable_from(*old(self), old(self).nonce),
            hash is None ==> *final(self) == *old(self),
            hash matches Some(h) ==> first_solution(*old(self), old(self).nonce, final(self).nonce)
                && h@ == block_hash(*final(self), final(self).nonce),
    {
        let start = self.nonce;
        loop
            invariant
                self.previous_hash == old(self).previous_hash,
                self.transactions == old(self).transactions,
                self.timestamp == old(self).timestamp,
                self.difficulty == old(self).difficulty,
                start == old(self).nonce,
                start <= self.nonce,
                forall|j: u64| start <= j < self.nonce ==> !meets_difficulty(
                    #[trigger] block_hash(*old(self), j),
                    old(self).difficulty as nat,
                ),
            decreases u64::MAX - self.nonce,
        {
            let hash = self.calculate_hash();
            assert(block_hash(*self, self.nonce) == block_hash(*old(self), self.nonce));
            if self.is_valid_hash(hash.as_str()) {
                self.nonce = start;
                assert(*self == *old(self));
                return Some(self.mine_block());
            }
            if self.nonce == u64::MAX {
                self.nonce = start;
                assert(*self == *old(self));
                return None;
            }
            self.nonce = self.nonce + 1;
        }
    }

    /// Whether `hash` is this block's hash and meets the difficulty.
    pub fn verify_block(&self, hash: &str) -> (ok: bool)
        ensures
            ok == (block_hash(*self, self.nonce) == hash@ && meets_difficulty(hash@, self.difficulty as nat)),
    {
        let calculated = self.calculate_hash();
        let given = String::from_str(hash);
        calculated == given && self.is_valid_hash(hash)
    }
}

/// A mined block verifies: if mining moved block `before` to `after` (the
/// first solving nonce, nothing else changed) and returned `hash`, then
/// `verify_block` on `after` and `hash` holds.
pub proof fn lemma_mined_block_verifies(before: Block, after: Block, hash: Seq<char>)
    requires
        first_solution(before, before.nonce, after.nonce),
        after.previous_hash == before.previous_hash,
        after.transactions == before.transactions,
        after.timestamp == before.timestamp,
        after.difficulty == before.difficulty,
        hash == block_hash(after, after.nonce),
    ensures
        block_hash(after, after.nonce) == hash && meets_difficulty(hash, after.difficulty as nat),
{
    assert(block_text(after, after.nonce) == block_text(before, after.nonce));
}

} // verus!
