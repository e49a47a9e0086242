//! A block of transactions mined until its hash starts with two zeros.
use vstd::prelude::*;
use crate::digest::{hash_text, sha256_hex};
use crate::testcodes::block::{mined_hash, pretty_debug, text_of_parts, txs_view, MINING_ZEROS};
use crate::testcodes::transaction::Transaction;
use crate::pow::starts_with_zeros;
use crate::text::push_decimal;
use vstd::string::{StringExecFns, StrSliceExecFns};

verus! {

/// A block: position, link to its predecessor, time, transactions, nonce
/// and hash.
#[derive(Debug)]
pub struct Block {
    pub index: u32,
    pub previous_hash: String,
    pub timestamp: u64,
    pub trans_data: Vec<Transaction>,
    pub nonce: u64,
    pub hash: String,
}

/// The hash of block `b` at nonce `nonce`.
pub open spec fn block_hash(b: Block, nonce: u64) -> Seq<char> {
    hash_text(text_of_parts(b.index, b.previous_hash@, b.timestamp, txs_view(b.trans_data@), nonce))
}

/// Some nonce from `from` on gives an accepted hash.
pub open spec fn solvable_from(b: Block, from: u64) -> bool {
    exists|k: u64| from <= k && #[trigger] mined_hash(block_hash(b, k))
}

/// `k` is the first nonce from `from` on that gives an accepted hash.
pub open spec fn first_solution(b: Block, from: u64, k: u64) -> bool {
    &&& from <= k
    &&& mined_hash(block_hash(b, k))
    &&& forall|j: u64| from <= j < k ==> !mined_hash(#[trigger] block_hash(b, j))
}

/// The two blocks agree on all but nonce and hash.
pub open spec fn same_contents(a: Block, b: Block) -> bool {
    &&& a.index == b.index
    &&& a.previous_hash == b.previous_hash
    &&& a.timestamp == b.timestamp
    &&& a.trans_data == b.trans_data
}

proof fn lemma_same_hash(a: Block, b: Block, nonce: u64)
    requires
        same_contents(a, b),
    ensures
        block_hash(a, nonce) == block_hash(b, nonce),
{
}

impl Block {
    /// A block at position `index` linked to `previous_hash`, stamped with
    /// `timestamp`, with nonce 0 and no hash yet.
    pub fn new(index: u32, previous_hash: String, trans_data: Vec<Transaction>, timestamp: u64) -> (b: Block)
        ensures
            b.index == index,
            b.previous_hash == previous_hash,
            b.timestamp == timestamp,
            b.trans_data == trans_data,
            b.nonce == 0,
            b.hash@ == Seq::<char>::empty(),
    {
        Block { index, previous_hash, timestamp, trans_data, nonce: 0, hash: String::new() }
    }

    /// The SHA-256 of index, previous hash, time, pretty-printed
    /// transactions and nonce, in lowercase hexadecimal.
    pub fn hash_cal(&mut self) -> (h: String)
        ensures
            *final(self) == *old(self),
            h@ == block_hash(*old(self), old(self).nonce),
            h@.len() == 64,
    {
        let mut data = String::new();
        push_decimal(&mut data, self.index as u64);
        data.append(self.previous_hash.as_str());
        push_decimal(&mut data, self.timestamp);
        let listing = pretty_debug(&self.trans_data);
        data.append(listing.as_str());
        push_decimal(&mut data, self.nonce);
        assert(data@ =~= text_of_parts(
            self.index,
            self.previous_hash@,
            self.timestamp,
            txs_view(self.trans_data@),
            self.nonce,
        ));
        sha256_hex(data.as_str())
    }

    /// Raises the nonce until the hash starts with two zeros and keeps that
    /// hash. Some nonce up to `u64::MAX` must succeed.
    pub fn mine(&mut self)
        requires
            solvable_from(*old(self), old(self).nonce),
        ensures
            first_solution(*old(self), old(self).nonce, final(self).nonce),
            same_contents(*final(self), *old(self)),
            final(self).hash@ == block_hash(*final(self), final(self).nonce),
            mined_hash(final(self).hash@),
    {
        let ghost start = self.nonce;
        loop
            invariant
                solvable_from(*old(self), start),
                start == old(self).nonce,
                start <= self.nonce,
                same_contents(*self, *old(self)),
                forall|j: u64| start <= j < self.nonce ==> !mined_hash(
                    #[trigger] block_hash(*old(self), j),
                ),
            decreases u64::MAX - self.nonce,
        {
            proof {
                lemma_same_hash(*self, *old(self), self.nonce);
            }
            self.hash = self.hash_cal();
            if starts_with_zeros(self.hash.as_str(), MINING_ZEROS) {
                return;
            }
            if self.nonce == u64::MAX {
                let ghost k = choose|k: u64| start <= k && #[trigger] mined_hash(
                    block_hash(*old(self), k),
                );
                assert(k <= self.nonce);
                assert(false);
            }
            self.nonce = self.nonce + 1;
        }
    }

    /// Mines the block as [`Block::mine`] does when some nonce from the
    /// current one on succeeds; otherwise leaves it as it is.
    pub fn try_mine(&mut self) -> (ok: bool)
        ensures
            ok <==> solvable_from(*old(self), old(self).nonce),
            !ok ==> *final(self) == *old(self),
            ok ==> first_solution(*old(self), old(self).nonce, final(self).nonce)
                && same_contents(*final(self), *old(self))
                && final(self).hash@ == block_hash(*final(self), final(self).nonce)
                && mined_hash(final(self).hash@),
    {
        let start = self.nonce;
        let mut k = start;
        loop
            invariant
                start == old(self).nonce,
                *self == *old(self),
                start <= k,
                forall|j: u64| start <= j < k ==> !mined_hash(#[trigger] block_hash(*old(self), j)),
            decreases u64::MAX - k,
        {
            self.nonce = k;
            let ghost probe = *self;
            let h = self.hash_cal();
            self.nonce = start;
            assert(*self == *old(self));
            proof {
                lemma_same_hash(probe, *old(self), k);
            }
            if starts_with_zeros(h.as_str(), MINING_ZEROS) {
                assert(mined_hash(block_hash(*old(self), k)));
                self.mine();
                return true;
            }
            if k == u64::MAX {
                return false;
            }
            k = k + 1;
        }
    }
}

} // verus!
