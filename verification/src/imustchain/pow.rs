//! Proof of work over a list of transactions: the first nonce from zero
//! whose hash of `index:previous:transactions:nonce` starts with
//! `difficulty` zeros.
use vstd::prelude::*;
use crate::digest::{hash_text, sha256_hex};
use crate::pow::{meets_difficulty, starts_with_zeros};
use crate::testcodes::block::{debug_listing, pretty_debug, txs_view};
use crate::testcodes::transaction::Transaction;
use crate::text::{decimal, push_decimal};
use vstd::string::{StringExecFns, StrSliceExecFns};

verus! {

/// A miner with its difficulty: the number of leading zeros it asks for.
pub struct ProofOfWork {
    pub difficulty: usize,
}

/// The text hashed for nonce `nonce`: index, previous hash, the
/// pretty-printed transactions and the nonce, separated by colons.
pub open spec fn pow_text(
    index: u32,
    previous_hash: Seq<char>,
    txs: Seq<(u64, u64, Seq<char>, Seq<char>)>,
    nonce: u64,
) -> Seq<char> {
    decimal(index as nat) + seq![':'] + previous_hash + seq![':'] + debug_listing(txs) + seq![':']
        + decimal(nonce as nat)
}

/// The hash for nonce `nonce`.
pub open spec fn pow_hash(
    index: u32,
    previous_hash: Seq<char>,
    txs: Seq<(u64, u64, Seq<char>, Seq<char>)>,
    nonce: u64,
) -> Seq<char> {
    hash_text(pow_text(index, previous_hash, txs, nonce))
}

/// Some nonce gives a hash with `difficulty` leading zeros.
pub open spec fn pow_solvable(
    difficulty: usize,
    index: u32,
    previous_hash: Seq<char>,
    txs: Seq<(u64, u64, Seq<char>, Seq<char>)>,
) -> bool {
    exists|k: u64| #[trigger] meets_difficulty(pow_hash(index, previous_hash, txs, k), difficulty as nat)
}

/// `k` is the least nonce whose hash has `difficulty` leading zeros.
pub open spec fn pow_first(
    difficulty: usize,
    index: u32,
    previous_hash: Seq<char>,
    txs: Seq<(u64, u64, Seq<char>, Seq<char>)>,
    k: u64,
) -> bool {
    &&& meets_difficulty(pow_hash(index, previous_hash, txs, k), difficulty as nat)
    &&& forall|j: u64| j < k ==> !meets_difficulty(
        #[trigger] pow_hash(index, previous_hash, txs, j),
        difficulty as nat,
    )
}

impl ProofOfWork {
    /// A miner asking for `difficulty` leading zeros.
    pub fn new(difficulty: usize) -> (p: ProofOfWork)
        ensures
            p.difficulty == difficulty,
    {
        ProofOfWork { difficulty }
    }

    /// The hash for one nonce.
    fn hash_at(data: &Vec<Transaction>, index: u32, previous_hash: &str, nonce: u64) -> (h: String)
        ensures
            h@ == pow_hash(index, previous_hash@, txs_view(data@), nonce),
    {
        let mut input = String::new();
        push_decimal(&mut input, index as u64);
        input.append(":");
        input.append(previous_hash);
        input.append(":");
        let listing = pretty_debug(data);
        input.append(listing.as_str());
        input.append(":");
        push_decimal(&mut input, nonce);
        proof {
            reveal_strlit(":");
        }
        assert(input@ =~= pow_text(index, previous_hash@, txs_view(data@), nonce));
        sha256_hex(input.as_str())
    }

    /// The first nonce from zero whose hash has `difficulty` leading zeros,
    /// with that hash. Some nonce up to `u64::MAX` must succeed.
    pub fn mine(&self, data: &Vec<Transaction>, index: u32, previous_hash: &str) -> (r: (String, u64))
        requires
            pow_solvable(self.difficulty, index, previous_hash@, txs_view(data@)),
        ensures
            pow_first(self.difficulty, index, previous_hash@, txs_view(data@), r.1),
            r.0@ == pow_hash(index, previous_hash@, txs_view(data@), r.1),
    {
        let ghost txs = txs_view(data@);
        let mut nonce: u64 = 0;
        loop
            invariant
                pow_solvable(self.difficulty, index, previous_hash@, txs),
                txs == txs_view(data@),
                forall|j: u64| j < nonce ==> !meets_difficulty(
                    #[trigger] pow_hash(index, previous_hash@, txs, j),
                    self.difficulty as nat,
                ),
            decreases u64::MAX - nonce,
        {
            let hash = Self::hash_at(data, index, previous_hash, nonce);
            if starts_with_zeros(hash.as_str(), self.difficulty) {
                return (hash, nonce);
            }
            if nonce == u64::MAX {
                let ghost k = choose|k: u64| #[trigger] meets_difficulty(
                    pow_hash(index, previous_hash@, txs, k),
                    self.difficulty as nat,
                );
                assert(k <= nonce);
                assert(false);
            }
            nonce = nonce + 1;
        }
    }

    /// [`ProofOfWork::mine`] when some nonce succeeds, else `None`.
    pub fn try_mine(&self, data: &Vec<Transaction>, index: u32, previous_hash: &str) -> (r: Option<(String, u64)>)
        ensures
            r is Some <==> pow_solvable(self.difficulty, index, previous_hash@, txs_view(data@)),
            r matches Some(p) ==> pow_first(self.difficulty, index, previous_hash@, txs_view(data@), p.1)
                && p.0@ == pow_hash(index, previous_hash@, txs_view(data@), p.1),
    {
        let ghost txs = txs_view(data@);
        let mut nonce: u64 = 0;
        loop
            invariant
                txs == txs_view(data@),
                forall|j: u64| j < nonce ==> !meets_difficulty(
                    #[trigger] pow_hash(index, previous_hash@, txs, j),
                    self.difficulty as nat,
                ),
            decreases u64::MAX - nonce,
        {
            let hash = Self::hash_at(data, index, previous_hash, nonce);
            if starts_with_zeros(hash.as_str(), self.difficulty) {
                return Some(self.mine(data, index, previous_hash));
            }
            if nonce == u64::MAX {
                return None;
            }
            nonce = nonce + 1;
        }
    }
}

} // verus!
