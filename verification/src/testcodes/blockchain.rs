//! A chain of mined blocks, each linked to the hash of the one before.
use vstd::prelude::*;
use vstd::string::StringExecFns;
use crate::digest::hash_text;
use crate::testcodes::block::{
    is_mined, mined_hash, parts_solvable, solvable_from, text_of_parts, tx_hashes, txs_view,
    Block,
};
use crate::testcodes::transaction::{tx_text, tx_view, Transaction};

verus! {

/// The payload of the genesis transaction.
pub open spec fn genesis_text() -> Seq<char> {
    "This is an Genesis Tx"@
}

/// The genesis transaction as plain values, created at `now` and hashed.
pub open spec fn genesis_tx(now: u64) -> (u64, u64, Seq<char>, Seq<char>) {
    (1, now, genesis_text(), hash_text(tx_text_of(1, now, genesis_text())))
}

/// The text a transaction with these fields is hashed from.
pub open spec fn tx_text_of(id: u64, timestamp: u64, data: Seq<char>) -> Seq<char> {
    crate::text::decimal(id as nat) + crate::text::decimal(timestamp as nat) + data
}

/// The genesis block, made at `now`, can be mined.
pub open spec fn genesis_solvable(now: u64) -> bool {
    parts_solvable(0, Seq::empty(), now, seq![genesis_tx(now)], 0)
}

/// Every block is mined and links to the hash of the block before it.
pub open spec fn valid_chain(c: Seq<Block>) -> bool {
    &&& forall|i: int| 0 <= i < c.len() ==> #[trigger] is_mined(c[i])
    &&& forall|i: int| 0 < i < c.len() ==> #[trigger] c[i].previous_hash@ == c[i - 1].hash@
}

/// A chain of blocks.
#[derive(Debug)]
pub struct Blockchain {
    pub chain: Vec<Block>,
}

proof fn lemma_solvable_parts(b: Block, from: u64)
    ensures
        solvable_from(b, from) == parts_solvable(
            b.index,
            b.previous_hash@,
            b.timestamp,
            txs_view(b.trans_data@),
            from,
        ),
{
    if solvable_from(b, from) {
        let k = choose|k: u64| from <= k && #[trigger] mined_hash(crate::testcodes::block::block_hash(b, k));
        assert(mined_hash(
            hash_text(text_of_parts(b.index, b.previous_hash@, b.timestamp, txs_view(b.trans_data@), k)),
        ));
    }
    if parts_solvable(b.index, b.previous_hash@, b.timestamp, txs_view(b.trans_data@), from) {
        let k = choose|k: u64|
            from <= k && #[trigger] mined_hash(
                hash_text(
                    text_of_parts(b.index, b.previous_hash@, b.timestamp, txs_view(b.trans_data@), k),
                ),
            );
        assert(mined_hash(crate::testcodes::block::block_hash(b, k)));
    }
}

impl Blockchain {
    /// The genesis block made at `now`: index 0, no predecessor, and one
    /// hashed transaction.
    fn genesis_block(now: u64) -> (b: Block)
        ensures
            b.index == 0,
            b.previous_hash@ == Seq::<char>::empty(),
            b.timestamp == now,
            b.nonce == 0,
            txs_view(b.trans_data@) == seq![genesis_tx(now)],
            solvable_from(b, 0) == genesis_solvable(now),
    {
        let mut genes_tx = Transaction::new(1, String::from_str("This is an Genesis Tx"), now);
        genes_tx.tx_hash = genes_tx.hash_cal();
        let b = Block::new(0, String::new(), vec![genes_tx], now);
        proof {
            reveal_strlit("This is an Genesis Tx");
            assert(tx_text(b.trans_data@[0]) =~= tx_text_of(1, now, genesis_text()));
            assert(txs_view(b.trans_data@) =~= seq![genesis_tx(now)]);
            lemma_solvable_parts(b, 0);
        }
        b
    }

    /// A chain holding the genesis block made at `now`, mined; some nonce
    /// must make its hash start with two zeros.
    pub fn new(now: u64) -> (bc: Blockchain)
        requires
            genesis_solvable(now),
        ensures
            bc.chain@.len() == 1,
            valid_chain(bc.chain@),
            bc.chain@[0].index == 0,
            bc.chain@[0].previous_hash@ == Seq::<char>::empty(),
            bc.chain@[0].timestamp == now,
            txs_view(bc.chain@[0].trans_data@) == seq![genesis_tx(now)],
    {
        let mut genesis_block = Self::genesis_block(now);
        genesis_block.mine();
        let bc = Blockchain { chain: vec![genesis_block] };
        assert(valid_chain(bc.chain@));
        bc
    }

    /// [`Blockchain::new`] when the genesis block made at `now` can be
    /// mined, else `None`.
    pub fn try_new(now: u64) -> (r: Option<Blockchain>)
        ensures
            r is Some <==> genesis_solvable(now),
            r matches Some(bc) ==> {
                &&& bc.chain@.len() == 1
                &&& valid_chain(bc.chain@)
                &&& bc.chain@[0].index == 0
                &&& bc.chain@[0].previous_hash@ == Seq::<char>::empty()
                &&& bc.chain@[0].timestamp == now
                &&& txs_view(bc.chain@[0].trans_data@) == seq![genesis_tx(now)]
            },
    {
        let mut probe = Self::genesis_block(now);
        if probe.try_mine() {
            Some(Self::new(now))
        } else {
            None
        }
    }

    /// Links `new_block` to the hash of the last block, mines it and appends
    /// it. Mining must succeed from the block's nonce.
    pub fn add_block(&mut self, new_block: Block)
        requires
            old(self).chain@.len() > 0,
            parts_solvable(
                new_block.index,
                old(self).chain@.last().hash@,
                new_block.timestamp,
                txs_view(new_block.trans_data@),
                new_block.nonce,
            ),
        ensures
            final(self).chain@.len() == old(self).chain@.len() + 1,
            final(self).chain@.take(old(self).chain@.len() as int) == old(self).chain@,
            final(self).chain@.last().previous_hash@ == old(self).chain@.last().hash@,
            final(self).chain@.last().index == new_block.index,
            final(self).chain@.last().timestamp == new_block.timestamp,
            final(self).chain@.last().trans_data == new_block.trans_data,
            final(self).chain@.last().nonce >= new_block.nonce,
            is_mined(final(self).chain@.last()),
            valid_chain(old(self).chain@) ==> valid_chain(final(self).chain@),
    {
        let last = self.chain.len() - 1;
        let previous_hash = self.chain[last].hash.clone();
        let mut block = new_block;
        block.previous_hash = previous_hash;
        proof {
            lemma_solvable_parts(block, block.nonce);
        }
        block.mine();
        self.chain.push(block);
        assert(final(self).chain@.take(old(self).chain@.len() as int) =~= old(self).chain@);
    }

    /// Adds `new_block` as [`Blockchain::add_block`] does when some nonce
    /// from its own makes it mineable once linked; otherwise leaves the chain
    /// as it is.
    pub fn try_add_block(&mut self, new_block: Block) -> (ok: bool)
        requires
            old(self).chain@.len() > 0,
        ensures
            ok <==> parts_solvable(
                new_block.index,
                old(self).chain@.last().hash@,
                new_block.timestamp,
                txs_view(new_block.trans_data@),
                new_block.nonce,
            ),
            !ok ==> *final(self) == *old(self),
            ok ==> final(self).chain@.len() == old(self).chain@.len() + 1
                && final(self).chain@.take(old(self).chain@.len() as int) == old(self).chain@
                && final(self).chain@.last().previous_hash@ == old(self).chain@.last().hash@
                && final(self).chain@.last().index == new_block.index
                && final(self).chain@.last().timestamp == new_block.timestamp
                && final(self).chain@.last().trans_data == new_block.trans_data
                && is_mined(final(self).chain@.last())
                && (valid_chain(old(self).chain@) ==> valid_chain(final(self).chain@)),
    {
        let last = self.chain.len() - 1;
        let mut block = new_block;
        block.previous_hash = self.chain[last].hash.clone();
        proof {
            lemma_solvable_parts(block, block.nonce);
        }
        if block.try_mine() {
            proof {
                lemma_solvable_parts(block, block.nonce);
                assert(mined_hash(crate::testcodes::block::block_hash(block, block.nonce)));
            }
            self.add_block(block);
            true
        } else {
            false
        }
    }
}

} // verus!
