//! A second take on the mined blockchain: blocks without a Merkle root, and
//! a proof-of-work miner that hashes `index:previous:transactions:nonce`.
pub mod block;
pub mod pow;

pub use block::Block;
pub use pow::ProofOfWork;
pub use crate::testcodes::transaction::Transaction;
