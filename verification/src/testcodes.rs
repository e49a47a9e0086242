//! A small blockchain: hashed transactions, blocks mined to two leading
//! zeros with a Merkle root over their transactions, and a chain that links
//! each block to the hash of the one before.
pub mod transaction;
pub mod block;
pub mod blockchain;

pub use transaction::Transaction;
pub use block::Block;
pub use blockchain::Blockchain;
