//! Small blockchain and cryptography building blocks with machine-checked
//! contracts.
use vstd::prelude::*;

pub mod aes128;
pub mod sha256;
pub mod euclid;
pub mod text;
pub mod digest;
pub mod modular;
pub mod power_mod;
pub mod primes;
pub mod bls;
pub mod ecdsa_ecies;
pub mod curve_laws;
pub mod zksnarks;
pub mod ed25519;
pub mod rsa;
pub mod paillier;
pub mod structdemos;
pub mod traitdemos;
pub mod traitdemo;
pub mod enumdemos;
pub mod pow;
pub mod testcodes;
pub mod imustchain;
pub mod pbft;
pub mod poh;
pub mod pos;
pub mod mpc;
pub mod lagrange;
pub mod ring_sig;
pub mod multisig;
pub mod onchain;
pub mod ft;
pub mod nft;
pub mod sales;
pub mod auction;
pub mod stake;
pub mod nft_sales;

verus! {
} // verus!
