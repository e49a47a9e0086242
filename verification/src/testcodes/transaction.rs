//! A transaction with its id, time, payload and hash.
use vstd::prelude::*;
use crate::digest::{hash_text, sha256_hex};
use crate::text::{decimal, push_decimal};
use vstd::string::StringExecFns;

verus! {

/// A transaction: id, creation time, payload and the hash once computed.
#[derive(Debug)]
pub struct Transaction {
    pub tx_id: u64,
    pub timestamp: u64,
    pub tx_data: String,
    pub tx_hash: String,
}

/// A transaction as plain values: id, time, payload, hash.
pub open spec fn tx_view(t: Transaction) -> (u64, u64, Seq<char>, Seq<char>) {
    (t.tx_id, t.timestamp, t.tx_data@, t.tx_hash@)
}

/// The text a transaction is hashed from: id, time and payload.
pub open spec fn tx_text(t: Transaction) -> Seq<char> {
    decimal(t.tx_id as nat) + decimal(t.timestamp as nat) + t.tx_data@
}

impl Transaction {
    /// A transaction stamped with `timestamp` and no hash yet.
    pub fn new(tx_id: u64, tx_data: String, timestamp: u64) -> (t: Transaction)
        ensures
            t.tx_id == tx_id,
            t.timestamp == timestamp,
            t.tx_data == tx_data,
            t.tx_hash@ == Seq::<char>::empty(),
    {
        Transaction { tx_id, timestamp, tx_data, tx_hash: String::new() }
    }

    /// The SHA-256 of id, time and payload, in lowercase hexadecimal.
    pub fn hash_cal(&mut self) -> (h: String)
        ensures
            *final(self) == *old(self),
            h@ == hash_text(tx_text(*old(self))),
            h@.len() == 64,
    {
        let mut data = String::new();
        push_decimal(&mut data, self.tx_id);
        push_decimal(&mut data, self.timestamp);
        data.append(self.tx_data.as_str());
        assert(data@ =~= tx_text(*self));
        sha256_hex(data.as_str())
    }
}

} // verus!
