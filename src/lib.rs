//! A single-node ledger: a chain of hash-linked blocks sealed by proof of work,
//! and an unspent-output ledger from which transfers are built.

pub mod pow;
pub mod block;
pub mod transaction;
pub mod ledger;
pub mod blockchain;
