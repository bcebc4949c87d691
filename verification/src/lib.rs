//! A replicated ledger of value transfers: blocks sealed by SHA-256, a queue
//! of pending transactions, balances, block production by proof of work or
//! proof of stake, and the longest-valid-chain rule between peers.

pub mod block;
pub mod blockchain;
pub mod hashing;
pub mod ledger;
pub mod network;
pub mod payload;
pub mod signature;
pub mod smart_contracts;
pub mod text;
pub mod transaction;
