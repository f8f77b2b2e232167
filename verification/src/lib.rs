//! A small proof-of-stake-free ledger: signed transactions ("extrinsics"), a
//! mempool of pending transactions, account balances, and a chain of blocks
//! linked by BLAKE3 hashes and signed with Ed25519 keys.

pub mod hex;
pub mod codec;
pub mod crypto;
pub mod extrinsic;
pub mod accounts;
pub mod ledger;
pub mod wallet;
pub mod network;
