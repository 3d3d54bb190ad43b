//! A replicated ledger and identity-credential store: a canonical binary
//! codec, the ledger state machine with its block commits, and recall-phrase
//! credential storage.
pub mod balances;
pub mod bytes;
pub mod cbor;
pub mod error;
pub mod idstore;
pub mod list;
pub mod module;
pub mod storage;
pub mod transaction;
pub mod types;
