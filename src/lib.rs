//! A rollup node core: transaction and commitment pools, a staged Merkle
//! aggregator over account and transaction records, the persisted record
//! format, block assembly and the finalization and optimistic-commitment
//! decisions of the state commitment pipeline.

pub mod hash;
pub mod merkle;
pub mod codec;
pub mod listcodec;
pub mod record;
pub mod account;
pub mod block;
pub mod transaction;
pub mod sanitize;
pub mod canonical;
pub mod package;
pub mod pool;
pub mod aggregator;
pub mod store;
pub mod chain;
pub mod commitment;
pub mod registry;
pub mod engine;
pub mod watcher;
pub mod validator;
pub mod artifacts;
pub mod endian;
pub mod config;
pub mod handlers;
pub mod account_loader;
