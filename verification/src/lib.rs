//! Transactional persistence layer of a blockchain full node.
//!
//! The crate records blocks, headers and per-transaction metadata in a
//! column-keyed store, and maintains a consistent view of which transaction
//! outputs are live (spendable) or dead (spent) as the chain tip advances or
//! rolls back.  A [`transaction::StoreTransaction`] stages a self-consistent
//! set of writes for one block-level state transition and commits them
//! atomically; the in-memory [`cell_set::CellSet`] mirrors the durable
//! transaction-meta column and is consulted during attach and detach.

pub mod cell_set;
pub mod error;
pub mod meta;
pub mod kv;
pub mod laws;
pub mod syscall;
pub mod transaction;
pub mod types;
