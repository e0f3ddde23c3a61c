//! Batch commitment and priority-operation inclusion engine for a rollup's
//! settlement pipeline: an append-only Merkle tree over L1-originated
//! transaction hashes, the per-batch commitment and public-input scheme, the
//! folding of public inputs over batch ranges, and the calldata payloads of
//! the settlement contract's prove and execute entry points.
pub mod batches;
pub mod execute;
pub mod hash;
pub mod inclusion;
pub mod info;
pub mod l1_txs;
pub mod merkle;
pub mod payload;
pub mod prove;
