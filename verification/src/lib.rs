//! Verification of account-delta proofs against a slot's bank hash.
//!
//! A decoded update carries a claimed bank hash and a bundle of proofs that
//! individual accounts were included in, or absent from, the slot's set of
//! account changes. This library reconstructs Merkle roots from inclusion
//! paths, checks boundary and adjacency evidence for non-inclusion, and
//! recombines the shared fields into the canonical bank hash, reporting a
//! structured outcome for every proof in the batch.

pub mod checker;
pub mod dispatch;
pub mod hash;
pub mod merkle;
pub mod order;
pub mod types;
