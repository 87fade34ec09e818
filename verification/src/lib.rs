//! Core of a Plasma-style layer-2 ledger: an interval-keyed range store with
//! coalescing put/get/del semantics, a sum Merkle tree whose inclusion proofs
//! carry implicit range bounds, and the state-transition pipeline that resolves
//! transactions against stored ranges through pluggable ownership predicates.

pub mod abi;
pub mod block;
pub mod error;
pub mod hashing;
pub mod merkle;
pub mod merkle_laws;
pub mod predicate;
pub mod primitives;
pub mod range;
pub mod range_manager;
pub mod range_processor;
pub mod range_store;
pub mod state_db;
pub mod state_manager;
pub mod state_object;
pub mod state_processor;
pub mod state_update;
pub mod transaction;
