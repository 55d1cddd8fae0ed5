//! Incremental, reversible ledger state.
//!
//! - `delta`: transitions of one value that merge associatively and invert, and
//!   keyed collections of them.
//! - `utxo_cache`: spendable outputs in layered, copy-on-write caches that flush
//!   into the layer below.
//! - `undo`: what connecting a block removed, and the order in which its
//!   transactions may be undone.
//! - `accounting`, `order`, `tx_index_cache`, `consensus_data`, `merkle`,
//!   `per_thousand`, `config`: the ledger records and values around them.

pub mod accounting;
pub mod assoc;
pub mod chain;
pub mod config;
pub mod consensus_data;
pub mod delta;
pub mod hash;
pub mod merkle;
pub mod order;
pub mod per_thousand;
pub mod primitives;
pub mod tx_index_cache;
pub mod undo;
pub mod utxo_cache;
