//! Chain-analysis heuristics, each applied to one non-coinbase transaction,
//! and the classifier that combines their results.

pub mod cioh;
pub mod change_detection;
pub mod consolidation;
pub mod coinjoin;
pub mod self_transfer;
pub mod round_number;
pub mod op_return;
pub mod address_reuse;
pub mod peeling_chain;
pub mod tx_classifier;
pub mod prevout_types;
