//! Script classification, fee arithmetic and block analysis.

pub mod script_classifier;
pub mod context;
pub mod fee_calculator;
pub mod block_analyzer;
