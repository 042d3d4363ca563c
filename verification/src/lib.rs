//! Sherlock: a Bitcoin chain analysis library.
//!
//! Reads the raw `blk*.dat` / `rev*.dat` storage formats of Bitcoin Core,
//! parses blocks, transactions and undo records, and applies a set of
//! chain-analysis heuristics to every transaction of a block file.

use vstd::prelude::*;

pub mod errors;
pub mod io;
pub mod text;
pub mod types;
pub mod parser;
pub mod analyzer;
pub mod heuristics;
pub mod reporter;
