//! Parsers for the raw storage formats: transactions, blocks and undo data.

pub mod transaction;
pub mod bignum;
pub mod undo_parser;
pub mod block_parser;
