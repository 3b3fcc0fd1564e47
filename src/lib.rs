//! Graded-relevance evaluation of ranked retrieval runs: judgment storage,
//! run ordering, per-topic gain sequences and the integer parts of DCG and ERR.
pub mod ident;
pub mod number;
pub mod entry;
pub mod metric;
pub mod store;
pub mod ranking;
pub mod evaluate;
pub mod config;
