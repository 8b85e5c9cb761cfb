//! Two-pass section parser: header scanning, per-section pattern
//! aggregation and the bookkeeping around them.
pub mod args;
pub mod boundaries;
pub mod matching;
pub mod order;
pub mod patterns;
pub mod pipeline;
pub mod sections;
pub mod source;
pub mod state;
pub mod storage;
pub mod text;
pub mod tui;
pub mod worker;
