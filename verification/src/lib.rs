//! Benchmark comparison across revisions: sample extraction, the measurement
//! store's record format, aggregation and chart shaping.

pub mod bench;
pub mod cli;
pub mod data;
pub mod extract;
pub mod filter;
pub mod git;
pub mod orchestrate;
pub mod order;
pub mod pattern;
pub mod plot;
pub mod table;
pub mod text;
