//! Chain statistics: self-loop counts and output records.

pub mod ben;
pub mod bundle;
pub mod canonical;
pub mod counts;
pub mod frames;
pub mod jsonl;
pub mod moves;
pub mod records;
pub mod sampling;
pub mod scores;
pub mod sums;
pub mod writers;
