//! Recombination chains: proposals, parameters and runners.

pub mod burst_output;
pub mod burst_run;
pub mod chain;
pub mod contiguity;
pub mod draw;
pub mod merge;
pub mod mst_diagnostics;
pub mod pairs;
pub mod populations;
pub mod proposal;
pub mod rescore;
pub mod run;
pub mod short_bursts;
pub mod split;
pub mod tilted;
pub mod worker;
pub mod written;
