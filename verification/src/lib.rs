//! Recombination Markov chains over graph partitions: chain bookkeeping,
//! spanning trees, objectives, constraints and output records.

pub mod assignments;
pub mod bendl;
pub mod cli;
pub mod columns;
pub mod config;
pub mod connectivity;
pub mod constraints;
pub mod double;
pub mod fields;
pub mod graph;
pub mod json;
pub mod numerals;
pub mod objectives;
pub mod partition;
pub mod random;
pub mod recom;
pub mod region_sampler;
pub mod samplers;
pub mod sorting;
pub mod spanning_tree;
pub mod stats;
pub mod text;
pub mod uniform_sampler;
pub mod vectors;
