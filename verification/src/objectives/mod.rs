//! Objectives: scores of plans that are kept up as districts are redrawn.

pub mod aggregation;
pub mod banded_gingles_partial;
pub mod below;
pub mod by_district_abs_deviation;
pub mod config;
pub mod counts;
pub mod election_wins;
pub mod gingles_partial;
pub mod incremental;
pub mod least;
pub mod matching;
pub mod parse;
pub mod polsby_popper;
pub mod tally;
