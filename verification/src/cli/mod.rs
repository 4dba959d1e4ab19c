//! What the command line decides: which variant runs, where output goes, and
//! which columns are loaded.

pub mod chain_args;
pub mod document;
pub mod inputs;
pub mod optimizer_args;
pub mod paths;
pub mod program;
pub mod provenance;
pub mod variants;
pub mod writer;
