//! silent-cartographer: a persistent codebase knowledge graph keyed on stable symbol identities.
//!
//! This library holds the verified logic: canonical symbol identity, range normalization, the
//! semantic corpus, clone-equivalence keys, the join's alignment decisions, store bookkeeping,
//! and the command surface's pure decisions.

pub mod cli;
pub mod commands;
pub mod counting;
pub mod digest;
pub mod exit;
pub mod git;
pub mod graph;
pub mod identity;
pub mod manifest;
pub mod model;
pub mod order;
pub mod pairs;
pub mod query;
pub mod render;
pub mod text;
pub mod unicode;
pub mod utf;
