//! Package-graph cache and traversal engine for SBOM analysis.
//!
//! Per-SBOM dependency graphs are built from stored rows, kept in a cache
//! bounded by bytes, checked for cycles, filtered by query and walked
//! towards ancestors or descendants, hopping across SBOMs at external nodes.
pub mod model;
pub mod graph;
pub mod walk;
pub mod filter;
pub mod cache;
pub mod service;
pub mod resolve;
pub mod loader;
pub mod refs;
pub mod package;
pub mod laws;
