//! Call/reference graph construction from a precomputed semantic index,
//! with a pluggable symbol store and an incremental index cache.
pub mod source_range;
pub mod text;
pub mod scip_index;
pub mod callgraph;
pub mod scip_ingest;
pub mod store;
pub mod scip_cache;
pub mod language;
pub mod scip_runner;
pub mod dto;
pub mod entry_point;
pub mod flowgraph;
pub mod flowchart_exporter;
pub mod ast;
pub mod call_paths;
