//! A lowering engine that turns a hierarchical dataflow-graph program
//! representation into a basic-block-based SSA module, through a pluggable
//! registry of per-extension lowering rules.
//!
//! The graph IR is consumed through the model types in [`graph`] and
//! [`types`]; the emitted module is the model in [`emit`].

pub mod custom;
pub mod debuginfo;
pub mod emit;
pub mod graph;
pub mod sum;
pub mod type_map;
pub mod types;

pub use types::CodegenError;
