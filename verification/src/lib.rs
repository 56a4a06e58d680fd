//! Instruction-driven JSON refinement: a patch applicator, candidate
//! normalizer, schema validator and backend selector, orchestrated by a
//! bounded retry engine.
//!
//! The engine treats the model as an unreliable collaborator: a proposed
//! edit may be malformed, partially applicable, or schema-breaking, so
//! every step of the loop assumes failure and defines recovery.

pub mod adapter;
pub mod caching;
pub mod client;
pub mod error;
pub mod evals;
pub mod generator;
pub mod helpers;
pub mod json;
pub mod models;
pub mod normalize;
pub mod parse;
pub mod patch;
pub mod patching;
pub mod pointer;
pub mod render;
pub mod session;
pub mod validate;
pub mod workflow;
