//! Semantic checks of a parsed workflow.

pub mod diagnostic;
pub mod graph;
pub mod suggest;
