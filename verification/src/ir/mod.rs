//! The workflow model: plain types that mirror a workflow file.

pub mod duration;
pub mod params;
pub mod step;
pub mod trigger;
pub mod workflow;
pub mod workspace;
