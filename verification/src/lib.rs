//! Durable workflows for coding-agent command lines: the workflow model, template checking,
//! scheduling decisions and run bookkeeping.

pub mod action;
pub mod api;
pub mod cli;
pub mod context;
pub mod engine;
pub mod error;
pub mod ids;
pub mod ir;
pub mod json;
pub mod mock;
pub mod names;
pub mod text;
pub mod time;
pub mod validate;
pub mod view;
pub mod yaml;

use vstd::prelude::*;

verus! {

/// The version of this library, such as for stamping run records.
pub fn version() -> (r: &'static str)
    ensures
        r@ == "0.0.1"@,
{
    "0.0.1"
}

} // verus!
