//! The template context: its static shape, the static check of references into it, and rendering
//! against it.

pub mod check;
pub mod limits;
pub mod refs;
pub mod render;
pub mod scan;
pub mod shape;
pub mod tokens;
