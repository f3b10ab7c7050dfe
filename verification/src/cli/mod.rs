//! The logic of the command line: what its commands decide and print.

pub mod approval;
pub mod cancel;
pub mod catalog;
pub mod envelope;
pub mod inspect;
pub mod prune;
pub mod retention;
pub mod run;
pub mod scaffold;
pub mod status;
