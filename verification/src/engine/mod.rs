//! The executor: what a run holds, which step runs next, what its outcome means, and how a run
//! ends, pauses and resumes.

pub mod approval;
pub mod builder;
pub mod checks;
pub mod context;
pub mod dispatch;
pub mod events;
pub mod feedback;
pub mod git;
pub mod judge;
pub mod ledger;
pub mod lifecycle;
pub mod loops;
pub mod mirror;
pub mod params;
pub mod recovery;
pub mod retry;
pub mod schedule;
pub mod state;
