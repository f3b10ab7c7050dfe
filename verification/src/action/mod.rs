//! The built-in actions: named, reusable side effects of `action:` steps.
//!
//! Each runs command-line tools one after another. An action here decides which command comes
//! next and what the results come to; whoever drives it runs the commands in the run's workdir.

pub mod command;
pub mod git;
pub mod github;
pub mod shell;
