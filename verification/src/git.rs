//! Reading what git prints.
//!
//! Every command whose output is read here is a query. Nothing in this library
//! writes to a worktree, an index or a ref.

pub mod base;
pub mod blame;
pub mod branch;
pub mod diff;
pub mod graph;
pub mod history;
pub mod listed;
pub mod query;
pub mod run;
pub mod stash;
pub mod status;
pub mod submodule;
