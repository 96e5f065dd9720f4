//! Reading what `git` prints, and deciding what to ask it.

pub mod blame;
pub mod command;
pub mod date;
pub mod history;
pub mod porcelain;
pub mod status;
pub mod worktree;
