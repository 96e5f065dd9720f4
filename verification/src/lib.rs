//! Git, chat and review logic of an editor with a built-in coding agent.

pub mod bytes;
pub mod git;
pub mod lines;
pub mod number;
pub mod opencode;
pub mod text;
pub mod ui;
