//! The verified core of `wt`, a tool for git worktrees that share the files
//! git ignores.

pub mod cmd;
pub mod text;
pub mod config;
pub mod hook;
pub mod manifest;
pub mod order;
pub mod path;
pub mod repo;
pub mod seed;
