//! Stacks of git branches: the stack model, the decisions behind every
//! command, and the restack/advance engine, with their contracts.
pub mod git;
pub mod metadata;
pub mod text;
pub mod commands;
