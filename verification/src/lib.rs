//! grit: work across many repositories from anywhere, by alias.
#![allow(unused_imports)]

pub mod cache;
pub mod cli;
pub mod commands;
pub mod context;
pub mod error;
pub mod registry;
pub mod render;
pub mod shell;
pub mod text;
pub mod vcs;
