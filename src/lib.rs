//! Release orchestration for multi-package workspaces: publish ordering,
//! version and dependency consistency checks, and the release step pipeline.

pub mod changelog;
pub mod config;
pub mod context;
pub mod error;
pub mod github;
pub mod graph;
pub mod metadata;
pub mod pipeline;
pub mod registry;
pub mod steps;
pub mod utils;
pub mod validation;
pub mod version;
