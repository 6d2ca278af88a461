//! Declarative infrastructure engine: a block-structured configuration
//! parser, a resource dependency graph, and a versioned state record,
//! each with machine-checked contracts.

pub mod config;
pub mod dag;
pub mod ffi;
pub mod hcl;
pub mod modules;
pub mod provider;
pub mod provisioner;
pub mod reconcile;
pub mod state;
pub mod text;
pub mod tofu;
pub mod workspace;
