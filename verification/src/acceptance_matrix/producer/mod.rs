//! Acceptance producers: the registry of commands that produce evidence.
pub mod model;
pub mod run_args;
pub mod validation;
pub mod registry;
pub mod evidence_binding;
pub mod yaml;
pub mod ci_command;
pub mod ci_workflow;
pub mod runner;
pub mod collect;
pub mod release_command;
pub mod receipt_artifacts;
pub mod release_workflow;
pub mod structure;
pub mod plan;
pub mod receipt_binding;
pub mod execution;
