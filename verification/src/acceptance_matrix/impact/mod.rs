//! Shadow-only dependency-aware CI impact planning.
pub mod model;
pub mod input;

pub mod plan;
pub mod ids;
pub mod shards;
pub mod path_rules;
pub mod registry;
pub mod shadow;
pub mod backlog;
