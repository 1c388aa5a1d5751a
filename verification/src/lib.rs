//! Verified acceptance-matrix and baseline policy checks.
pub mod text;
pub mod strset;
pub mod paths;
pub mod acceptance_matrix;
pub mod ai;
pub mod acceptance_bindings;
