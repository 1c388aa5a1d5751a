//! Machine-readable acceptance matrix and first-tag evidence gate.
pub mod model;
pub mod parse;
pub mod impact;
pub mod producer;
pub mod receipt_limits;
pub mod test_selector;
pub mod validate;
pub mod receipt;
pub mod tag_ready;
pub mod json;
pub mod receipt_model;
pub mod execution_group;
pub mod receipt_exec;
pub mod fingerprint;
pub mod coverage;
