//! Typed acceptance producer registry model.
use vstd::prelude::*;

verus! {

pub const PRODUCER_REGISTRY_PATH: &'static str = "docs/registry/acceptance-producers.json";

/// The producer registry document.
#[derive(Debug)]
pub struct ProducerRegistry {
    pub schema: u8,
    pub producers: Vec<Producer>,
}

/// One argument of a producer step.
#[derive(Debug)]
pub enum ProducerArg {
    LiteralString(String),
    Literal { literal: String },
    Env { env: String },
}

/// One command a producer runs.
#[derive(Debug)]
pub struct ProducerStep {
    pub program: String,
    pub args: Vec<ProducerArg>,
}

/// A producer: the evidence it emits and how it is run.
#[derive(Debug)]
pub struct Producer {
    pub producer_id: String,
    pub evidence_ids: Vec<String>,
    pub dependencies: Vec<String>,
    pub tiers: Vec<String>,
    pub host_os: Vec<String>,
    pub timeout_seconds: u64,
    /// Whether the producer's evidence is only valid against a release
    /// candidate.
    pub candidate_required: bool,
    pub required_tools: Vec<String>,
    pub required_env: Vec<String>,
    /// Required environment values that are safe to publish in receipts and
    /// form part of the evidence identity (for example an immutable image ID).
    pub bound_env: Vec<String>,
    /// Environment set for the steps, by name.
    pub environment: Vec<(String, String)>,
    /// Claims read from the environment, by claim name.
    pub claims_env: Vec<(String, String)>,
    pub artifacts: Vec<String>,
    pub steps: Vec<ProducerStep>,
    pub finally_steps: Vec<ProducerStep>,
    pub note: String,
}

} // verus!
