//! Typed shadow-only CI impact registry and plan model.
use vstd::prelude::*;

verus! {

pub const IMPACT_REGISTRY_PATH: &'static str = "docs/registry/acceptance-impact.json";

/// An artifact whose identity a shard may consume.
#[derive(Debug)]
pub struct ArtifactInput {
    pub artifact_id: String,
    pub identity: String,
}

/// A planning profile: which shards it may select and how.
#[derive(Debug)]
pub struct ImpactProfile {
    pub profile_id: String,
    pub selection: String,
    pub always_shards: Vec<String>,
    pub shards: Vec<String>,
}

/// A capability module: the paths it owns, its dependencies and its shards.
#[derive(Debug)]
pub struct ImpactModule {
    pub module_id: String,
    pub dependencies: Vec<String>,
    pub full_trigger: bool,
    pub exact_paths: Vec<String>,
    pub path_prefixes: Vec<String>,
    pub shards: Vec<String>,
}

/// Per-dimension isolation policy of a shard.
#[derive(Debug)]
pub struct Isolation {
    pub state: String,
    pub ports: String,
    pub database: String,
    pub identity: String,
    pub fixture: String,
    pub logs: String,
}

impl Isolation {
    /// A copy with the same values.
    pub fn duplicate(&self) -> (r: Self)
        ensures
            r == *self,
    {
        Isolation {
            state: self.state.clone(),
            ports: self.ports.clone(),
            database: self.database.clone(),
            identity: self.identity.clone(),
            fixture: self.fixture.clone(),
            logs: self.logs.clone(),
        }
    }
}

/// A verification shard.
#[derive(Debug)]
pub struct ImpactShard {
    pub shard_id: String,
    pub layer: String,
    pub execution_kind: String,
    pub ci_jobs: Vec<String>,
    pub producer_ids: Vec<String>,
    pub checks: Vec<String>,
    pub artifact_inputs: Vec<String>,
    pub isolation: Isolation,
}

/// The impact registry document.
#[derive(Debug)]
pub struct ImpactRegistry {
    pub schema: u8,
    pub mode: String,
    pub artifacts: Vec<ArtifactInput>,
    pub profiles: Vec<ImpactProfile>,
    pub modules: Vec<ImpactModule>,
    pub shards: Vec<ImpactShard>,
}

/// Digests of the inputs a plan was computed from.
#[derive(Debug)]
pub struct InputFingerprints {
    pub impact_registry: String,
    pub producer_registry: String,
    pub acceptance_matrix: String,
}

/// A computed shadow-only plan. Every list is an ordered set.
#[derive(Debug)]
pub struct ImpactPlan {
    pub schema: u8,
    pub status: String,
    pub input_fingerprints: InputFingerprints,
    pub profile: String,
    pub selection: String,
    pub scope: String,
    pub base: Option<String>,
    pub head: Option<String>,
    pub changed_files: Vec<String>,
    pub full_reasons: Vec<String>,
    pub changed_modules: Vec<String>,
    pub reverse_consumers: Vec<String>,
    pub selected_modules: Vec<String>,
    pub selected_shards: Vec<String>,
    pub producer_ids: Vec<String>,
    pub evidence_ids: Vec<String>,
    pub case_ids: Vec<String>,
    pub checks: Vec<String>,
    pub artifact_inputs: Vec<String>,
    /// Shard id to isolation, in shard id order.
    pub isolation: Vec<(String, Isolation)>,
}

} // verus!
