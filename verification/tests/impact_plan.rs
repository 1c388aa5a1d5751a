use deve_baseline::acceptance_matrix::impact::input::{validate_changed_path, validate_revision, PlanArgs};
use deve_baseline::acceptance_matrix::impact::model::{
    ImpactModule, ImpactProfile, ImpactRegistry, ImpactShard, InputFingerprints, Isolation,
};
use deve_baseline::acceptance_matrix::impact::plan::{build, reverse_closure};

fn module(id: &str, dependencies: &[&str]) -> ImpactModule {
    ImpactModule {
        module_id: id.to_owned(),
        dependencies: dependencies.iter().map(|value| (*value).to_owned()).collect(),
        full_trigger: false,
        exact_paths: Vec::new(),
        path_prefixes: vec![format!("{id}/")],
        shards: vec![format!("{id}-shard")],
    }
}

fn isolation() -> Isolation {
    Isolation {
        state: "per-execution".into(),
        ports: "not-applicable".into(),
        database: "per-execution".into(),
        identity: "per-execution".into(),
        fixture: "content-addressed".into(),
        logs: "per-execution".into(),
    }
}

fn shard(id: &str, layer: &str, kind: &str, jobs: &[&str], producer: &str, check: &str) -> ImpactShard {
    ImpactShard {
        shard_id: id.into(),
        layer: layer.into(),
        execution_kind: kind.into(),
        ci_jobs: jobs.iter().map(|job| (*job).to_owned()).collect(),
        producer_ids: vec![producer.into()],
        checks: vec![check.into()],
        artifact_inputs: vec!["source".into()],
        isolation: isolation(),
    }
}

fn planning_registry() -> ImpactRegistry {
    let mut core = module("core", &[]);
    core.shards = vec!["core-shard".into()];
    let mut web = module("web", &["core"]);
    web.shards = vec!["web-shard".into()];
    ImpactRegistry {
        schema: 1,
        mode: "shadow-only".into(),
        artifacts: Vec::new(),
        profiles: vec![
            ImpactProfile {
                profile_id: "pr-selective".into(),
                selection: "selective".into(),
                always_shards: Vec::new(),
                shards: vec!["core-shard".into(), "web-shard".into()],
            },
            ImpactProfile {
                profile_id: "candidate-full-release".into(),
                selection: "full".into(),
                always_shards: Vec::new(),
                shards: vec!["core-shard".into(), "web-shard".into(), "runtime-shard".into()],
            },
            ImpactProfile {
                profile_id: "main-full-source".into(),
                selection: "full".into(),
                always_shards: Vec::new(),
                shards: vec!["core-shard".into(), "web-shard".into()],
            },
        ],
        modules: vec![core, web],
        shards: vec![
            shard("core-shard", "source", "static", &["core-job"], "ci.core", "cargo.core"),
            shard("web-shard", "source", "static", &["web-job"], "ci.web", "cargo.web"),
            shard("runtime-shard", "runtime", "application", &[], "ci.runtime", "runtime.check"),
        ],
    }
}

fn evidence_catalog() -> Vec<(String, Vec<String>)> {
    vec![
        ("ci.core".into(), vec!["test.core".into()]),
        ("ci.web".into(), vec!["test.web".into()]),
        ("ci.runtime".into(), vec!["smoke.runtime".into()]),
    ]
}

fn fingerprints() -> InputFingerprints {
    InputFingerprints {
        impact_registry: "sha256:impact".into(),
        producer_registry: "sha256:producer".into(),
        acceptance_matrix: "sha256:matrix".into(),
    }
}

fn strings(values: &[&str]) -> Vec<String> {
    values.iter().map(|value| (*value).to_owned()).collect()
}

#[test]
fn reverse_dependency_closure_includes_transitive_consumers() {
    let modules = vec![module("core", &[]), module("cli", &["core"]), module("desktop", &["cli"])];
    let changed = strings(&["core"]);
    assert_eq!(reverse_closure(&changed, &modules), strings(&["cli", "core", "desktop"]));
}

#[test]
fn inputs_reject_shell_options_and_noncanonical_paths() {
    assert!(validate_revision("main").is_ok());
    assert!(validate_revision("-C").is_err());
    assert!(validate_changed_path("apps/web/src/lib.rs").is_ok());
    assert!(validate_changed_path("apps/web/../cli/lib.rs").is_err());
}

#[test]
fn selective_plan_expands_consumers_and_unknown_paths_force_full() {
    let registry = planning_registry();
    let args = PlanArgs::parse(&strings(&["--profile", "pr-selective", "--changed-file", "core/lib.rs"])).unwrap();
    let plan = build(&registry, fingerprints(), args, &evidence_catalog(), &Vec::new()).unwrap();
    assert_eq!(plan.selection, "selective");
    assert_eq!(plan.scope, "source");
    assert_eq!(plan.reverse_consumers, vec!["web"]);
    assert_eq!(plan.selected_shards, vec!["core-shard", "web-shard"]);

    let args = PlanArgs::parse(&strings(&["--profile", "pr-selective", "--changed-file", "unknown/file"])).unwrap();
    let plan = build(&registry, fingerprints(), args, &evidence_catalog(), &Vec::new()).unwrap();
    assert_eq!(plan.status, "shadow-only");
    assert_eq!(plan.selection, "full");
    assert_eq!(plan.scope, "system");
    assert!(plan.selected_shards.contains(&"runtime-shard".to_owned()));
    assert_eq!(plan.full_reasons, vec!["unknown-path:unknown/file"]);
}

#[test]
fn candidate_profile_is_full_without_a_change_set() {
    let registry = planning_registry();
    let args = PlanArgs::parse(&strings(&["--profile", "candidate-full-release"])).unwrap();
    let plan = build(&registry, fingerprints(), args, &evidence_catalog(), &Vec::new()).unwrap();
    assert_eq!(plan.selection, "full");
    assert!(plan.reverse_consumers.is_empty());
    assert_eq!(plan.selected_modules, vec!["core", "web"]);
}

#[test]
fn unknown_or_full_trigger_paths_escalate_source_profiles_to_system_scope() {
    let registry = planning_registry();
    let args = PlanArgs::parse(&strings(&["--profile", "main-full-source", "--changed-file", "unknown/file"])).unwrap();
    let plan = build(&registry, fingerprints(), args, &evidence_catalog(), &Vec::new()).unwrap();
    assert_eq!(plan.scope, "system");
    assert!(plan.selected_shards.contains(&"runtime-shard".to_owned()));

    let mut registry = planning_registry();
    registry.modules[0].full_trigger = true;
    let args = PlanArgs::parse(&strings(&["--profile", "main-full-source", "--changed-file", "core/lib.rs"])).unwrap();
    let plan = build(&registry, fingerprints(), args, &evidence_catalog(), &Vec::new()).unwrap();
    assert_eq!(plan.scope, "system");
    assert!(plan.selected_shards.contains(&"runtime-shard".to_owned()));
}
