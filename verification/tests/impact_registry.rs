use deve_baseline::acceptance_matrix::impact::model::{ImpactRegistry, ImpactShard, Isolation};
use deve_baseline::acceptance_matrix::impact::path_rules::{validate_repo_path, validate_required_topology};
use deve_baseline::acceptance_matrix::impact::shadow::{classify_results, validate_result_set, ShadowArgs};
use deve_baseline::acceptance_matrix::impact::shards::{
    validate_fixed_base_job_bindings, validate_isolation, validate_layer_producer_jobs,
};

fn strings(values: &[&str]) -> Vec<String> {
    values.iter().map(|value| (*value).to_owned()).collect()
}

fn isolation(values: [&str; 6]) -> Isolation {
    Isolation {
        state: values[0].into(),
        ports: values[1].into(),
        database: values[2].into(),
        identity: values[3].into(),
        fixture: values[4].into(),
        logs: values[5].into(),
    }
}

fn shard(kind: &str, isolation: Isolation) -> ImpactShard {
    ImpactShard {
        shard_id: "fixture".into(),
        layer: "source".into(),
        execution_kind: kind.into(),
        ci_jobs: vec!["contract-checks".into()],
        producer_ids: Vec::new(),
        checks: vec!["fixture".into()],
        artifact_inputs: vec!["source".into()],
        isolation,
    }
}

fn per_job() -> Isolation {
    isolation(["per-job", "not-applicable", "per-job", "per-job", "content-addressed", "per-job"])
}

#[test]
fn path_rules_are_forward_slash_and_kind_exact() {
    assert!(validate_repo_path("apps/web/", true).is_ok());
    assert!(validate_repo_path("Cargo.toml", false).is_ok());
    assert!(validate_repo_path("apps\\web\\", true).is_err());
    assert!(validate_repo_path("apps/web/../cli/", true).is_err());
    assert!(validate_repo_path("apps/web", true).is_err());
}

#[test]
fn required_topology_rejects_deleted_consumer_edge_or_shard() {
    let dependencies = strings(&["core-authority"]);
    let shards = strings(&["diff-ci", "protocol-ci", "source-tag-contracts", "web-ci"]);
    validate_required_topology("web-shell", false, &dependencies, &shards).unwrap();
    assert!(validate_required_topology("web-shell", false, &Vec::new(), &shards).is_err());
    assert!(validate_required_topology(
        "web-shell",
        false,
        &dependencies,
        &strings(&["diff-ci", "protocol-ci", "web-ci"])
    )
    .is_err());
    assert!(validate_required_topology("web-shell", true, &dependencies, &shards).is_err());
}

#[test]
fn application_and_process_shards_reject_nonisolated_fields() {
    assert!(validate_isolation(&shard("application", per_job())).is_err());
    assert!(validate_isolation(&shard("process", per_job())).is_ok());
    assert!(validate_isolation(&shard("static", per_job())).is_ok());
    let missing_state = isolation(["not-applicable", "allocated", "per-job", "per-job", "content-addressed", "per-job"]);
    assert!(validate_isolation(&shard("process", missing_state)).is_err());
}

#[test]
fn isolation_values_are_typed_per_resource_dimension() {
    let invalid_port = isolation(["per-job", "content-addressed", "per-job", "per-job", "content-addressed", "per-job"]);
    assert!(validate_isolation(&shard("application", invalid_port)).is_err());
    let invalid_fixture = isolation([
        "not-applicable",
        "not-applicable",
        "not-applicable",
        "not-applicable",
        "allocated",
        "not-applicable",
    ]);
    assert!(validate_isolation(&shard("static", invalid_fixture)).is_err());
}

#[test]
fn fixed_base_jobs_cannot_move_to_an_optional_source_shard() {
    let mut registry = ImpactRegistry {
        schema: 1,
        mode: "shadow-only".into(),
        artifacts: Vec::new(),
        profiles: Vec::new(),
        modules: Vec::new(),
        shards: vec![shard("static", per_job()), shard("static", per_job()), shard("static", per_job())],
    };
    registry.shards[0].shard_id = "contract-static".into();
    registry.shards[0].ci_jobs = strings(&["contract-checks"]);
    registry.shards[1].shard_id = "workspace-build".into();
    registry.shards[1].ci_jobs = strings(&["rust-quality", "workspace-tests"]);
    registry.shards[2].shard_id = "core-ci".into();
    registry.shards[2].ci_jobs = strings(&["watcher-native-fs"]);
    validate_fixed_base_job_bindings(&registry).unwrap();
    registry.shards[2].ci_jobs.clear();
    assert!(validate_fixed_base_job_bindings(&registry).is_err());
}

#[test]
fn source_shards_reject_target_host_only_producers() {
    let source = shard("static", per_job());
    let producers = strings(&["target-host.only"]);
    assert!(validate_layer_producer_jobs(&source, &producers, &Vec::new()).is_err());
    let mut runtime = shard("process", per_job());
    runtime.layer = "runtime".into();
    assert!(validate_layer_producer_jobs(&runtime, &producers, &Vec::new()).is_ok());
}

#[test]
fn results_are_typed_and_duplicate_jobs_fail_closed() {
    assert!(ShadowArgs::parse(&strings(&["--base", "base", "--head", "head", "--result", "rust-quality=success"])).is_ok());
    assert!(ShadowArgs::parse(&strings(&[
        "--base",
        "base",
        "--head",
        "head",
        "--result",
        "rust-quality=success",
        "--result",
        "rust-quality=skipped",
    ]))
    .is_err());
}

#[test]
fn complete_results_preserve_every_non_success_and_observed_miss() {
    let required = strings(&["a", "b", "c"]);
    assert!(validate_result_set(&strings(&["a", "b"]), &required).is_err());
    assert!(validate_result_set(&strings(&["a", "b", "c", "unknown"]), &required).is_err());
    validate_result_set(&required, &required).unwrap();

    let results = vec![
        ("a".to_owned(), "failure".to_owned()),
        ("b".to_owned(), "cancelled".to_owned()),
        ("c".to_owned(), "skipped".to_owned()),
        ("d".to_owned(), "success".to_owned()),
    ];
    let selected = strings(&["a"]);
    let (failures, misses) = classify_results(&results, &selected);
    assert_eq!(failures, ["a", "b", "c"]);
    assert_eq!(misses, ["b", "c"]);
}
