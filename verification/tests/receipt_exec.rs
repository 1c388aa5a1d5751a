use deve_baseline::acceptance_matrix::json::JsonValue;
use deve_baseline::acceptance_matrix::producer::execution::{CommandStep, ExecutionSpec};
use deve_baseline::acceptance_matrix::receipt::{command_fingerprint, EvidenceSpec};
use deve_baseline::acceptance_matrix::receipt_exec::{
    after_step, build_receipt, cleanup_error, command_descriptor, ends_with_path, execution_id, execution_passed,
    fail_receipt_group, failed_evidence, mark_receipt_failed, settle_receipt_group, validate_execution_request,
    StepOutcome,
};
use deve_baseline::acceptance_matrix::receipt_exec::{
    bound_publication, check_publication_sizes, execution_evidence_ids, omit_claims_for_bounds, read_claims_content,
    Publication,
};
use deve_baseline::acceptance_matrix::receipt_model::Receipt;

fn step(program: &str, args: &[&str]) -> CommandStep {
    CommandStep {
        program: program.to_string(),
        args: args.iter().map(|a| a.to_string()).collect(),
        env: Vec::new(),
    }
}

fn spec() -> ExecutionSpec {
    ExecutionSpec {
        producer_id: "docker.smoke".into(),
        producer_contract: "sha256:abc".into(),
        command_artifacts: vec!["scripts/smoke.sh".into()],
        producer_inputs: vec![("IMAGE".into(), "ghcr.io/deve:1".into())],
        steps: vec![step("bash", &["scripts/smoke.sh", "ghcr.io/deve:1"]), step("docker", &["logout"])],
        finally_steps: Vec::new(),
        timeout_seconds: 600,
    }
}

fn evidence(id: &str, reference: &str, output: &str) -> EvidenceSpec {
    EvidenceSpec {
        evidence_id: id.into(),
        evidence_ref: reference.into(),
        surface: "docker".into(),
        mode: "smoke".into(),
        target_os: "linux".into(),
        output: output.into(),
        claims: None,
    }
}

fn receipt(id: &str, status: &str, error: Option<&str>) -> Receipt {
    let item = evidence(id, "receipts/docker.json", "/out/receipts/docker.json");
    let mut r = build_receipt(
        &item,
        &spec(),
        &vec!["bash".to_string()],
        "exec-1",
        &vec![id.to_string()],
        "abc",
        Some("abc".into()),
        false,
        false,
        "2026-01-01T00:00:00Z",
        "2026-01-01T00:01:00Z",
        Some(0),
        Some(JsonValue::Bool(true)),
        &Vec::new(),
        true,
        "linux",
        "x86_64",
    );
    r.status = status.into();
    r.error = error.map(|e| e.to_string());
    r
}

#[test]
fn path_suffix_matches_whole_components() {
    assert!(ends_with_path("/out/receipts/docker.json", "receipts/docker.json"));
    assert!(ends_with_path("/out/./receipts//docker.json", "receipts/docker.json"));
    assert!(!ends_with_path("/out/xreceipts/docker.json", "receipts/docker.json"));
    assert!(!ends_with_path("docker.json", "receipts/docker.json"));
    assert!(ends_with_path("/out/docker.json", ""));
}

#[test]
fn execution_request_rejects_each_malformed_group() {
    let good = vec![evidence("smoke.docker", "receipts/docker.json", "/out/receipts/docker.json")];
    assert_eq!(validate_execution_request(&good, &spec()), Ok(()));
    assert_eq!(
        validate_execution_request(&Vec::new(), &spec()).unwrap_err(),
        "acceptance-receipt: at least one evidence binding is required"
    );
    let mut no_steps = spec();
    no_steps.steps.clear();
    assert_eq!(
        validate_execution_request(&good, &no_steps).unwrap_err(),
        "acceptance-receipt: at least one command step is required"
    );
    let mut unbound = spec();
    unbound.producer_contract = "  ".into();
    assert_eq!(
        validate_execution_request(&good, &unbound).unwrap_err(),
        "acceptance-receipt: producer binding is required"
    );
    let twice = vec![good[0].clone_for_test(), good[0].clone_for_test()];
    assert_eq!(
        validate_execution_request(&twice, &spec()).unwrap_err(),
        "acceptance-receipt: duplicate evidence binding"
    );
    let misplaced = vec![evidence("smoke.docker", "receipts/docker.json", "/out/other.json")];
    assert_eq!(
        validate_execution_request(&misplaced, &spec()).unwrap_err(),
        "acceptance-receipt: output /out/other.json must end with evidence locator receipts/docker.json"
    );
    let many: Vec<EvidenceSpec> = (0..65)
        .map(|i| evidence(&format!("e{i}"), "r.json", &format!("/out/{i}/r.json")))
        .collect();
    assert_eq!(
        validate_execution_request(&many, &spec()).unwrap_err(),
        "acceptance-receipt: atomic evidence group exceeds 64 receipts"
    );
}

trait CloneForTest {
    fn clone_for_test(&self) -> Self;
}

impl CloneForTest for EvidenceSpec {
    fn clone_for_test(&self) -> Self {
        EvidenceSpec {
            evidence_id: self.evidence_id.clone(),
            evidence_ref: self.evidence_ref.clone(),
            surface: self.surface.clone(),
            mode: self.mode.clone(),
            target_os: self.target_os.clone(),
            output: self.output.clone(),
            claims: self.claims.clone(),
        }
    }
}

#[test]
fn descriptor_keeps_input_values_and_argument_shape() {
    let descriptor = command_descriptor(&spec());
    let expected: Vec<String> = [
        "<producer-input:IMAGE>",
        "ghcr.io/deve:1",
        "bash",
        "<arg>",
        "<arg>",
        "<next-step>",
        "docker",
        "<arg>",
    ]
    .iter()
    .map(|s| s.to_string())
    .collect();
    assert_eq!(descriptor, expected);
}

#[test]
fn execution_id_fingerprints_its_material_without_colons() {
    let id = execution_id(&spec(), "abc", "2026-01-01T00:00:00Z", 42, 7);
    let material: Vec<String> = ["docker.smoke", "sha256:abc", "abc", "2026-01-01T00:00:00Z", "42", "7"]
        .iter()
        .map(|s| s.to_string())
        .collect();
    let expected = format!("exec-{}", command_fingerprint(&material).replace(':', "-"));
    assert_eq!(id, expected);
    assert!(id.starts_with("exec-fnv1a64-"));
    assert_ne!(id, execution_id(&spec(), "abc", "2026-01-01T00:00:00Z", 42, 8));
}

#[test]
fn built_receipt_records_the_execution() {
    let item = evidence("smoke.docker", "receipts/docker.json", "/out/receipts/docker.json");
    let command = command_descriptor(&spec());
    let errors = vec!["first".to_string(), "second".to_string()];
    let r = build_receipt(
        &item,
        &spec(),
        &command,
        "exec-1",
        &vec!["smoke.docker".to_string()],
        "abc",
        None,
        true,
        false,
        "s",
        "f",
        Some(1),
        None,
        &errors,
        false,
        "linux",
        "x86_64",
    );
    assert_eq!(r.schema, 3);
    assert_eq!(r.status, "failed");
    assert_eq!(r.error.as_deref(), Some("first; second"));
    assert_eq!(r.command_program, "bash");
    assert_eq!(r.command_arg_count, 3);
    assert_eq!(r.command_fingerprint, command_fingerprint(&command));
    assert_eq!(r.producer_inputs, vec![("IMAGE".to_string(), "ghcr.io/deve:1".to_string())]);
    assert_eq!(r.target_os, "linux");
    assert!(r.dirty_before);
    assert_eq!(r.exit_code, Some(1));
    let ok = receipt("smoke.docker", "passed", None);
    assert_eq!(ok.error, None);
    assert_eq!(ok.status, "passed");
}

#[test]
fn marking_failed_appends_to_an_existing_error() {
    let mut r = receipt("a", "passed", Some("disk full"));
    mark_receipt_failed(&mut r, "group failed");
    assert_eq!(r.status, "failed");
    assert_eq!(r.error.as_deref(), Some("disk full; group failed"));
    let mut empty = receipt("a", "passed", Some(""));
    mark_receipt_failed(&mut empty, "group failed");
    assert_eq!(empty.error.as_deref(), Some("group failed"));
}

#[test]
fn one_failed_receipt_fails_the_whole_group() {
    let mut group = vec![receipt("a", "passed", None), receipt("b", "failed", Some("boom"))];
    settle_receipt_group(&mut group);
    assert_eq!(group[0].status, "failed");
    assert_eq!(
        group[0].error.as_deref(),
        Some("execution group failed because at least one evidence receipt failed")
    );
    assert_eq!(
        group[1].error.as_deref(),
        Some("boom; execution group failed because at least one evidence receipt failed")
    );
    assert_eq!(failed_evidence(&group), vec!["a".to_string(), "b".to_string()]);
    let mut passing = vec![receipt("a", "passed", None), receipt("b", "passed", None)];
    settle_receipt_group(&mut passing);
    assert_eq!(passing[1].status, "passed");
    assert!(failed_evidence(&passing).is_empty());
}

#[test]
fn failing_a_group_for_size_drops_claims() {
    let mut group = vec![receipt("a", "passed", None)];
    fail_receipt_group(&mut group, "too large", true);
    assert!(group[0].claims.is_none());
    assert_eq!(group[0].error.as_deref(), Some("too large"));
    let mut kept = vec![receipt("a", "passed", None)];
    fail_receipt_group(&mut kept, "other", false);
    assert!(matches!(kept[0].claims, Some(JsonValue::Bool(true))));
}

#[test]
fn step_outcomes_decide_whether_the_run_goes_on() {
    let ok = StepOutcome::Exited { success: true, code: Some(0) };
    let bad = StepOutcome::Exited { success: false, code: Some(2) };
    assert_eq!(after_step("bash", &ok), (None, true));
    assert_eq!(
        after_step("bash", &bad),
        (Some("command step bash returned a non-zero exit status".to_string()), false)
    );
    assert_eq!(
        after_step("bash", &StepOutcome::Expired),
        (Some("producer timeout expired before the next command step".to_string()), false)
    );
    assert_eq!(after_step("bash", &StepOutcome::Failed("spawn".into())), (Some("spawn".to_string()), false));
    assert_eq!(cleanup_error("docker", &ok), None);
    assert_eq!(cleanup_error("docker", &bad), Some("cleanup step docker failed".to_string()));
    assert_eq!(
        cleanup_error("docker", &StepOutcome::Failed("gone".into())),
        Some("cleanup step docker failed: gone".to_string())
    );
    assert!(execution_passed(&Vec::new(), &Some(ok)));
    assert!(!execution_passed(&Vec::new(), &Some(bad)));
    assert!(!execution_passed(&Vec::new(), &None));
    assert!(!execution_passed(&vec!["x".to_string()], &Some(StepOutcome::Exited { success: true, code: None })));
}

#[test]
fn claims_content_must_be_json_within_the_group_budget() {
    let mut total = 0u64;
    let value = read_claims_content(&br#"{"b": 2, "a": [true, null, "x"]}"#.to_vec(), &mut total).unwrap();
    assert_eq!(total, 32);
    match value {
        JsonValue::Object(members) => {
            assert_eq!(members[0].0, "a");
            assert!(matches!(members[1].1, JsonValue::Number(Some(2))));
        }
        other => panic!("unexpected {other:?}"),
    }
    assert_eq!(read_claims_content(&b"not json".to_vec(), &mut total).unwrap_err(), "claims file is not JSON");
    assert_eq!(total, 32);
    let mut full = 16 * 1024 * 1024u64;
    assert_eq!(
        read_claims_content(&b"1".to_vec(), &mut full).unwrap_err(),
        "acceptance-receipt: claims group exceeds 16777216 bytes"
    );
    assert_eq!(full, 16 * 1024 * 1024);
}

#[test]
fn publication_sizes_are_bounded_per_file_and_in_total() {
    assert!(check_publication_sizes(&vec![10, 20]).is_ok());
    assert_eq!(
        check_publication_sizes(&vec![1048577]).unwrap_err(),
        "acceptance-receipt: serialized receipt exceeds 1048576 bytes"
    );
    assert_eq!(
        check_publication_sizes(&vec![1048576; 17]).unwrap_err(),
        "acceptance-receipt: serialized receipt group exceeds 16777216 bytes"
    );
    let mut group = vec![receipt("a", "passed", None)];
    omit_claims_for_bounds(&mut group);
    assert!(group[0].claims.is_none());
    assert_eq!(group[0].status, "failed");
    assert_eq!(
        group[0].error.as_deref(),
        Some("serialized receipt group exceeded the bounded publication limit; claims were omitted")
    );
}

#[test]
fn execution_evidence_ids_are_an_ordered_set() {
    let group = vec![
        evidence("smoke.b", "b.json", "/out/b.json"),
        evidence("smoke.a", "a.json", "/out/a.json"),
        evidence("smoke.b", "c.json", "/out/c.json"),
    ];
    assert_eq!(execution_evidence_ids(&group), vec!["smoke.a".to_string(), "smoke.b".to_string()]);
}

#[test]
fn publication_retries_once_without_claims_then_refuses() {
    let mut group = vec![receipt("a", "passed", None)];
    assert!(matches!(bound_publication(&mut group, &vec![100], false), Publication::Publish));
    assert_eq!(group[0].status, "passed");
    assert!(matches!(bound_publication(&mut group, &vec![2_000_000], false), Publication::Retry));
    assert!(group[0].claims.is_none());
    assert_eq!(group[0].status, "failed");
    match bound_publication(&mut group, &vec![2_000_000], true) {
        Publication::Refuse(e) => assert_eq!(e, "acceptance-receipt: bounded failed receipt group could not be serialized"),
        other => panic!("unexpected {other:?}"),
    }
}
