use deve_baseline::acceptance_matrix::execution_group::{evidence_set, same_execution_context, validate_execution_groups};
use deve_baseline::acceptance_matrix::receipt_model::Receipt;

fn receipt(evidence_id: &str) -> Receipt {
    Receipt {
        schema: 3,
        producer_id: "producer.group".into(),
        producer_contract: "fnv1a64:1111111111111111".into(),
        execution_id: "exec-fnv1a64-2222222222222222".into(),
        execution_evidence_ids: vec!["smoke.one".into(), "smoke.two".into()],
        evidence_id: evidence_id.into(),
        evidence_ref: format!("receipts/{evidence_id}.json"),
        head: "abc".into(),
        head_after: Some("abc".into()),
        dirty_before: false,
        dirty_after: false,
        os: "linux".into(),
        arch: "x86_64".into(),
        target_os: "web".into(),
        surface: "web".into(),
        mode: "browser".into(),
        started_at: "2026-01-01T00:00:00Z".into(),
        finished_at: "2026-01-01T00:00:01Z".into(),
        status: "passed".into(),
        exit_code: Some(0),
        error: None,
        command_program: "test".into(),
        command_arg_count: 1,
        command_fingerprint: "fnv1a64:3333333333333333".into(),
        command_artifacts: vec!["scripts/test.sh".into()],
        producer_inputs: vec![("DEVE_IMAGE_ID".into(), "sha256:test".into())],
        claims: None,
    }
}

#[test]
fn complete_execution_group_accepts_evidence_specific_projection_fields() {
    let one = receipt("smoke.one");
    let mut two = receipt("smoke.two");
    two.surface = "docker".into();
    two.mode = "multiclient".into();
    two.target_os = "linux".into();

    validate_execution_groups(&vec![&one, &two], "fixture").unwrap();
}

#[test]
fn execution_group_rejects_inconsistent_common_fields() {
    let one = receipt("smoke.one");
    let mut cases = Vec::new();
    let mut fingerprint = receipt("smoke.two");
    fingerprint.command_fingerprint = "fnv1a64:4444444444444444".into();
    cases.push(fingerprint);
    let mut inputs = receipt("smoke.two");
    inputs.producer_inputs = vec![("DEVE_IMAGE_ID".into(), "sha256:other".into())];
    cases.push(inputs);
    let mut head = receipt("smoke.two");
    head.head = "def".into();
    cases.push(head);
    let mut status = receipt("smoke.two");
    status.status = "failed".into();
    cases.push(status);
    let mut producer = receipt("smoke.two");
    producer.producer_id = "producer.other".into();
    cases.push(producer);

    for sibling in &cases {
        assert!(validate_execution_groups(&vec![&one, sibling], "fixture").is_err());
    }
}

#[test]
fn execution_groups_must_be_complete_unique_and_bound() {
    let one = receipt("smoke.one");
    assert_eq!(
        validate_execution_groups(&vec![&one], "fixture").unwrap_err(),
        "fixture: execution exec-fnv1a64-2222222222222222 is missing evidence or contains undeclared evidence"
    );
    let again = receipt("smoke.one");
    assert_eq!(
        validate_execution_groups(&vec![&one, &again], "fixture").unwrap_err(),
        "fixture: duplicate receipt evidence_id smoke.one"
    );
    let mut blank = receipt("smoke.one");
    blank.execution_id = "  ".into();
    assert_eq!(
        validate_execution_groups(&vec![&blank], "fixture").unwrap_err(),
        "fixture: receipt producer/execution binding is missing"
    );
    let mut foreign = receipt("smoke.three");
    foreign.execution_evidence_ids = vec!["smoke.one".into(), "smoke.one".into()];
    assert!(evidence_set(&foreign, "fixture").is_err());
    assert!(same_execution_context(&one, &receipt("smoke.two")));
}
