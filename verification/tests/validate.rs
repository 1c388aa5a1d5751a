use deve_baseline::acceptance_matrix::model::{FlowCase, MatrixRow};
use deve_baseline::acceptance_matrix::validate::{require_enum, validate, validate_gap, validate_receipt_ref};

fn row() -> MatrixRow {
    MatrixRow {
        requirement_id: "req.test".into(),
        journey_id: "none".into(),
        flow_id: "none".into(),
        case_id: "TEST-001".into(),
        surface: "core".into(),
        mode: "unit".into(),
        gate: "ci".into(),
        requirement: "required".into(),
        evidence_kind: "source-ref".into(),
        evidence_id: "source.test".into(),
        evidence_ref: "crates/core/src/lib.rs".into(),
        freshness: "source-bound".into(),
        note: String::new(),
    }
}

#[test]
fn enum_validation_rejects_uncontrolled_values() {
    let row = row();
    assert!(require_enum("gate", "ci", &vec!["ci"], &row).is_ok());
    assert!(require_enum("gate", "maybe", &vec!["ci"], &row).is_err());
}

#[test]
fn gap_and_receipt_locators_are_fail_closed() {
    let mut row = row();
    row.evidence_kind = "gap".into();
    row.note = "missing".into();
    assert!(validate_gap(&row).is_err());
    row.note = "the concrete target-host receipt is missing".into();
    assert!(validate_gap(&row).is_ok());

    row.evidence_ref = "receipts/test.json".into();
    assert!(validate_receipt_ref(&row).is_ok());
    row.evidence_ref = "../outside.json".into();
    assert!(validate_receipt_ref(&row).is_err());
}

#[test]
fn enum_error_names_field_and_value() {
    let row = row();
    assert_eq!(
        require_enum("gate", "maybe", &vec!["ci"], &row).unwrap_err(),
        "acceptance-matrix: req.test has invalid gate=maybe"
    );
}

#[test]
fn receipt_locator_needs_a_json_file_name() {
    let mut row = row();
    row.evidence_ref = "receipts/test.txt".into();
    assert!(validate_receipt_ref(&row).is_err());
    row.evidence_ref = "receipts/.json".into();
    assert!(validate_receipt_ref(&row).is_err());
    row.evidence_ref = "receipts\\test.json".into();
    assert!(validate_receipt_ref(&row).is_err());
    row.evidence_ref = "/abs/test.json".into();
    assert!(validate_receipt_ref(&row).is_err());
}

#[test]
fn gap_note_cannot_repeat_the_locator() {
    let mut row = row();
    row.note = "  crates/core/src/lib.rs  ".into();
    assert!(validate_gap(&row).is_err());
}

#[test]
fn matrix_reports_every_unbound_case() {
    let rows = vec![row()];
    let cases = vec!["A-1".to_string(), "B-2".to_string(), "TEST-001".to_string()];
    let files = vec!["crates/core/src/lib.rs".to_string()];
    let err = validate(&rows, &cases, &Vec::<FlowCase>::new(), &files, &vec![Ok(())]).unwrap_err();
    assert_eq!(err, "acceptance-matrix: unbound acceptance cases: A-1, B-2");
}

#[test]
fn matrix_rejects_duplicate_requirement_before_enum_checks() {
    let mut second = row();
    second.gate = "maybe".into();
    let rows = vec![row(), second];
    let cases = vec!["TEST-001".to_string()];
    let files = vec!["crates/core/src/lib.rs".to_string()];
    let err = validate(&rows, &cases, &Vec::new(), &files, &vec![Ok(()), Ok(())]).unwrap_err();
    assert_eq!(err, "acceptance-matrix: duplicate requirement_id req.test");
}

#[test]
fn matrix_requires_first_tag_contracts() {
    let rows = vec![row()];
    let cases = vec!["TEST-001".to_string()];
    let files = vec!["crates/core/src/lib.rs".to_string()];
    let err = validate(&rows, &cases, &Vec::new(), &files, &vec![Ok(())]).unwrap_err();
    assert!(err.starts_with("acceptance-matrix: missing first-tag contract auth-session:web:browser:tag-ready:required"));
}

#[test]
fn matrix_rejects_missing_evidence_file() {
    let rows = vec![row()];
    let cases = vec!["TEST-001".to_string()];
    let err = validate(&rows, &cases, &Vec::new(), &Vec::new(), &vec![Ok(())]).unwrap_err();
    assert_eq!(err, "acceptance-matrix: req.test evidence path is missing or unsafe: crates/core/src/lib.rs");
}
