use deve_baseline::acceptance_matrix::impact::backlog::backlog;
use deve_baseline::acceptance_matrix::model::MatrixRow;

fn row(case_id: &str, evidence_kind: &str) -> MatrixRow {
    MatrixRow {
        requirement_id: format!("REQ-{case_id}-{evidence_kind}"),
        journey_id: "none".into(),
        flow_id: "none".into(),
        case_id: case_id.into(),
        surface: "web".into(),
        mode: "browser".into(),
        gate: "ci".into(),
        requirement: "required".into(),
        evidence_kind: evidence_kind.into(),
        evidence_id: format!("{evidence_kind}.{case_id}"),
        evidence_ref: "docs/example.md".into(),
        freshness: "source-bound".into(),
        note: "fixture".into(),
    }
}

#[test]
fn counts_distinct_cases_and_does_not_treat_source_refs_as_automation() {
    let rows = vec![
        row("UI-001", "document"),
        row("UI-001", "document"),
        row("UI-002", "source-ref"),
        row("AUTH-001", "document"),
        row("AUTH-001", "test"),
        row("FAKE-001", "test"),
    ];
    let report = backlog(&rows, &vec!["test.AUTH-001".to_owned()]);
    assert_eq!(report.document_only_total, 1);
    assert_eq!(report.unautomated_total, 3);
    assert_eq!(report.document_only_by_family, vec![("UI".to_string(), vec!["UI-001".to_string()])]);
    assert_eq!(
        report.unautomated_by_family,
        vec![
            ("FAKE".to_string(), vec!["FAKE-001".to_string()]),
            ("UI".to_string(), vec!["UI-001".to_string(), "UI-002".to_string()]),
        ]
    );
}

#[test]
fn rows_without_a_case_are_not_in_the_backlog() {
    let rows = vec![row("none", "document"), row("PLAIN", "document")];
    let report = backlog(&rows, &Vec::new());
    assert_eq!(report.document_only_total, 1);
    assert_eq!(report.document_only_by_family, vec![("PLAIN".to_string(), vec!["PLAIN".to_string()])]);
}
