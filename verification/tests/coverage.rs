use deve_baseline::acceptance_matrix::coverage::collect_flow_cases;

fn pairs(content: &str) -> Vec<(String, String)> {
    collect_flow_cases(content)
        .unwrap()
        .into_iter()
        .map(|fc| (fc.flow_id, fc.case_id))
        .collect()
}

#[test]
fn coverage_rows_relate_each_flow_to_its_cases_in_order() {
    let content = "# Operation coverage\n\
| Flow | Operation | Cases |\n\
| `flow.sync.push` | push | CMD-001, AUTH-002-A |\n\
| `flow.a` | read | CMD-001 CMD-001 |\n\
not a row `flow.b`\n";
    assert_eq!(
        pairs(content),
        vec![
            ("flow.a".to_string(), "CMD-001".to_string()),
            ("flow.sync.push".to_string(), "AUTH-002-A".to_string()),
            ("flow.sync.push".to_string(), "CMD-001".to_string()),
        ]
    );
    assert!(pairs("no table here\n").is_empty());
}

#[test]
fn coverage_rows_refuse_missing_flow_column_or_cases() {
    assert_eq!(
        collect_flow_cases("| `flow.` | x | CMD-001 |\n").unwrap_err(),
        "acceptance-matrix: operation coverage row missing flow ID"
    );
    assert_eq!(
        collect_flow_cases("| `flow.a` | x\n").unwrap_err(),
        "acceptance-matrix: operation coverage row missing case column"
    );
    assert_eq!(
        collect_flow_cases("| `flow.a` | x | none |\n| `flow.` |\n").unwrap_err(),
        "acceptance-matrix: flow.a has no acceptance cases"
    );
}

#[test]
fn matrix_validation_reads_the_coverage_table_first() {
    use_validate_with_coverage();
}

fn use_validate_with_coverage() {
    let rows: Vec<deve_baseline::acceptance_matrix::model::MatrixRow> = Vec::new();
    assert_eq!(
        deve_baseline::acceptance_matrix::validate::validate_with_coverage(
            &rows,
            &Vec::new(),
            "| `flow.a` | x\n",
            &Vec::new(),
            &Vec::new()
        )
        .unwrap_err(),
        "acceptance-matrix: matrix has no requirement rows"
    );
    let row = deve_baseline::acceptance_matrix::model::MatrixRow {
        requirement_id: "req.test".into(),
        journey_id: "none".into(),
        flow_id: "flow.a".into(),
        case_id: "CMD-001".into(),
        surface: "core".into(),
        mode: "unit".into(),
        gate: "ci".into(),
        requirement: "required".into(),
        evidence_kind: "source-ref".into(),
        evidence_id: "source.test".into(),
        evidence_ref: "crates/core/src/lib.rs".into(),
        freshness: "source-bound".into(),
        note: String::new(),
    };
    assert_eq!(
        deve_baseline::acceptance_matrix::validate::validate_with_coverage(
            &vec![row],
            &vec!["CMD-001".to_string()],
            "| `flow.a` | x\n",
            &Vec::new(),
            &vec![Ok(())]
        )
        .unwrap_err(),
        "acceptance-matrix: operation coverage row missing case column"
    );
}

#[test]
fn the_row_flow_is_its_first_complete_flow_id() {
    assert_eq!(
        pairs("| `flow.` | see flow.z-1.b! | CMD-001 |\n"),
        vec![("flow.z-1.b".to_string(), "CMD-001".to_string())]
    );
}
