use deve_baseline::acceptance_matrix::model::MatrixRow;
use deve_baseline::acceptance_matrix::producer::collect::CollectArgs;
use deve_baseline::acceptance_matrix::tag_ready::consume_accepted_gap;

#[test]
fn collect_args_require_output_and_inputs() {
    let args = ["--output", "out", "one", "two"].map(str::to_string).to_vec();
    let parsed = CollectArgs::parse(&args).unwrap();
    assert_eq!(parsed.inputs.len(), 2);
    assert_eq!(parsed.output, "out");
}

#[test]
fn collect_args_refuse_options_and_missing_roots() {
    let parse = |v: &[&str]| CollectArgs::parse(&v.iter().map(|s| s.to_string()).collect());
    assert_eq!(
        parse(&["one"]).unwrap_err(),
        "acceptance-collect: --output <receipt-root> is required"
    );
    assert_eq!(parse(&["one", "--output"]).unwrap_err(), "acceptance-collect: --output requires a value");
    assert_eq!(parse(&["--output", "out"]).unwrap_err(), "acceptance-collect: at least one artifact root is required");
    assert_eq!(
        parse(&["--verbose", "--output", "out", "one"]).unwrap_err(),
        "acceptance-collect: unknown option --verbose"
    );
    let parsed = parse(&["a", "--output", "out", "b"]).unwrap();
    assert_eq!(parsed.inputs, ["a", "b"]);
}

fn row() -> MatrixRow {
    MatrixRow {
        requirement_id: "journey.android".into(),
        journey_id: "android-local-backend".into(),
        flow_id: "none".into(),
        case_id: "none".into(),
        surface: "android".into(),
        mode: "local-backend".into(),
        gate: "tag-ready".into(),
        requirement: "required".into(),
        evidence_kind: "receipt".into(),
        evidence_id: "smoke.android".into(),
        evidence_ref: "receipts/smoke.android.json".into(),
        freshness: "target-host-30d".into(),
        note: String::new(),
    }
}

#[test]
fn accepted_gap_consumption_requires_the_exact_requirement_and_evidence_pair() {
    let mut gap_row = row();
    gap_row.requirement_id = "case.store-016".into();
    gap_row.evidence_kind = "gap".into();
    gap_row.evidence_id = "gap.watcher.windows-overflow-receipt".into();

    let key = (gap_row.requirement_id.clone(), gap_row.evidence_id.clone());
    let mut bindings: Vec<((String, String), String)> =
        vec![(key.clone(), "known-limitation.windows-watcher-overflow".into())];
    assert_eq!(
        consume_accepted_gap(&gap_row, &mut bindings).as_deref(),
        Some("known-limitation.windows-watcher-overflow")
    );
    assert!(bindings.is_empty());

    let mut wrong_row = gap_row;
    wrong_row.evidence_id = "gap.watcher.other".into();
    let mut bindings: Vec<((String, String), String)> =
        vec![(key, "known-limitation.windows-watcher-overflow".into())];
    assert_eq!(consume_accepted_gap(&wrong_row, &mut bindings), None);
    assert_eq!(bindings.len(), 1);
}
