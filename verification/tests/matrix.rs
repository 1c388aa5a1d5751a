use deve_baseline::acceptance_matrix::parse::parse_matrix;
use deve_baseline::acceptance_matrix::receipt_limits::add_total_bytes;
use deve_baseline::acceptance_matrix::test_selector::TestSelector;

const HEADER: [&str; 13] = [
    "requirement_id",
    "journey_id",
    "flow_id",
    "case_id",
    "surface",
    "mode",
    "gate",
    "requirement",
    "evidence_kind",
    "evidence_id",
    "evidence_ref",
    "freshness",
    "note",
];

#[test]
fn matrix_parser_requires_exact_tsv_width() {
    let good = format!("{}\n{}\n", HEADER.join("\t"), vec!["x"; 13].join("\t"));
    assert_eq!(parse_matrix(&good).unwrap().len(), 1);
    assert!(parse_matrix(&format!("{}\nx\n", HEADER.join("\t"))).is_err());
}

#[test]
fn aggregate_budget_rejects_the_first_over_limit_byte() {
    let mut total = 16 * 1024 * 1024;
    assert!(add_total_bytes("receipt group", &mut total, 1).is_err());
}

#[test]
fn test_selector_requires_package_and_understands_test_targets() {
    let unit = TestSelector::parse("cargo test -p deve_core typed_filter -- --nocapture").unwrap();
    assert_eq!(unit.package, "deve_core");
    assert_eq!(unit.filter.as_deref(), Some("typed_filter"));
    let integration =
        TestSelector::parse("cargo test --package deve_core --test materialize_projection_test -- --nocapture").unwrap();
    assert_eq!(integration.test_target.as_deref(), Some("materialize_projection_test"));
    assert!(TestSelector::parse("cargo test -p missing").is_err());
}
