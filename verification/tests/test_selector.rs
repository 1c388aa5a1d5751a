use deve_baseline::acceptance_matrix::model::MatrixRow;
use deve_baseline::acceptance_matrix::test_selector::{
    check_test_filter, rust_source_paths, selector_search_root, sources_define_test, TestCatalog, TestPackage,
};

fn row(reference: &str) -> MatrixRow {
    MatrixRow {
        requirement_id: "req.test".into(),
        journey_id: "none".into(),
        flow_id: "none".into(),
        case_id: "TEST-001".into(),
        surface: "core".into(),
        mode: "unit".into(),
        gate: "ci".into(),
        requirement: "required".into(),
        evidence_kind: "test".into(),
        evidence_id: "test.core".into(),
        evidence_ref: reference.into(),
        freshness: "source-bound".into(),
        note: String::new(),
    }
}

fn catalog() -> TestCatalog {
    TestCatalog {
        packages: vec![TestPackage {
            name: "deve_core".into(),
            root: "/repo/crates/core".into(),
            test_targets: vec![("projection".into(), "/repo/crates/core/tests/projection.rs".into())],
        }],
    }
}

#[test]
fn search_root_follows_the_package_or_its_test_target() {
    let unit = selector_search_root(&row("cargo test -p deve_core typed_filter -- --nocapture"), &catalog()).unwrap();
    assert_eq!(unit.package, "deve_core");
    assert_eq!(unit.root, "/repo/crates/core");
    assert_eq!(unit.filter.as_deref(), Some("typed_filter"));
    let target = selector_search_root(&row("cargo test -p deve_core --test projection"), &catalog()).unwrap();
    assert_eq!(target.root, "/repo/crates/core/tests/projection.rs");
    assert_eq!(target.filter, None);
}

#[test]
fn search_root_names_unknown_packages_and_targets() {
    assert_eq!(
        selector_search_root(&row("cargo test -p missing x"), &catalog()).unwrap_err(),
        "acceptance-matrix: req.test references unknown package missing"
    );
    assert_eq!(
        selector_search_root(&row("cargo test -p deve_core --test nowhere"), &catalog()).unwrap_err(),
        "acceptance-matrix: req.test references unknown test target nowhere in deve_core"
    );
    assert_eq!(
        selector_search_root(&row("cargo build"), &catalog()).unwrap_err(),
        "acceptance-matrix: invalid test selector for req.test"
    );
}

#[test]
fn test_filters_must_name_a_defined_test_function() {
    let sources = vec![
        "fn helper() {}\n".to_string(),
        "#[test]\nfn typed_filter_roundtrip() {}\n#[tokio::test]\nasync fn async_case() {}\n".to_string(),
    ];
    assert!(sources_define_test(&sources, "typed_filter").unwrap());
    assert!(sources_define_test(&sources, "async_case").unwrap());
    assert!(!sources_define_test(&sources, "helper").unwrap());
    let search = selector_search_root(&row("cargo test -p deve_core helper"), &catalog()).unwrap();
    assert_eq!(
        check_test_filter(&row("cargo test -p deve_core helper"), &search, &sources).unwrap_err(),
        "acceptance-matrix: req.test test filter is not defined in package deve_core: helper"
    );
    let target = selector_search_root(&row("cargo test -p deve_core --test projection"), &catalog()).unwrap();
    assert!(check_test_filter(&row("cargo test -p deve_core --test projection"), &target, &Vec::new()).is_ok());
}

#[test]
fn only_rust_sources_of_a_listing_are_searched() {
    let listing = "crates/core/src/lib.rs\ncrates/core/README.md\ncrates/core/.rs\ncrates/core/tests/a.b.rs\n";
    assert_eq!(
        rust_source_paths(listing),
        vec!["crates/core/src/lib.rs".to_string(), "crates/core/tests/a.b.rs".to_string()]
    );
}
