use deve_baseline::acceptance_bindings::{
    case_ids_in_content, collect_case_ids, ordered_case_ids, parse_binding_row, record_stale_commands,
};

#[test]
fn longer_case_ids_do_not_shadow_shorter_prefixes() {
    let ids = vec!["CMD-004".to_string(), "CMD-004A".to_string(), "CMD-004B".to_string()];
    let ordered = ordered_case_ids(&ids);
    let refs = case_ids_in_content("case CMD-004A only", &ordered);

    assert!(refs.contains(&"CMD-004A".to_string()));
    assert!(!refs.contains(&"CMD-004".to_string()));
    assert!(!refs.contains(&"CMD-004B".to_string()));
}

#[test]
fn parses_binding_rows_with_optional_notes() {
    let row = parse_binding_row("AUTH-004|manual-security|docs/features/09_auth.md|note").expect("binding row");

    assert_eq!(row.case_id, "AUTH-004");
    assert_eq!(row.binding, "manual-security");
    assert_eq!(row.evidence, "docs/features/09_auth.md");
    assert!(parse_binding_row("# comment").is_none());
    assert!(parse_binding_row("").is_none());
}

#[test]
fn case_ids_are_collected_sorted_and_once() {
    let docs = vec![
        "case_id: CMD-002\ncase_id: CMD-001-A\n".to_string(),
        "text case_id: CMD-002 and case_id: lower\n".to_string(),
    ];
    assert_eq!(
        collect_case_ids(&docs).unwrap(),
        vec!["CMD-001-A".to_string(), "CMD-002".to_string()]
    );
    assert!(collect_case_ids(&Vec::new()).unwrap().is_empty());
}

#[test]
fn stale_commands_are_reported_per_document() {
    let docs = vec![
        "run deve api call then deve dump --doc x".to_string(),
        "deve dump --field last_op".to_string(),
        "clean".to_string(),
    ];
    assert_eq!(
        record_stale_commands(&docs).unwrap(),
        vec![
            "stale acceptance command remains: deve dump --doc".to_string(),
            "stale acceptance command remains: deve api call".to_string(),
            "stale acceptance dump --field command remains".to_string(),
        ]
    );
}
