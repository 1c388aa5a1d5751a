use deve_baseline::acceptance_matrix::receipt::{
    collect_repository_errors, command_fingerprint, expected_target_os, failed_error, validate_batch,
    validate_windows_tree_termination, ReceiptArgs,
};
use deve_baseline::acceptance_matrix::receipt_limits::MAX_RECEIPT_BYTES;

#[test]
fn receipt_args_require_explicit_surface_and_command_boundary() {
    let output = "/tmp/deve-receipt-args-1.json".to_string();
    let args: Vec<String> = vec![
        "--evidence-id".into(),
        "smoke.web".into(),
        "--evidence-ref".into(),
        "deve-receipt-args-1.json".into(),
        "--surface".into(),
        "web".into(),
        "--mode".into(),
        "browser".into(),
        "--target-os".into(),
        "web".into(),
        "--output".into(),
        output.clone(),
        "--timeout-secs".into(),
        "2".into(),
        "--".into(),
        "cargo".into(),
        "test".into(),
    ];
    let parsed = ReceiptArgs::parse(&args).unwrap();
    assert_eq!(parsed.evidence.surface, "web");
    assert_eq!(parsed.evidence.mode, "browser");
    assert_eq!(parsed.command, ["cargo", "test"]);
    assert_eq!(parsed.timeout_secs, 2);
    assert_eq!(
        command_fingerprint(&parsed.command),
        command_fingerprint(&parsed.command)
    );
}

#[test]
fn receipt_args_report_each_refusal() {
    let base = |extra: &[&str]| -> Vec<String> {
        let mut v: Vec<String> = vec![
            "--evidence-id", "a", "--evidence-ref", "b", "--surface", "web", "--mode", "m", "--target-os", "web",
            "--output", "/tmp/x/b",
        ]
        .into_iter()
        .map(String::from)
        .collect();
        v.extend(extra.iter().map(|s| s.to_string()));
        v
    };
    assert_eq!(
        ReceiptArgs::parse(&base(&["cargo"])).unwrap_err(),
        "acceptance-receipt: expected `--` before the command"
    );
    assert_eq!(
        ReceiptArgs::parse(&base(&["--"])).unwrap_err(),
        "acceptance-receipt: command is required after `--`"
    );
    assert_eq!(
        ReceiptArgs::parse(&base(&["--surface", "x", "--", "cargo"])).unwrap_err(),
        "acceptance-receipt: duplicate option --surface"
    );
    assert_eq!(
        ReceiptArgs::parse(&base(&["--timeout-secs", "0", "--", "cargo"])).unwrap_err(),
        "acceptance-receipt: --timeout-secs must be positive"
    );
    assert_eq!(
        ReceiptArgs::parse(&base(&["--timeout-secs", "-1", "--", "cargo"])).unwrap_err(),
        "acceptance-receipt: --timeout-secs must be an integer"
    );
    assert_eq!(
        ReceiptArgs::parse(&base(&["--bogus", "1", "--", "cargo"])).unwrap_err(),
        "acceptance-receipt: unknown option --bogus"
    );
    let missing: Vec<String> = vec!["--evidence-id", "a", "--", "cargo"].into_iter().map(String::from).collect();
    assert_eq!(
        ReceiptArgs::parse(&missing).unwrap_err(),
        "acceptance-receipt: --evidence-ref is required"
    );
    let parsed = ReceiptArgs::parse(&base(&["--claims", "/tmp/c.json", "--", "cargo", "--", "x"])).unwrap();
    assert_eq!(parsed.timeout_secs, 3600);
    assert_eq!(parsed.evidence.claims.as_deref(), Some("/tmp/c.json"));
    assert_eq!(parsed.command, ["cargo", "--", "x"]);
}

#[test]
fn command_fingerprint_is_length_prefixed_fnv1a() {
    assert_eq!(
        command_fingerprint(&vec!["cargo".to_string(), "test".to_string()]),
        "fnv1a64:8ab1da5427b4446c"
    );
    assert_eq!(command_fingerprint(&Vec::new()), "fnv1a64:cbf29ce484222325");
    assert_eq!(command_fingerprint(&vec!["é".to_string()]), "fnv1a64:9da030d329b9ed5f");
}

#[test]
fn publication_rejects_an_oversized_serialized_receipt() {
    let files = vec![(
        String::from("receipt.json"),
        vec![0u8; MAX_RECEIPT_BYTES as usize + 1],
    )];

    assert!(validate_batch(&files).is_err());
}

#[test]
fn publication_rejects_a_group_over_the_aggregate_limit() {
    let files = (0..17)
        .map(|index| {
            (
                format!("receipt-{index}.json"),
                vec![0u8; MAX_RECEIPT_BYTES as usize],
            )
        })
        .collect::<Vec<_>>();

    assert!(validate_batch(&files).is_err());
}

#[test]
fn publication_accepts_a_group_at_the_aggregate_limit() {
    let files = (0..16)
        .map(|index| (format!("receipt-{index}.json"), vec![0u8; MAX_RECEIPT_BYTES as usize]))
        .collect::<Vec<_>>();
    assert!(validate_batch(&files).is_ok());
}

#[test]
fn nonzero_taskkill_is_fail_closed_after_direct_fallback() {
    let error = validate_windows_tree_termination(42, &Ok(false), &Ok(())).unwrap_err();

    assert!(
        error
            .to_string()
            .contains("descendant cleanup is unverified")
    );
}

#[test]
fn missing_taskkill_is_fail_closed_after_direct_fallback() {
    let error = validate_windows_tree_termination(42, &Err("missing".to_string()), &Ok(())).unwrap_err();

    assert!(error.to_string().contains("failed to start taskkill /T"));
}

#[test]
fn taskkill_success_is_the_only_trusted_termination() {
    assert!(validate_windows_tree_termination(7, &Ok(true), &Err("gone".to_string())).is_ok());
    assert_eq!(
        validate_windows_tree_termination(7, &Ok(false), &Err("denied".to_string())).unwrap_err(),
        "taskkill /T for child 7 returned non-zero; direct-child fallback also failed: denied"
    );
}

#[test]
fn repository_errors_are_recorded_in_order() {
    let mut errors = vec!["first".to_string()];
    collect_repository_errors(
        "abc",
        &Some("def".to_string()),
        true,
        true,
        &None,
        &Some("git failed".to_string()),
        &mut errors,
    );
    assert_eq!(
        errors,
        [
            "first",
            "worktree was dirty before command execution",
            "worktree was dirty after command execution",
            "failed to read worktree state after command: git failed",
            "HEAD changed during command execution",
        ]
    );
}

#[test]
fn failed_errors_append_to_existing_text() {
    assert_eq!(failed_error(&Some("a".to_string()), "b"), "a; b");
    assert_eq!(failed_error(&Some(String::new()), "b"), "b");
    assert_eq!(failed_error(&None, "b"), "b");
}

#[test]
fn target_os_follows_the_surface() {
    assert_eq!(expected_target_os("docker"), "linux");
    assert_eq!(expected_target_os("desktop"), "windows");
    assert_eq!(expected_target_os("other"), "other");
}
