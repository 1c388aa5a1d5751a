use deve_baseline::acceptance_matrix::producer::model::{Producer, ProducerRegistry};
use deve_baseline::acceptance_matrix::producer::receipt_artifacts::{expected_table, validate};
use deve_baseline::acceptance_matrix::producer::release_command::parse_candidate_command;
use deve_baseline::acceptance_matrix::producer::release_workflow::{collect_workflow, tally, validate_counts};

fn producer(id: &str, candidate_required: bool) -> Producer {
    Producer {
        producer_id: id.into(),
        candidate_required,
        evidence_ids: vec![format!("evidence.{id}")],
        dependencies: Vec::new(),
        tiers: vec!["tag-ready".into()],
        host_os: vec!["linux".into()],
        timeout_seconds: 1,
        required_tools: Vec::new(),
        required_env: Vec::new(),
        bound_env: Vec::new(),
        environment: Vec::new(),
        claims_env: Vec::new(),
        artifacts: Vec::new(),
        steps: Vec::new(),
        finally_steps: Vec::new(),
        note: "fixture".into(),
    }
}

#[test]
fn candidate_command_parser_rejects_inert_or_duplicate_producers() {
    assert!(parse_candidate_command("echo acceptance-run", None, "fixture").is_err());
    assert!(
        parse_candidate_command(
            "cargo run --locked -p deve_baseline -- acceptance-run --tier tag-ready --producer one --producer one --receipt-dir /tmp/receipts",
            None,
            "fixture"
        )
        .is_err()
    );
    assert!(
        parse_candidate_command(
            "exit 0\ncargo run --locked -p deve_baseline -- acceptance-run --tier tag-ready --producer one --receipt-dir /tmp/receipts",
            None,
            "fixture"
        )
        .is_err()
    );
    assert!(
        parse_candidate_command(
            "cargo run --locked -p deve_baseline -- acceptance-run --tier tag-ready --plan --producer one --receipt-dir /tmp/receipts",
            None,
            "fixture"
        )
        .is_err()
    );
    assert!(
        parse_candidate_command(
            "if enabled; then\n  cargo run --locked -p deve_baseline -- acceptance-run --tier tag-ready --producer one --receipt-dir /tmp/receipts\nfi",
            None,
            "fixture"
        )
        .is_err()
    );
    assert!(
        parse_candidate_command(
            "cargo run --locked -p deve_baseline -- acceptance-run --tier tag-ready --producer one --receipt-dir /tmp/receipts || true",
            None,
            "fixture"
        )
        .is_err()
    );
    for suffix in ["||true", "&true", ";true", ">out", "$(true)", "`true`"] {
        let command = format!(
            "cargo run --locked -p deve_baseline -- acceptance-run --tier tag-ready --producer one --receipt-dir /tmp/receipts{suffix}"
        );
        assert!(parse_candidate_command(&command, None, "fixture").is_err());
    }
    assert!(
        parse_candidate_command(
            "cargo run --locked -p deve_baseline -- acceptance-run --tier tag-ready --producer one --receipt-dir /tmp/receipts",
            Some("echo {0}"),
            "fixture"
        )
        .is_err()
    );
    assert!(
        parse_candidate_command(
            "cat <<EOF\ncargo run --locked -p deve_baseline -- acceptance-run --tier tag-ready --producer one --receipt-dir /tmp/receipts\nEOF",
            None,
            "fixture"
        )
        .is_err()
    );
    assert!(
        parse_candidate_command(
            "cargo run --locked -p deve_baseline -- acceptance-run --tier tag-ready --producer one --receipt-dir /tmp/receipts\nexit 0",
            None,
            "fixture"
        )
        .is_err()
    );
    assert!(
        parse_candidate_command(
            "cargo run --locked -p deve_baseline -- acceptance-run --tier tag-ready --producer one --receipt-dir \"${{ runner.temp }}/receipts\"",
            Some("pwsh"),
            "fixture"
        )
        .is_ok()
    );
    assert!(
        parse_candidate_command(
            "true ||\ncargo run --locked -p deve_baseline -- acceptance-run --tier tag-ready --producer one --receipt-dir /tmp/receipts",
            None,
            "fixture"
        )
        .is_err()
    );
    assert!(
        parse_candidate_command(
            "\"$GITHUB_WORKSPACE/target/android-candidate-harness/debug/deve_baseline\" acceptance-run --tier target-host --producer android.local-backend --receipt-dir \"$RUNNER_TEMP/deve-acceptance-android-local\"",
            None,
            "fixture"
        )
        .is_ok()
    );
    assert!(
        parse_candidate_command(
            "/tmp/deve_baseline acceptance-run --tier target-host --producer android.local-backend --receipt-dir /tmp/receipts",
            None,
            "fixture"
        )
        .is_err()
    );
}

#[test]
fn workflow_parser_counts_only_unconditional_execution_steps() {
    let workflow = r#"
jobs:
  receipt:
    runs-on: ubuntu-latest
    timeout-minutes: 16
    steps:
      - run: cargo run --locked -p deve_baseline -- acceptance-run --tier tag-ready --producer test.one --receipt-dir /tmp/receipt
"#;
    let timeouts = vec![("test.one".to_string(), 1u64)];
    let invoked = collect_workflow("fixture.yml", workflow, &timeouts).unwrap();
    assert_eq!(tally(&invoked), vec![("test.one".to_string(), 1usize)]);

    let conditional = workflow.replace("      - run:", "      - if: success()\n        run:");
    assert!(collect_workflow("fixture.yml", &conditional, &timeouts).is_err());

    let matrix = workflow.replace(
        "    runs-on: ubuntu-latest",
        "    strategy:\n      matrix:\n        lane: [one, two]\n    runs-on: ubuntu-latest",
    );
    assert!(collect_workflow("fixture.yml", &matrix, &timeouts).is_err());

    let short_budget = workflow.replace("timeout-minutes: 16", "timeout-minutes: 15");
    assert!(collect_workflow("fixture.yml", &short_budget, &timeouts).is_err());

    let workflow_defaults = format!("defaults:\n  run:\n    shell: echo {{0}}\n{workflow}");
    assert!(collect_workflow("fixture.yml", &workflow_defaults, &timeouts).is_err());
}

#[test]
fn candidate_projection_rejects_missing_extra_and_duplicate_producers() {
    let registry = ProducerRegistry {
        schema: 3,
        producers: vec![
            producer("candidate.one", true),
            producer("diagnostic.one", false),
        ],
    };
    assert!(validate_counts(&registry, &Vec::new()).is_err());
    assert!(
        validate_counts(
            &registry,
            &vec![("candidate.one".into(), 1), ("diagnostic.one".into(), 1)]
        )
        .is_err()
    );
    assert!(validate_counts(&registry, &vec![("candidate.one".into(), 2)]).is_err());
    validate_counts(&registry, &vec![("candidate.one".into(), 1)]).unwrap();
}

#[test]
fn candidate_projection_reports_the_mismatch() {
    let registry = ProducerRegistry {
        schema: 3,
        producers: vec![producer("candidate.one", true), producer("diagnostic.one", false)],
    };
    assert_eq!(
        validate_counts(&registry, &vec![("diagnostic.one".into(), 1)]).unwrap_err(),
        "acceptance producers: candidate workflow projection mismatch; missing=[candidate.one] extra=[diagnostic.one]"
    );
    assert_eq!(
        validate_counts(&registry, &vec![("ghost.one".into(), 1)]).unwrap_err(),
        "acceptance producers: candidate workflows invoke unknown producer ghost.one"
    );
}

#[test]
fn tally_counts_each_invoked_producer() {
    let invoked: Vec<String> = vec!["b".into(), "a".into(), "b".into()];
    assert_eq!(tally(&invoked), vec![("a".to_string(), 1usize), ("b".to_string(), 2usize)]);
}

fn workflow(names: &[&str]) -> String {
    let steps = names
        .iter()
        .map(|name| {
            let path = expected_table()
                .into_iter()
                .find(|(expected, _)| expected == name)
                .unwrap()
                .1;
            format!(
                "      - if: ${{{{ always() }}}}\n        uses: actions/upload-artifact@043fb46d1a93c77aae656e7c1c64a875d1fc6a0a\n        with:\n          name: {name}\n          path: {path}\n          if-no-files-found: error\n"
            )
        })
        .collect::<String>();
    format!("jobs:\n  receipts:\n    steps:\n{steps}")
}

#[test]
fn receipt_upload_set_is_exact_and_non_tolerated() {
    let candidate = workflow(&[
        "deve-acceptance-receipts-docker-${{ github.sha }}",
        "deve-acceptance-receipts-contracts-${{ github.sha }}",
        "deve-acceptance-receipts-release-${{ github.sha }}",
        "deve-acceptance-receipts-repo-linux-${{ github.sha }}",
        "deve-acceptance-receipts-security-${{ github.sha }}",
        "deve-acceptance-receipts-github-${{ github.sha }}",
    ]);
    let native = workflow(&[
        "deve-acceptance-receipts-desktop-local-${{ inputs.candidate_head }}",
        "deve-acceptance-receipts-desktop-remote-${{ inputs.candidate_head }}",
        "deve-acceptance-receipts-desktop-macos-${{ inputs.candidate_head }}",
        "deve-acceptance-receipts-android-local-${{ inputs.candidate_head }}",
        "deve-acceptance-receipts-android-remote-${{ inputs.candidate_head }}",
    ]);
    validate(&candidate, &native).unwrap();
    assert!(
        validate(
            &candidate.replace("receipts-docker", "receipts-docker-renamed"),
            &native
        )
        .is_err()
    );
    assert!(
        validate(
            &candidate.replace(
                "${{ runner.temp }}/deve-acceptance-contracts",
                "${{ runner.temp }}/wrong"
            ),
            &native
        )
        .is_err()
    );
    assert!(
        validate(
            &candidate.replace("if-no-files-found: error", "if-no-files-found: warn"),
            &native
        )
        .is_err()
    );
    assert!(
        validate(
            &candidate,
            &native.replace(
                "      - if: ${{ always() }}",
                "      - if: ${{ always() }}\n        continue-on-error: true"
            )
        )
        .is_err()
    );
}
