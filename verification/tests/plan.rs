use deve_baseline::acceptance_matrix::model::MatrixRow;
use deve_baseline::acceptance_matrix::producer::model::{Producer, ProducerRegistry};
use deve_baseline::acceptance_matrix::producer::plan::{
    build_plan, plan_report, plan_status, preflight_execution, run_mode, tag_ready_host_supports, RunMode,
};
use deve_baseline::acceptance_matrix::producer::run_args::RunArgs;

const HOST: &str = "linux";

fn producer(producer_id: &str, evidence_ids: &[&str], dependencies: Vec<String>, tier: &str) -> Producer {
    Producer {
        producer_id: producer_id.into(),
        evidence_ids: evidence_ids.iter().map(|id| id.to_string()).collect(),
        dependencies,
        tiers: vec![tier.into()],
        host_os: vec![HOST.into()],
        timeout_seconds: 1,
        candidate_required: false,
        required_tools: Vec::new(),
        required_env: Vec::new(),
        bound_env: Vec::new(),
        environment: Vec::new(),
        claims_env: Vec::new(),
        artifacts: Vec::new(),
        steps: Vec::new(),
        finally_steps: Vec::new(),
        note: "fixture".into(),
    }
}

fn row(evidence_id: &str, surface: &str, gate: &str, kind: &str) -> MatrixRow {
    MatrixRow {
        requirement_id: format!("requirement.{evidence_id}"),
        journey_id: "fixture".into(),
        flow_id: "none".into(),
        case_id: "none".into(),
        surface: surface.into(),
        mode: "browser".into(),
        gate: gate.into(),
        requirement: "required".into(),
        evidence_kind: kind.into(),
        evidence_id: evidence_id.into(),
        evidence_ref: format!("receipts/{evidence_id}.json"),
        freshness: "current-head".into(),
        note: String::new(),
    }
}

fn args(list: &[&str]) -> RunArgs {
    RunArgs::parse(&list.iter().map(|a| a.to_string()).collect::<Vec<_>>()).unwrap()
}

#[test]
fn evidence_filter_selects_the_complete_atomic_producer_group() {
    let args = args(&["--tier", "full", "--plan", "--evidence-id", "smoke.one"]);
    let registry = ProducerRegistry {
        schema: 2,
        producers: vec![producer("smoke.group", &["smoke.one", "smoke.two"], Vec::new(), "full")],
    };
    let rows = vec![
        row("smoke.one", "web", "tag-ready", "receipt"),
        row("smoke.two", "web", "tag-ready", "receipt"),
    ];

    let plans = build_plan(&args, &registry, &rows, HOST, &Vec::new()).unwrap();

    assert!(plans[0].selected);
    assert_eq!(
        plans[0].evidence.iter().map(|row| row.evidence_id.as_str()).collect::<Vec<_>>(),
        vec!["smoke.one", "smoke.two"]
    );
}

#[test]
fn producer_filter_may_not_cut_a_declared_dependency() {
    let args = args(&["--tier", "ci", "--plan", "--producer", "ci.child"]);
    let registry = ProducerRegistry {
        schema: 2,
        producers: vec![
            producer("ci.parent", &["test.parent"], Vec::new(), "ci"),
            producer("ci.child", &["test.child"], vec!["ci.parent".into()], "ci"),
        ],
    };
    let rows = vec![row("test.parent", "core", "ci", "test"), row("test.child", "core", "ci", "test")];

    let error = build_plan(&args, &registry, &rows, HOST, &Vec::new()).unwrap_err();

    assert!(error.contains("requires dependency ci.parent"));
}

#[test]
fn plan_orders_by_dependency_depth_then_id() {
    let args = args(&["--tier", "ci", "--plan"]);
    let registry = ProducerRegistry {
        schema: 2,
        producers: vec![
            producer("ci.z-child", &["test.c"], vec!["ci.m-parent".into()], "ci"),
            producer("ci.m-parent", &["test.b"], Vec::new(), "ci"),
            producer("ci.a-root", &["test.a"], Vec::new(), "ci"),
            producer("full.other", &["test.d"], Vec::new(), "full"),
        ],
    };
    let rows = vec![
        row("test.a", "core", "ci", "test"),
        row("test.b", "core", "ci", "test"),
        row("test.c", "core", "ci", "test"),
        row("test.d", "core", "ci", "test"),
    ];
    let plans = build_plan(&args, &registry, &rows, HOST, &Vec::new()).unwrap();
    let order: Vec<&str> = plans.iter().map(|plan| plan.producer.producer_id.as_str()).collect();
    assert_eq!(order, vec!["ci.a-root", "ci.m-parent", "ci.z-child"]);
    assert!(plans.iter().all(|plan| plan.selected));
}

#[test]
fn plan_rejects_unknown_filters_and_empty_tiers() {
    let registry = ProducerRegistry {
        schema: 2,
        producers: vec![producer("ci.one", &["test.one"], Vec::new(), "ci")],
    };
    let rows = vec![row("test.one", "core", "ci", "test"), row("doc.one", "core", "ci", "doc")];
    let unknown = build_plan(&args(&["--tier", "ci", "--producer", "ci.two"]), &registry, &rows, HOST, &Vec::new());
    assert_eq!(unknown.unwrap_err(), "acceptance-run: unknown producer ci.two");
    let manual = build_plan(&args(&["--tier", "ci", "--evidence-id", "doc.one"]), &registry, &rows, HOST, &Vec::new());
    assert_eq!(manual.unwrap_err(), "acceptance-run: unknown executable evidence doc.one");
    let empty = build_plan(&args(&["--tier", "full"]), &registry, &rows, HOST, &Vec::new());
    assert_eq!(empty.unwrap_err(), "acceptance-run: tier full has no registered producers");
}

#[test]
fn plan_reports_host_and_environment_gaps() {
    let mut docker = producer("docker.smoke", &["smoke.docker"], Vec::new(), "tag-ready");
    docker.required_env = vec!["IMAGE".into(), "TOKEN".into()];
    let mut desktop = producer("desktop.smoke", &["smoke.desktop"], Vec::new(), "tag-ready");
    desktop.host_os = vec!["linux".into(), "windows".into()];
    let registry = ProducerRegistry { schema: 2, producers: vec![docker, desktop] };
    let rows = vec![
        row("smoke.docker", "docker", "tag-ready", "receipt"),
        row("smoke.desktop", "desktop", "tag-ready", "receipt"),
    ];
    let parsed = args(&["--tier", "tag-ready", "--plan"]);
    let plans = build_plan(&parsed, &registry, &rows, HOST, &vec!["IMAGE".to_string()]).unwrap();
    assert_eq!(plans[0].producer.producer_id, "desktop.smoke");
    assert_eq!(plan_status(&plans[0]), "tag-ready-host-mismatch");
    assert_eq!(plan_status(&plans[1]), "missing-env");
    assert_eq!(plans[1].missing_env, vec!["TOKEN".to_string()]);
    let report = plan_report(&parsed, HOST, &plans);
    assert_eq!(
        report,
        vec![
            "acceptance-run plan: tier=tag-ready host=linux mode=plan".to_string(),
            "- desktop.smoke status=tag-ready-host-mismatch evidence=smoke.desktop".to_string(),
            "- docker.smoke status=missing-env evidence=smoke.docker missing_env=TOKEN".to_string(),
            "acceptance-run plan summary: selected=2 ready=0 unavailable=2".to_string(),
        ]
    );
    assert!(preflight_execution("", &parsed, &plans, HOST)
        .unwrap_err()
        .contains("cannot satisfy tag-ready platform constraints"));
    assert!(tag_ready_host_supports(&rows[1], "windows"));
    assert!(!tag_ready_host_supports(&rows[0], "windows"));
}

#[test]
fn preflight_requires_a_clean_worktree_and_ready_selection() {
    let registry = ProducerRegistry {
        schema: 2,
        producers: vec![producer("ci.one", &["test.one"], Vec::new(), "ci")],
    };
    let rows = vec![row("test.one", "core", "ci", "test")];
    let parsed = args(&["--tier", "ci"]);
    let plans = build_plan(&parsed, &registry, &rows, HOST, &Vec::new()).unwrap();
    assert_eq!(
        preflight_execution(" M src/lib.rs", &parsed, &plans, HOST).unwrap_err(),
        "acceptance-run: worktree must be clean before execution"
    );
    assert!(preflight_execution("", &parsed, &plans, HOST).is_ok());
    assert!(matches!(run_mode(&parsed, &plans), Ok(RunMode::Static)));
    let with_dir = args(&["--tier", "ci", "--receipt-dir", "out"]);
    assert!(run_mode(&with_dir, &plans).is_err());
}

#[test]
fn receipt_runs_need_a_receipt_directory_and_may_not_mix() {
    let registry = ProducerRegistry {
        schema: 2,
        producers: vec![
            producer("full.receipt", &["smoke.one"], Vec::new(), "full"),
            producer("full.test", &["test.one"], Vec::new(), "full"),
        ],
    };
    let rows = vec![row("smoke.one", "web", "full", "receipt"), row("test.one", "core", "full", "test")];
    let only_receipt = args(&["--tier", "full", "--producer", "full.receipt", "--receipt-dir", "out"]);
    let plans = build_plan(&only_receipt, &registry, &rows, HOST, &Vec::new()).unwrap();
    assert!(plans.iter().any(|plan| plan.emits_receipts()));
    match run_mode(&only_receipt, &plans) {
        Ok(RunMode::Receipts(dir)) => assert_eq!(dir, "out"),
        other => panic!("unexpected {other:?}"),
    }
    let both = args(&["--tier", "full", "--receipt-dir", "out"]);
    let plans = build_plan(&both, &registry, &rows, HOST, &Vec::new()).unwrap();
    assert_eq!(
        run_mode(&both, &plans).unwrap_err(),
        "acceptance-run: one tier may not mix receipt and test/script producers"
    );
    let no_dir = args(&["--tier", "full", "--producer", "full.receipt"]);
    let plans = build_plan(&no_dir, &registry, &rows, HOST, &Vec::new()).unwrap();
    assert!(run_mode(&no_dir, &plans).is_err());
}
