use chrono::{DateTime, Duration, Utc};
use deve_baseline::acceptance_matrix::execution_group::validate_execution_groups;
use deve_baseline::acceptance_matrix::json::JsonValue;
use deve_baseline::acceptance_matrix::model::MatrixRow;
use deve_baseline::acceptance_matrix::producer::receipt_binding::ReceiptProducerBinding;
use deve_baseline::acceptance_matrix::receipt_model::Receipt;
use deve_baseline::acceptance_matrix::tag_ready::{
    tag_ready_blockers, valid_sha256_image_id, validate, validate_docker_candidate_identity, validate_receipt,
    ReceiptRecord,
};

fn s(value: &str) -> JsonValue {
    JsonValue::Str(value.into())
}

fn n(value: u64) -> JsonValue {
    JsonValue::Number(Some(value))
}

fn b(value: bool) -> JsonValue {
    JsonValue::Bool(value)
}

fn obj(members: Vec<(&str, JsonValue)>) -> JsonValue {
    JsonValue::Object(members.into_iter().map(|(k, v)| (k.to_string(), v)).collect())
}

fn member<'a>(value: &'a mut JsonValue, key: &str) -> &'a mut JsonValue {
    match value {
        JsonValue::Object(members) => &mut members.iter_mut().find(|(k, _)| k == key).expect("member").1,
        _ => panic!("not an object"),
    }
}

fn at<'a>(value: &'a mut JsonValue, path: &[&str]) -> &'a mut JsonValue {
    path.iter().fold(value, |v, key| member(v, key))
}

/// Sets `key` under `path`, adding it where it is missing.
fn set(value: &mut JsonValue, path: &[&str], key: &str, new: JsonValue) {
    match at(value, path) {
        JsonValue::Object(members) => match members.iter_mut().find(|(k, _)| k == key) {
            Some(entry) => entry.1 = new,
            None => members.push((key.to_string(), new)),
        },
        _ => panic!("not an object"),
    }
}

fn remove(value: &mut JsonValue, path: &[&str], key: &str) {
    match at(value, path) {
        JsonValue::Object(members) => members.retain(|(k, _)| k != key),
        _ => panic!("not an object"),
    }
}

fn claims(record: &mut ReceiptRecord) -> &mut JsonValue {
    record.receipt.claims.as_mut().expect("claims")
}

fn instant(t: DateTime<Utc>) -> (i64, u32) {
    (t.timestamp(), t.timestamp_subsec_nanos())
}

fn row() -> MatrixRow {
    MatrixRow {
        requirement_id: "journey.android".into(),
        journey_id: "android-local-backend".into(),
        flow_id: "none".into(),
        case_id: "none".into(),
        surface: "android".into(),
        mode: "local-backend".into(),
        gate: "tag-ready".into(),
        requirement: "required".into(),
        evidence_kind: "receipt".into(),
        evidence_id: "smoke.android".into(),
        evidence_ref: "receipts/smoke.android.json".into(),
        freshness: "target-host-30d".into(),
        note: String::new(),
    }
}

fn binding() -> ReceiptProducerBinding {
    ReceiptProducerBinding {
        producer_id: "android.local-backend".into(),
        contract_fingerprint: "fnv1a64:1111111111111111".into(),
        evidence_ids: vec!["smoke.android".into()],
        artifacts: vec!["scripts/smoke-mobile-android-lifecycle.sh".into()],
        bound_env: Vec::new(),
    }
}

fn record(now: DateTime<Utc>) -> ReceiptRecord {
    ReceiptRecord {
        relative_path: "receipts/smoke.android.json".into(),
        receipt: Receipt {
            schema: 3,
            producer_id: "android.local-backend".into(),
            producer_contract: "fnv1a64:1111111111111111".into(),
            execution_id: "exec-fnv1a64-2222222222222222".into(),
            execution_evidence_ids: vec!["smoke.android".into()],
            evidence_id: "smoke.android".into(),
            evidence_ref: "receipts/smoke.android.json".into(),
            head: "abc".into(),
            head_after: Some("abc".into()),
            dirty_before: false,
            dirty_after: false,
            os: "linux".into(),
            arch: "x86_64".into(),
            target_os: "android".into(),
            surface: "android".into(),
            mode: "local-backend".into(),
            started_at: (now - Duration::minutes(1)).to_rfc3339(),
            finished_at: now.to_rfc3339(),
            status: "passed".into(),
            exit_code: Some(0),
            error: None,
            command_program: "bash".into(),
            command_arg_count: 1,
            command_fingerprint: "fnv1a64:0123456789abcdef".into(),
            command_artifacts: vec!["scripts/smoke-mobile-android-lifecycle.sh".into()],
            producer_inputs: Vec::new(),
            claims: Some(obj(vec![
                ("schema", n(1)),
                ("producer", s("smoke-mobile-android-lifecycle")),
                ("mode", s("local-backend")),
                (
                    "target",
                    obj(vec![
                        ("sdkLevel", n(29)),
                        ("webViewProviderPackage", s("com.google.android.webview")),
                        ("webViewProviderVersion", s("137.0.7151.115")),
                        ("webViewProviderMajor", n(137)),
                        ("avdName", s("deve-api37")),
                        ("buildFingerprint", s("google/sdk_gphone64_x86_64/test")),
                        ("model", s("sdk_gphone64_x86_64")),
                        ("supportBaseline", b(true)),
                    ]),
                ),
                ("webcrypto", obj(vec![("writable", b(true)), ("blocker", JsonValue::Null)])),
                (
                    "repoLifecycle",
                    obj(vec![
                        ("removedRepoId", s("repo-android")),
                        ("scopeNonceBeforeRemoval", n(7)),
                        ("scopeNonceAfterRemoval", n(8)),
                        ("noScope", b(true)),
                    ]),
                ),
                (
                    "journey",
                    obj(vec![
                        ("loginOrNativeSession", b(true)),
                        ("edit", b(true)),
                        ("commitHistory", b(true)),
                        ("backgroundResume", b(true)),
                        ("staleScopeRejected", b(true)),
                        ("pendingPreserved", b(true)),
                        ("repoRemovalNoScope", b(true)),
                        ("rootBackBackgroundsTaskWithStablePid", b(true)),
                        ("writableLifecycleComplete", b(true)),
                    ]),
                ),
            ])),
        },
    }
}

fn desktop_fixture(now: DateTime<Utc>, mode: &str) -> (MatrixRow, ReceiptProducerBinding, ReceiptRecord) {
    let mut row = row();
    row.requirement_id = format!("journey.desktop.{mode}");
    row.journey_id = format!("desktop-{mode}");
    row.surface = "desktop".into();
    row.mode = mode.into();
    row.evidence_id = format!("smoke.desktop.{mode}");
    row.evidence_ref = format!("receipts/smoke.desktop.{mode}.json");

    let producer_id = format!("desktop.{mode}");
    let mut binding = binding();
    binding.producer_id = producer_id.clone();
    binding.evidence_ids = vec![row.evidence_id.clone()];
    binding.artifacts = vec![format!("scripts/check-desktop-{mode}-smoke.ps1")];

    let claims_producer = match mode {
        "local-backend" => "smoke-desktop-packaged-ui",
        "remote-browser" => "smoke-desktop-remote-browser",
        _ => panic!("unsupported test mode"),
    };
    let mut record = record(now);
    record.relative_path = row.evidence_ref.clone();
    record.receipt.producer_id = producer_id;
    record.receipt.execution_evidence_ids = vec![row.evidence_id.clone()];
    record.receipt.evidence_id = row.evidence_id.clone();
    record.receipt.evidence_ref = row.evidence_ref.clone();
    record.receipt.os = "windows".into();
    record.receipt.target_os = "windows".into();
    record.receipt.surface = "desktop".into();
    record.receipt.mode = mode.into();
    record.receipt.command_program = "pwsh".into();
    record.receipt.command_artifacts = binding.artifacts.clone();
    record.receipt.claims = Some(obj(vec![
        ("schema", n(1)),
        ("producer", s(claims_producer)),
        ("mode", s(mode)),
        (
            "origin",
            s(if mode == "remote-browser" { "https://desktop.example.test" } else { "tauri://localhost" }),
        ),
        ("httpBase", s("http://127.0.0.1:39123")),
        ("sessionBound", b(true)),
        ("scope", obj(vec![("repoId", s("repo-desktop")), ("scopeNonce", n(11))])),
        (
            "repoLifecycle",
            obj(vec![
                ("removedRepoId", s("repo-desktop")),
                ("scopeNonceBeforeRemoval", n(11)),
                ("scopeNonceAfterRemoval", n(12)),
                ("noScope", b(true)),
            ]),
        ),
        (
            "journey",
            obj(vec![
                ("loginOrNativeSession", b(true)),
                ("edit", b(true)),
                ("commitHistory", b(true)),
                ("zeroNativeIpc", b(true)),
                ("repoRemovalNoScope", b(true)),
            ]),
        ),
    ]));
    (row, binding, record)
}

fn android_remote_fixture(now: DateTime<Utc>) -> (MatrixRow, ReceiptProducerBinding, ReceiptRecord) {
    let mut row = row();
    row.requirement_id = "journey.android.remote-browser".into();
    row.journey_id = "android-remote-browser".into();
    row.mode = "remote-browser".into();

    let mut binding = binding();
    binding.producer_id = "android.remote-browser".into();
    binding.artifacts = vec!["scripts/smoke-mobile-android-remote-browser.sh".into()];

    let mut record = record(now);
    record.receipt.producer_id = binding.producer_id.clone();
    record.receipt.mode = row.mode.clone();
    record.receipt.command_artifacts = binding.artifacts.clone();
    let claims = claims(&mut record);
    set(claims, &[], "producer", s("smoke-mobile-android-remote-browser"));
    set(claims, &[], "mode", s("remote-browser"));
    set(
        claims,
        &[],
        "journey",
        obj(vec![
            ("loginOrNativeSession", b(true)),
            ("edit", b(true)),
            ("commitHistory", b(true)),
            ("backgroundResume", b(true)),
            ("repoRemovalNoScope", b(true)),
            ("zeroNativeIpc", b(true)),
            ("nativeLocalRecovery", b(true)),
            ("remoteSurfaceDestroyedBeforeLocalIpc", b(true)),
            ("freshLocalBootstrapUnboundBeforeFirstCreate", b(true)),
            ("freshLocalEndpointSessionScope", b(true)),
            ("remoteAuthorityNotReused", b(true)),
            ("noOrphanEmbeddedRuntime", b(true)),
            ("writableLifecycleComplete", b(true)),
        ]),
    );
    set(
        claims,
        &[],
        "recovery",
        obj(vec![
            (
                "transition",
                obj(vec![
                    ("recoveryId", n(1)),
                    ("phase", s("local_window_created")),
                    ("remoteSurfaceRetired", b(true)),
                    ("preferenceCommittedAfterRemoteRetirement", b(true)),
                    ("localPluginsRegisteredAfterRemoteRetirement", b(true)),
                    ("supervisorManaged", b(true)),
                    ("localWindowCreated", b(true)),
                    ("activeRuntimeOwners", n(1)),
                    ("lastError", JsonValue::Null),
                ]),
            ),
            ("authorityTupleChanged", b(true)),
            ("appPidStable", b(true)),
            ("processExitedAfterGracefulShutdown", b(true)),
            (
                "remote",
                obj(vec![
                    ("origin", s("https://android.example.test")),
                    ("repoId", s("repo-android")),
                    ("scopeNonce", n(7)),
                ]),
            ),
            (
                "local",
                obj(vec![
                    ("origin", s("http://tauri.localhost")),
                    ("endpoint", s("http://127.0.0.1:39123")),
                    (
                        "bootstrapUnbound",
                        obj(vec![
                            ("status", s("handshaking-repo")),
                            ("repoIdEmpty", b(true)),
                            ("scopeNonce", n(0)),
                            ("defaultRepoAbsent", b(true)),
                        ]),
                    ),
                    ("status", s("ready")),
                    ("repoId", s("repo-local")),
                    ("scopeNonce", n(9)),
                    ("sessionGeneration", n(1)),
                ]),
            ),
        ]),
    );
    (row, binding, record)
}

fn validate_fixture(record: &ReceiptRecord, row: &MatrixRow, binding: &ReceiptProducerBinding) -> Result<(), String> {
    validate_execution_groups(&vec![&record.receipt], "acceptance-matrix tag-ready fixture")?;
    validate_receipt(record, row, binding, "abc", instant(Utc::now()))
}

#[test]
fn tests_target_host_receipt_requires_current_producer_contract() {
    let now = Utc::now();
    let row = row();
    let binding = binding();
    let mut record = record(now);
    assert!(validate_fixture(&record, &row, &binding).is_ok());
    record.receipt.producer_id = "manual.unbound".into();
    assert!(validate_fixture(&record, &row, &binding).is_err());
    record.receipt.producer_id = binding.producer_id.clone();
    record.receipt.producer_contract = "fnv1a64:9999999999999999".into();
    assert!(validate_fixture(&record, &row, &binding).is_err());
}

#[test]
fn tests_target_host_receipt_rejects_dirty_stale_and_future_ranges() {
    let now = Utc::now();
    let row = row();
    let binding = binding();
    let mut record = record(now);
    record.receipt.dirty_before = true;
    assert!(validate_fixture(&record, &row, &binding).is_err());
    record.receipt.dirty_before = false;
    record.receipt.started_at = (now - Duration::days(31)).to_rfc3339();
    record.receipt.finished_at = (now - Duration::days(31)).to_rfc3339();
    assert!(validate_fixture(&record, &row, &binding).is_err());
    record.receipt.started_at = (now + Duration::minutes(2)).to_rfc3339();
    record.receipt.finished_at = now.to_rfc3339();
    assert!(validate_fixture(&record, &row, &binding).is_err());
}

#[test]
fn android_receipt_requires_repo_removal_no_scope_claim() {
    let now = Utc::now();
    let row = row();
    let binding = binding();
    let mut record = record(now);
    remove(claims(&mut record), &["journey"], "repoRemovalNoScope");
    assert!(validate_fixture(&record, &row, &binding).is_err());
}

#[test]
fn android_receipt_requires_root_back_same_pid_claim() {
    let now = Utc::now();
    let row = row();
    let binding = binding();
    let mut record = record(now);
    assert!(validate_fixture(&record, &row, &binding).is_ok());
    remove(claims(&mut record), &["journey"], "rootBackBackgroundsTaskWithStablePid");
    assert!(validate_fixture(&record, &row, &binding).is_err());
    set(claims(&mut record), &["journey"], "rootBackBackgroundsTaskWithStablePid", b(true));
    assert!(validate_fixture(&record, &row, &binding).is_ok());
    set(claims(&mut record), &["journey"], "rootBackBackgroundsTaskWithStablePid", b(false));
    assert!(validate_fixture(&record, &row, &binding).is_err());
}

#[test]
fn android_receipt_requires_monotonic_repo_lifecycle_claims() {
    let now = Utc::now();
    let row = row();
    let binding = binding();
    let mut record = record(now);
    set(claims(&mut record), &["repoLifecycle"], "scopeNonceAfterRemoval", n(7));
    assert!(validate_fixture(&record, &row, &binding).is_err());
}

#[test]
fn android_remote_receipt_requires_repo_removal_no_scope_claim() {
    let now = Utc::now();
    let (row, binding, mut record) = android_remote_fixture(now);
    assert!(validate_fixture(&record, &row, &binding).is_ok());
    remove(claims(&mut record), &["journey"], "repoRemovalNoScope");
    assert!(validate_fixture(&record, &row, &binding).is_err());
}

#[test]
fn android_remote_receipt_requires_observed_retirement_and_bundled_local_target() {
    let now = Utc::now();
    let (row, binding, mut record) = android_remote_fixture(now);
    assert!(validate_fixture(&record, &row, &binding).is_ok());

    remove(claims(&mut record), &["recovery", "transition"], "recoveryId");
    assert!(validate_fixture(&record, &row, &binding).is_err());

    let (_, _, mut record) = android_remote_fixture(now);
    set(claims(&mut record), &["recovery", "transition"], "recoveryId", n(0));
    assert!(validate_fixture(&record, &row, &binding).is_err());

    let (_, _, mut record) = android_remote_fixture(now);
    set(claims(&mut record), &["recovery", "transition"], "remoteSurfaceRetired", b(false));
    set(claims(&mut record), &["recovery"], "remoteTargetRetired", b(true));
    assert!(validate_fixture(&record, &row, &binding).is_err());

    let (_, _, mut record) = android_remote_fixture(now);
    set(claims(&mut record), &["recovery", "local"], "origin", s("https://stale-remote.example.test"));
    assert!(validate_fixture(&record, &row, &binding).is_err());
}

#[test]
fn android_remote_receipt_requires_bootstrap_unbound_then_ready_first_create() {
    let now = Utc::now();
    let (row, binding, record) = android_remote_fixture(now);
    assert!(validate_fixture(&record, &row, &binding).is_ok());

    let (_, _, mut record) = android_remote_fixture(now);
    remove(claims(&mut record), &["journey"], "freshLocalBootstrapUnboundBeforeFirstCreate");
    assert!(validate_fixture(&record, &row, &binding).is_err());

    let (_, _, mut record) = android_remote_fixture(now);
    set(claims(&mut record), &["journey"], "freshLocalBootstrapUnboundBeforeFirstCreate", b(false));
    assert!(validate_fixture(&record, &row, &binding).is_err());

    let (_, _, mut record) = android_remote_fixture(now);
    remove(claims(&mut record), &["recovery", "local"], "bootstrapUnbound");
    assert!(validate_fixture(&record, &row, &binding).is_err());

    for (field, invalid) in [
        ("status", s("ready")),
        ("repoIdEmpty", b(false)),
        ("scopeNonce", n(1)),
        ("defaultRepoAbsent", b(false)),
    ] {
        let (_, _, mut record) = android_remote_fixture(now);
        set(claims(&mut record), &["recovery", "local", "bootstrapUnbound"], field, invalid);
        assert!(validate_fixture(&record, &row, &binding).is_err());
    }

    let (_, _, mut record) = android_remote_fixture(now);
    set(claims(&mut record), &["recovery", "local"], "status", s("handshaking-repo"));
    assert!(validate_fixture(&record, &row, &binding).is_err());
}

#[test]
fn desktop_repo_lifecycle_receipts_require_typed_claims() {
    let now = Utc::now();
    for mode in ["local-backend", "remote-browser"] {
        let (row, binding, record) = desktop_fixture(now, mode);
        assert!(validate_fixture(&record, &row, &binding).is_ok());
    }
}

#[test]
fn desktop_repo_lifecycle_receipt_rejects_false_or_inconsistent_claims() {
    let now = Utc::now();
    let (row, binding, mut record) = desktop_fixture(now, "remote-browser");
    set(claims(&mut record), &["journey"], "zeroNativeIpc", b(false));
    assert!(validate_fixture(&record, &row, &binding).is_err());

    let (_, _, mut record) = desktop_fixture(now, "remote-browser");
    set(claims(&mut record), &["repoLifecycle"], "scopeNonceAfterRemoval", n(11));
    assert!(validate_fixture(&record, &row, &binding).is_err());

    let (_, _, mut record) = desktop_fixture(now, "remote-browser");
    set(claims(&mut record), &["scope"], "repoId", s("wrong-repo"));
    assert!(validate_fixture(&record, &row, &binding).is_err());
}

#[test]
fn tests_execution_group_requires_every_declared_sibling() {
    let now = Utc::now();
    let row = row();
    let mut binding = binding();
    binding.evidence_ids.push("smoke.android.second".into());
    let mut record = record(now);
    record.receipt.execution_evidence_ids = binding.evidence_ids.clone();
    assert!(validate_fixture(&record, &row, &binding).is_err());
}

fn docker_record(evidence_id: &str, image: &str, image_id: &str, now: DateTime<Utc>) -> ReceiptRecord {
    let mut record = record(now);
    record.receipt.evidence_id = evidence_id.into();
    record.receipt.producer_inputs = vec![
        ("DEVE_RELEASE_CANDIDATE_IMAGE".into(), image.into()),
        ("DEVE_RELEASE_CANDIDATE_IMAGE_ID".into(), image_id.into()),
    ];
    record
}

fn docker_row(evidence_id: &str) -> MatrixRow {
    let mut row = row();
    row.surface = "docker".into();
    row.evidence_id = evidence_id.into();
    row
}

#[test]
fn docker_receipts_must_share_one_candidate_image() {
    let now = Utc::now();
    let id = format!("sha256:{}", "a".repeat(64));
    let other = format!("sha256:{}", "b".repeat(64));
    let rows = vec![docker_row("docker.one"), docker_row("docker.two")];
    let same = vec![docker_record("docker.one", "img:1", &id, now), docker_record("docker.two", "img:1", &id, now)];
    assert!(validate_docker_candidate_identity(&rows, &same).is_ok());
    let mixed = vec![docker_record("docker.one", "img:1", &id, now), docker_record("docker.two", "img:1", &other, now)];
    assert_eq!(
        validate_docker_candidate_identity(&rows, &mixed).unwrap_err(),
        "Docker receipts were not produced from one exact candidate image"
    );
    let blank = vec![docker_record("docker.one", "  ", &id, now)];
    assert_eq!(
        validate_docker_candidate_identity(&rows, &blank).unwrap_err(),
        "docker.one has an empty candidate image reference"
    );
    assert!(valid_sha256_image_id(&id));
    assert!(!valid_sha256_image_id("sha256:abc"));
    assert!(!valid_sha256_image_id(&format!("sha512:{}", "a".repeat(64))));
    assert!(!valid_sha256_image_id(&format!("sha256:{}", "g".repeat(64))));
}

#[test]
fn tag_ready_decision_reports_each_blocker() {
    let now = Utc::now();
    let mut gap = row();
    gap.requirement_id = "case.gap".into();
    gap.evidence_kind = "gap".into();
    gap.note = "known".into();
    let mut static_row = row();
    static_row.requirement_id = "case.static".into();
    static_row.evidence_kind = "test".into();
    static_row.freshness = "source-bound".into();
    let rows = vec![row(), gap, static_row];
    let records = vec![record(now)];
    let bindings = vec![binding()];
    let blockers = tag_ready_blockers(&rows, &records, &bindings, "abc", instant(Utc::now()));
    assert_eq!(blockers, vec!["case.gap remains an explicit gap: known".to_string()]);
    let err = validate(&rows, &records, &bindings, "abc", "", instant(Utc::now())).unwrap_err();
    assert_eq!(
        err,
        "acceptance-matrix tag-ready blocked by 1 requirement(s):\n- case.gap remains an explicit gap: known"
    );
    let ready = vec![row()];
    assert!(validate(&ready, &records, &bindings, "abc", "", instant(Utc::now())).is_ok());
    assert_eq!(
        validate(&ready, &records, &bindings, "abc", " M file", instant(Utc::now())).unwrap_err(),
        "acceptance-matrix tag-ready: current worktree is dirty"
    );
    let missing = tag_ready_blockers(&ready, &Vec::new(), &bindings, "abc", instant(Utc::now()));
    assert_eq!(missing, vec!["journey.android missing receipt smoke.android".to_string()]);
    let unbound = tag_ready_blockers(&ready, &records, &Vec::new(), "abc", instant(Utc::now()));
    assert_eq!(unbound, vec!["journey.android receipt smoke.android has no producer binding".to_string()]);
}

/// The receipt of the module's own older fixture: its journey claims stop
/// at `writableLifecycleComplete`, with no repository lifecycle claims.
fn legacy_record(now: DateTime<Utc>) -> ReceiptRecord {
    let mut record = record(now);
    remove(claims(&mut record), &[], "repoLifecycle");
    remove(claims(&mut record), &["journey"], "repoRemovalNoScope");
    remove(claims(&mut record), &["journey"], "rootBackBackgroundsTaskWithStablePid");
    record
}

#[test]
fn tag_ready_target_host_receipt_rejects_dirty_stale_and_future_ranges() {
    let now = Utc::now();
    let row = row();
    let binding = binding();
    let mut record = legacy_record(now);
    record.receipt.dirty_before = true;
    assert!(validate_fixture(&record, &row, &binding).is_err());
    record.receipt.dirty_before = false;
    record.receipt.started_at = (now - Duration::days(31)).to_rfc3339();
    record.receipt.finished_at = (now - Duration::days(31)).to_rfc3339();
    assert!(validate_fixture(&record, &row, &binding).is_err());
    record.receipt.started_at = (now + Duration::minutes(2)).to_rfc3339();
    record.receipt.finished_at = now.to_rfc3339();
    assert!(validate_fixture(&record, &row, &binding).is_err());
}

#[test]
fn tag_ready_execution_group_requires_every_declared_sibling() {
    let now = Utc::now();
    let row = row();
    let mut binding = binding();
    binding.evidence_ids.push("smoke.android.second".into());
    let mut record = legacy_record(now);
    record.receipt.execution_evidence_ids = binding.evidence_ids.clone();
    assert!(validate_fixture(&record, &row, &binding).is_err());
}
