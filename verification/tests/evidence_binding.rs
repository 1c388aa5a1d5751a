use deve_baseline::acceptance_matrix::model::MatrixRow;
use deve_baseline::acceptance_matrix::producer::evidence_binding::step_directly_executes;
use deve_baseline::acceptance_matrix::producer::model::{ProducerArg, ProducerStep};

fn row(kind: &str, reference: &str) -> MatrixRow {
    MatrixRow {
        requirement_id: "REQ-BINDING".into(),
        journey_id: "none".into(),
        flow_id: "none".into(),
        case_id: "BIND-001".into(),
        surface: "web".into(),
        mode: "browser".into(),
        gate: "ci".into(),
        requirement: "required".into(),
        evidence_kind: kind.into(),
        evidence_id: "test.binding".into(),
        evidence_ref: reference.into(),
        freshness: "source-bound".into(),
        note: "typed binding fixture".into(),
    }
}

fn step(program: &str, args: &[&str]) -> ProducerStep {
    ProducerStep {
        program: program.into(),
        args: args.iter().map(|value| ProducerArg::Literal { literal: (*value).into() }).collect(),
    }
}

fn check_owned_locator_binding() {
    let test = row("test", "cargo test -p deve_core actual_filter -- --nocapture");
    assert!(step_directly_executes(
        &test,
        &step("cargo", &["test", "--locked", "-p", "deve_core", "--lib", "actual_filter"])
    )
    .unwrap());
    assert!(!step_directly_executes(
        &test,
        &step("cargo", &["test", "--locked", "-p", "deve_core", "--lib", "other_filter"])
    )
    .unwrap());
    let colliding_filter = row("test", "cargo test -p deve_core deve_core -- --nocapture");
    assert!(!step_directly_executes(
        &colliding_filter,
        &step("cargo", &["test", "--locked", "-p", "deve_core", "--lib"])
    )
    .unwrap());
    assert!(!step_directly_executes(
        &test,
        &step(
            "cargo",
            &["test", "--locked", "-p", "deve_core", "--lib", "actual_filter", "--", "--skip", "actual_filter"]
        )
    )
    .unwrap());

    let script = row("script", "scripts/check-real.sh");
    assert!(step_directly_executes(&script, &step("bash", &["scripts/check-real.sh"])).unwrap());
    assert!(!step_directly_executes(&script, &step("bash", &["scripts/check-other.sh"])).unwrap());
    assert!(!step_directly_executes(&script, &step("echo", &["incidental", "scripts/check-real.sh"])).unwrap());
    assert!(!step_directly_executes(&script, &step("bash", &["scripts/check-real.sh", "--help"])).unwrap());
}

#[test]
fn producer_validation_executable_binding_requires_the_owned_locator_to_be_invoked() {
    check_owned_locator_binding();
}

#[test]
fn evidence_binding_executable_binding_requires_the_owned_locator_to_be_invoked() {
    check_owned_locator_binding();
}
