use deve_baseline::acceptance_matrix::producer::execution::{
    env_get, env_set, execution_spec, producer_environment, resolve_steps,
};
use deve_baseline::acceptance_matrix::producer::model::{Producer, ProducerArg, ProducerStep};

fn producer() -> Producer {
    Producer {
        producer_id: "docker.smoke".into(),
        evidence_ids: vec!["smoke.docker".into()],
        dependencies: Vec::new(),
        tiers: vec!["tag-ready".into()],
        host_os: vec!["linux".into()],
        timeout_seconds: 600,
        candidate_required: true,
        required_tools: Vec::new(),
        required_env: vec!["IMAGE".into()],
        bound_env: vec!["IMAGE".into()],
        environment: vec![("MODE".into(), "release".into()), ("IMAGE".into(), "placeholder".into())],
        claims_env: Vec::new(),
        artifacts: vec!["scripts/smoke.sh".into()],
        steps: vec![ProducerStep {
            program: "bash".into(),
            args: vec![
                ProducerArg::LiteralString("scripts/smoke.sh".into()),
                ProducerArg::Env { env: "IMAGE".into() },
            ],
        }],
        finally_steps: vec![ProducerStep {
            program: "docker".into(),
            args: vec![ProducerArg::Literal { literal: "logout".into() }],
        }],
        note: "fixture".into(),
    }
}

#[test]
fn environment_layers_registry_state_and_required_values() {
    let p = producer();
    let process = vec![("IMAGE".to_string(), "ghcr.io/deve:1".to_string())];
    let (env, inputs) = producer_environment(&p, "/opt/baseline", r"C:\state\docker", &process).unwrap();
    assert_eq!(env_get(&env, "MODE"), Some("release"));
    assert_eq!(env_get(&env, "IMAGE"), Some("ghcr.io/deve:1"));
    assert_eq!(env_get(&env, "DEVE_BASELINE_BIN"), Some("/opt/baseline"));
    assert_eq!(env_get(&env, "DEVE_ACCEPTANCE_PRODUCER_STATE_DIR"), Some("C:/state/docker"));
    assert_eq!(inputs, vec![("IMAGE".to_string(), "ghcr.io/deve:1".to_string())]);
    let missing = producer_environment(&p, "/opt/baseline", "/state", &Vec::new()).unwrap_err();
    assert_eq!(missing, "acceptance-run: producer docker.smoke missing required environment IMAGE");
    let mut unbound = producer();
    unbound.bound_env = vec!["TOKEN".into()];
    assert_eq!(
        producer_environment(&unbound, "/opt/baseline", "/state", &process).unwrap_err(),
        "acceptance-run: producer docker.smoke missing bound environment TOKEN"
    );
}

#[test]
fn later_settings_override_earlier_ones() {
    let mut env = vec![("A".to_string(), "1".to_string())];
    env_set(&mut env, "A", "2");
    env_set(&mut env, "B", "3");
    assert_eq!(env_get(&env, "A"), Some("2"));
    assert_eq!(env_get(&env, "B"), Some("3"));
    assert_eq!(env_get(&env, "C"), None);
}

#[test]
fn steps_resolve_variables_and_the_shell() {
    let p = producer();
    let process = vec![("IMAGE".to_string(), "img".to_string())];
    let (env, inputs) = producer_environment(&p, "/bin/baseline", "/state", &process).unwrap();
    let steps = resolve_steps(&p, &p.steps, &env, "/usr/bin/bash").unwrap();
    assert_eq!(steps[0].program, "/usr/bin/bash");
    assert_eq!(steps[0].args, vec!["scripts/smoke.sh".to_string(), "img".to_string()]);
    let spec = execution_spec(&p, &env, inputs, "fnv1a64:0000000000000000", "bash").unwrap();
    assert_eq!(spec.producer_id, "docker.smoke");
    assert_eq!(spec.finally_steps[0].program, "docker");
    assert_eq!(spec.finally_steps[0].args, vec!["logout".to_string()]);
    assert_eq!(spec.timeout_seconds, 600);
    let mut broken = producer();
    broken.steps[0].args.push(ProducerArg::Env { env: "UNSET".into() });
    assert_eq!(
        resolve_steps(&broken, &broken.steps, &env, "bash").unwrap_err(),
        "acceptance-run: producer docker.smoke missing argument env UNSET"
    );
}
