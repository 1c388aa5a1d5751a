use deve_baseline::acceptance_matrix::model::MatrixRow;
use deve_baseline::acceptance_matrix::producer::model::{Producer, ProducerRegistry};
use deve_baseline::acceptance_matrix::producer::receipt_binding::{find_binding, receipt_bindings};
use deve_baseline::acceptance_matrix::receipt::contract_fingerprint;

fn producer(id: &str, evidence: &[&str]) -> Producer {
    Producer {
        producer_id: id.into(),
        evidence_ids: evidence.iter().map(|e| e.to_string()).collect(),
        dependencies: Vec::new(),
        tiers: vec!["tag-ready".into()],
        host_os: vec!["linux".into()],
        timeout_seconds: 1,
        candidate_required: true,
        required_tools: Vec::new(),
        required_env: Vec::new(),
        bound_env: vec!["IMAGE".into()],
        environment: Vec::new(),
        claims_env: Vec::new(),
        artifacts: vec![format!("scripts/{id}.sh")],
        steps: Vec::new(),
        finally_steps: Vec::new(),
        note: "fixture".into(),
    }
}

fn row(id: &str, kind: &str) -> MatrixRow {
    MatrixRow {
        requirement_id: format!("requirement.{id}"),
        journey_id: "none".into(),
        flow_id: "none".into(),
        case_id: "none".into(),
        surface: "web".into(),
        mode: "browser".into(),
        gate: "tag-ready".into(),
        requirement: "required".into(),
        evidence_kind: kind.into(),
        evidence_id: id.into(),
        evidence_ref: format!("receipts/{id}.json"),
        freshness: "current-head".into(),
        note: String::new(),
    }
}

#[test]
fn bindings_cover_only_receipt_evidence_of_each_owner() {
    let registry = ProducerRegistry {
        schema: 2,
        producers: vec![
            producer("web.smoke", &["smoke.one", "test.one"]),
            producer("ci.tests", &["test.two"]),
        ],
    };
    let rows = vec![row("smoke.one", "receipt"), row("test.one", "test"), row("test.two", "test")];
    let fingerprints = vec!["fnv1a64:aaaaaaaaaaaaaaaa".to_string(), "fnv1a64:bbbbbbbbbbbbbbbb".to_string()];
    let bindings = receipt_bindings(&rows, &registry, &fingerprints);
    assert_eq!(bindings.len(), 1);
    assert_eq!(bindings[0].producer_id, "web.smoke");
    assert_eq!(bindings[0].contract_fingerprint, "fnv1a64:aaaaaaaaaaaaaaaa");
    assert_eq!(bindings[0].evidence_ids, vec!["smoke.one".to_string()]);
    assert_eq!(bindings[0].artifacts, vec!["scripts/web.smoke.sh".to_string()]);
    assert_eq!(find_binding(&bindings, "smoke.one"), Some(0));
    assert_eq!(find_binding(&bindings, "test.one"), None);
}

#[test]
fn contract_fingerprint_is_fnv1a_of_the_serialized_contract() {
    assert_eq!(contract_fingerprint(&Vec::new()), "fnv1a64:cbf29ce484222325");
    assert_eq!(contract_fingerprint(&b"a".to_vec()), "fnv1a64:af63dc4c8601ec8c");
}
