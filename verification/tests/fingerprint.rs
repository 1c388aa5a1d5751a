use deve_baseline::acceptance_matrix::fingerprint::{fingerprint, input_fingerprints, sha256_lower_hex};

#[test]
fn sha256_digests_render_in_lower_hex() {
    assert_eq!(
        sha256_lower_hex(&Vec::new()),
        "e3b0c44298fc1c149afbf4c8996fb92427ae41e4649b934ca495991b7852b855"
    );
    assert_eq!(
        sha256_lower_hex(&b"abc".to_vec()),
        "ba7816bf8f01cfea414140de5dae2223b00361a396177a9cb410ff61f20015ad"
    );
}

#[test]
fn input_fingerprints_name_each_input_by_its_digest() {
    let fp = input_fingerprints(&b"abc".to_vec(), &Vec::new(), &b"abc".to_vec());
    assert_eq!(
        fp.impact_registry,
        "sha256:ba7816bf8f01cfea414140de5dae2223b00361a396177a9cb410ff61f20015ad"
    );
    assert_eq!(
        fp.producer_registry,
        "sha256:e3b0c44298fc1c149afbf4c8996fb92427ae41e4649b934ca495991b7852b855"
    );
    assert_eq!(fp.acceptance_matrix, fingerprint(&b"abc".to_vec()));
}
