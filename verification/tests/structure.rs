use deve_baseline::acceptance_matrix::producer::structure::validate_candidate;

const VALID: &str = r#"
jobs:
  native:
    needs: [identity, web-dist]
    uses: ./.github/workflows/release-native.yml
    with:
      candidate_head: ${{ github.sha }}
      version: ${{ inputs.version }}
      web_dist_artifact: deve-candidate-web-dist-${{ github.sha }}
    secrets:
      ANDROID_KEYSTORE_BASE64: ${{ secrets.ANDROID_KEYSTORE_BASE64 }}
      ANDROID_KEYSTORE_PASSWORD: ${{ secrets.ANDROID_KEYSTORE_PASSWORD }}
      ANDROID_KEY_ALIAS: ${{ secrets.ANDROID_KEY_ALIAS }}
      ANDROID_KEY_PASSWORD: ${{ secrets.ANDROID_KEY_PASSWORD }}
  contract-receipts:
    needs: identity
    steps:
      - if: ${{ always() }}
        uses: actions/upload-artifact@043fb46d1a93c77aae656e7c1c64a875d1fc6a0a
        with:
          name: deve-acceptance-receipts-contracts-${{ github.sha }}
          path: ${{ runner.temp }}/deve-acceptance-contracts
          if-no-files-found: error
  assemble:
    needs: [identity, contract-static, rust-quality, workspace-tests, full-baseline, web-dist, docker-linux-amd64-build, docker-linux-amd64-smoke, contract-receipts, repo-process-linux, security-receipts, github-receipts, native]
    steps:
      - uses: actions/download-artifact@3e5f45b2cfb9172054b4087a40e8e0b5a5461e7c
        with:
          pattern: deve-acceptance-receipts-*-${{ github.sha }}
          path: ${{ runner.temp }}/deve-release-incoming/receipts
          merge-multiple: false
"#;

#[test]
fn native_call_and_receipt_delivery_are_required_execution_edges() {
    validate_candidate(VALID).unwrap();
    assert!(
        validate_candidate(&VALID.replace(
            "    uses: ./.github/workflows/release-native.yml",
            "    uses: ./.github/workflows/other.yml"
        ))
        .is_err()
    );
    assert!(
        validate_candidate(&VALID.replace("  native:\n", "  native:\n    if: false\n"))
            .is_err()
    );
    assert!(
        validate_candidate(&VALID.replace(
            "needs: [identity, contract-static, rust-quality, workspace-tests, full-baseline, web-dist, docker-linux-amd64-build, docker-linux-amd64-smoke, contract-receipts, repo-process-linux, security-receipts, github-receipts, native]",
            "needs: [identity, contract-static, rust-quality, workspace-tests, full-baseline, web-dist, docker-linux-amd64-build, docker-linux-amd64-smoke, repo-process-linux, security-receipts, github-receipts, native]"
        ))
        .is_err()
    );
    assert!(
        validate_candidate(
            &VALID.replace("if-no-files-found: error", "if-no-files-found: warn")
        )
        .is_err()
    );
    assert!(
        validate_candidate(&VALID.replace(
            "uses: actions/upload-artifact@043fb46d1a93c77aae656e7c1c64a875d1fc6a0a",
            "continue-on-error: true\n        uses: actions/upload-artifact@043fb46d1a93c77aae656e7c1c64a875d1fc6a0a"
        ))
        .is_err()
    );
    assert!(
        validate_candidate(&VALID.replace(
            "deve-acceptance-receipts-*-${{ github.sha }}",
            "deve-acceptance-receipts-native-${{ github.sha }}"
        ))
        .is_err()
    );
    assert!(
        validate_candidate(&VALID.replace("  assemble:\n", "  assemble:\n    if: false\n"))
            .is_err()
    );
    assert!(
        validate_candidate(&VALID.replace(
            "      - uses: actions/download-artifact@3e5f45b2cfb9172054b4087a40e8e0b5a5461e7c",
            "      - if: false\n        uses: actions/download-artifact@3e5f45b2cfb9172054b4087a40e8e0b5a5461e7c"
        ))
        .is_err()
    );
    assert!(
        validate_candidate(&VALID.replace(
            "          merge-multiple: false",
            "          merge-multiple: false\n          run-id: 1"
        ))
        .is_err()
    );
}

#[test]
fn candidate_structure_rejects_malformed_or_duplicated_calls() {
    assert!(validate_candidate("jobs: [").is_err());
    assert!(validate_candidate(&format!("defaults:\n  run:\n    shell: bash\n{VALID}")).is_err());
    let twice = VALID.replace(
        "  contract-receipts:\n",
        "  native-again:\n    needs: [identity, web-dist]\n    uses: ./.github/workflows/release-native.yml\n  contract-receipts:\n",
    );
    assert!(validate_candidate(&twice).is_err());
    assert!(validate_candidate(&VALID.replace("ANDROID_KEY_ALIAS: ${{ secrets.ANDROID_KEY_ALIAS }}", "ANDROID_KEY_ALIAS: other")).is_err());
    assert!(validate_candidate(&VALID.replace("    needs: [identity, web-dist]\n", "    needs: identity\n")).is_err());
    assert!(validate_candidate(&VALID.replace("merge-multiple: false", "merge-multiple: true")).is_err());
    assert!(validate_candidate(&VALID.replace("    needs: identity\n", "    needs: [identity]\n")).is_ok());
}
