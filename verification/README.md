# deve_baseline

A verified library for the release acceptance matrix: the table of
requirements, the evidence that proves each one, the producers that
generate that evidence, and the checks that decide whether a tag is ready.
Every function in `src/` carries a Verus contract, and the laws that tie the
functions together are proof functions beside them.

## Layout

- `src/text.rs`, `src/strset.rs`, `src/paths.rs`: text, ordered sets of
  strings kept as strictly increasing vectors, and path components.
- `src/acceptance_bindings.rs`: case ids declared by the acceptance
  documents and the manual bindings that name them.
- `src/acceptance_matrix/`
  - `model.rs`, `parse.rs`, `validate.rs`, `coverage.rs`: the matrix rows,
    their parser, the operation coverage table and the structural checks.
  - `test_selector.rs`: `cargo test` selectors, their catalog lookup and the
    check that a filter names a defined test.
  - `impact/`: the impact registry and the selective plan it computes, with
    its reverse-closure and order-independence laws, and the backlog.
  - `producer/`: the producer registry, its validation, the CI and release
    workflow checks, run planning and command resolution.
  - `receipt*.rs`, `execution_group.rs`, `tag_ready*`: receipts, how an
    execution builds and publishes them, and the tag-ready decision.
  - `fingerprint.rs`, `json.rs`: content fingerprints and the JSON model of
    receipt claims.

Calls into the regex, YAML, JSON, SHA-256 and date-time crates stand behind
small trusted wrappers whose contracts name what the outside function
returns. Reading files, running git or cargo, and printing stand in
`app/lib.rs`, which hands plain values to the library and checks its
preconditions before each call.

## Checking

`tests/` holds ordinary Rust tests that run the library with the real
outside crates linked.
