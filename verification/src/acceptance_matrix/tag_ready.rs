//! First-tag readiness: accepted gaps standing in for missing evidence.
use super::execution_group::{groups_ok, refs_view, validate_execution_groups};
use super::model::MatrixRow;
use super::producer::receipt_binding::{binding_index, find_binding, ReceiptProducerBinding};
use super::receipt::target_os_of;
use super::receipt_model::{inputs_are_map, pairs_view, Receipt};
use crate::text::opt_view;
use android::{android_ok, validate_android_claims};
use desktop::{desktop_ok, validate_desktop_claims};
use crate::strset::{contains_str_in, same_multiset};
use crate::text::{
    cat, cat3, chars_of, decimal_string, eq_str, is_ascii_hex, join, starts_with, starts_with_str, to_string, trim, trim_str,
    utf8_len, utf8_len_at_least,
};
use vstd::prelude::*;

pub mod repo_lifecycle;
pub mod android;
pub mod desktop;

verus! {

pub open spec fn gap_key_is(entry: ((String, String), String), requirement_id: Seq<char>, evidence_id: Seq<char>) -> bool {
    entry.0.0@ == requirement_id && entry.0.1@ == evidence_id
}

/// The first binding keyed by the requirement and evidence pair.
pub open spec fn gap_index(bindings: Seq<((String, String), String)>, requirement_id: Seq<char>, evidence_id: Seq<char>) -> Option<
    int,
> {
    if exists|i: int| 0 <= i < bindings.len() && gap_key_is(#[trigger] bindings[i], requirement_id, evidence_id) {
        Some(
            choose|i: int|
                0 <= i < bindings.len() && gap_key_is(#[trigger] bindings[i], requirement_id, evidence_id) && forall|j: int|
                    0 <= j < i ==> !gap_key_is(#[trigger] bindings[j], requirement_id, evidence_id),
        )
    } else {
        None
    }
}

/// Takes the accepted-gap binding of the row's exact (requirement, evidence)
/// pair out of `bindings`, and returns what it was accepted as; any other
/// pair leaves the bindings as they were.
pub fn consume_accepted_gap(row: &MatrixRow, bindings: &mut Vec<((String, String), String)>) -> (r: Option<String>)
    ensures
        match gap_index(old(bindings)@, row.requirement_id@, row.evidence_id@) {
            Some(i) => r matches Some(v) && v@ == old(bindings)@[i].1@ && final(bindings)@ == old(bindings)@.remove(i),
            None => r is None && final(bindings)@ == old(bindings)@,
        },
{
    let ghost b = bindings@;
    assert(b == old(bindings)@);
    let mut i: usize = 0;
    while i < bindings.len()
        invariant
            bindings@ == b,
            b == old(bindings)@,
            i <= b.len(),
            forall|j: int| 0 <= j < i ==> !gap_key_is(#[trigger] b[j], row.requirement_id@, row.evidence_id@),
        decreases b.len() - i,
    {
        if eq_str(bindings[i].0.0.as_str(), row.requirement_id.as_str()) && eq_str(
            bindings[i].0.1.as_str(),
            row.evidence_id.as_str(),
        ) {
            proof {
                assert(gap_key_is(b[i as int], row.requirement_id@, row.evidence_id@));
                let c = choose|c: int|
                    0 <= c < b.len() && gap_key_is(#[trigger] b[c], row.requirement_id@, row.evidence_id@) && forall|j: int|
                        0 <= j < c ==> !gap_key_is(#[trigger] b[j], row.requirement_id@, row.evidence_id@);
                if c < i {
                    assert(!gap_key_is(b[c], row.requirement_id@, row.evidence_id@));
                }
                if c > i {
                    assert(!gap_key_is(b[i as int], row.requirement_id@, row.evidence_id@));
                }
                assert(c == i);
                assert(gap_index(b, row.requirement_id@, row.evidence_id@) == Some(i as int));
            }
            let entry = bindings.remove(i);
            assert(entry == b[i as int]);
            assert(bindings@ == b.remove(i as int));
            return Some(entry.1);
        }
        i += 1;
    }
    None
}

/// A receipt as read from the receipt directory, with its path there.
#[derive(Debug)]
pub struct ReceiptRecord {
    pub relative_path: String,
    pub receipt: Receipt,
}

/// The instant an RFC 3339 timestamp names, as whole seconds since the Unix
/// epoch and the nanoseconds past that second (which exceed 999,999,999
/// within a leap second), or `None` where it does not parse.
pub uninterp spec fn rfc3339_instant(text: Seq<char>) -> Option<(i64, u32)>;

/// Parses an RFC 3339 timestamp with `chrono::DateTime::parse_from_rfc3339`.
/// Claimed: the result is `rfc3339_instant` of the text, a function of the
/// text alone; what the instant is is not stated.
#[verifier::external_body]
fn parse_instant(text: &str) -> (r: Option<(i64, u32)>)
    ensures
        r == rfc3339_instant(text@),
{
    match chrono::DateTime::parse_from_rfc3339(text) {
        Ok(t) => Some((t.timestamp(), t.timestamp_subsec_nanos())),
        Err(_) => None,
    }
}

/// Instant `a` lies strictly after instant `b`.
pub open spec fn after(a0: int, a1: int, b0: int, b1: int) -> bool {
    a0 > b0 || (a0 == b0 && a1 > b1)
}

/// The receipt's interval is ordered, not in the future (five minutes of
/// clock skew allowed), and a target-host receipt is at most 30 days old.
pub open spec fn freshness_ok(receipt: Receipt, row: MatrixRow, now: (i64, u32)) -> bool {
    match (rfc3339_instant(receipt.started_at@), rfc3339_instant(receipt.finished_at@)) {
        (Some(s), Some(f)) => {
            &&& !after(s.0 as int, s.1 as int, f.0 as int, f.1 as int)
            &&& !after(s.0 as int, s.1 as int, now.0 + 300, now.1 as int)
            &&& !after(f.0 as int, f.1 as int, now.0 + 300, now.1 as int)
            &&& !(row.freshness@ == "target-host-30d"@ && (now.0 - f.0) * 1_000_000_000 + (now.1 - f.1) > 30 * 86_400
                * 1_000_000_000)
        },
        _ => false,
    }
}

/// Checks that the receipt is fresh at `now` (a clock reading: seconds since
/// the Unix epoch, within `chrono`'s range, and nanoseconds below one
/// second).
pub fn validate_freshness(receipt: &Receipt, row: &MatrixRow, now: (i64, u32)) -> (r: Result<(), String>)
    requires
        now.0 < 8_000_000_000_000,
        now.1 < 1_000_000_000,
    ensures
        r is Ok <==> freshness_ok(*receipt, *row, now),
{
    let started = match parse_instant(receipt.started_at.as_str()) {
        Some(t) => t,
        None => {
            return Err(to_string("receipt started_at is not RFC3339"));
        },
    };
    let finished = match parse_instant(receipt.finished_at.as_str()) {
        Some(t) => t,
        None => {
            return Err(to_string("receipt finished_at is not RFC3339"));
        },
    };
    if started.0 > finished.0 || (started.0 == finished.0 && started.1 > finished.1) {
        return Err(to_string("receipt started_at is after finished_at"));
    }
    let limit: i64 = now.0 + 300;
    if started.0 > limit || (started.0 == limit && started.1 > now.1) || finished.0 > limit || (finished.0 == limit
        && finished.1 > now.1) {
        return Err(to_string("receipt timestamp is in the future"));
    }
    let age: i128 = (now.0 as i128 - finished.0 as i128) * 1_000_000_000i128 + (now.1 as i128 - finished.1 as i128);
    if eq_str(row.freshness.as_str(), "target-host-30d") && age > 2_592_000_000_000_000i128 {
        return Err(to_string("target-host receipt is older than 30 days"));
    }
    Ok(())
}

/// A well-formed execution ID: `exec-fnv1a64-` and 16 more bytes.
pub open spec fn execution_id_shape(s: Seq<char>) -> bool {
    starts_with(s, "exec-fnv1a64-"@) && utf8_len(s) == 29
}

/// A well-formed command fingerprint: `fnv1a64:` and 16 more bytes.
pub open spec fn fingerprint_shape(s: Seq<char>) -> bool {
    starts_with(s, "fnv1a64:"@) && utf8_len(s) == 24
}

pub open spec fn input_names(v: Seq<(String, String)>) -> Seq<Seq<char>> {
    v.map_values(|e: (String, String)| e.0@)
}

/// The receipt comes from the registry owner of its evidence under the
/// current contract, carries the owner's complete evidence group, artifacts
/// and bound inputs, and no empty input.
pub open spec fn binding_ok(receipt: Receipt, row: MatrixRow, binding: ReceiptProducerBinding) -> bool {
    &&& receipt.schema == 3
    &&& receipt.evidence_id@ == row.evidence_id@
    &&& receipt.producer_id@ == binding.producer_id@
    &&& receipt.producer_contract@ == binding.contract_fingerprint@
    &&& execution_id_shape(receipt.execution_id@)
    &&& receipt.execution_evidence_ids.deep_view().to_multiset() == binding.evidence_ids.deep_view().to_multiset()
    &&& receipt.command_artifacts.deep_view().to_multiset() == binding.artifacts.deep_view().to_multiset()
    &&& input_names(receipt.producer_inputs@).to_set() == binding.bound_env.deep_view().to_set()
    &&& forall|i: int| 0 <= i < receipt.producer_inputs@.len() ==> (#[trigger] receipt.producer_inputs@[i]).1@.len() > 0
}

fn utf8_len_is(s: &str, n: u32) -> (r: bool)
    requires
        n < u32::MAX,
    ensures
        r == (utf8_len(s@) == n),
{
    utf8_len_at_least(s, n) && !utf8_len_at_least(s, n + 1)
}

fn input_names_exec(v: &Vec<(String, String)>) -> (r: Vec<String>)
    ensures
        r.deep_view() == input_names(v@),
{
    let mut out: Vec<String> = Vec::new();
    let mut q: usize = 0;
    while q < v.len()
        invariant
            q <= v@.len(),
            out.deep_view() == input_names(v@).take(q as int),
        decreases v@.len() - q,
    {
        let ghost before = out.deep_view();
        let item = to_string(v[q].0.as_str());
        out.push(item);
        assert(out.deep_view() =~= before.push(v@[q as int].0@));
        assert(input_names(v@).take(q + 1) =~= input_names(v@).take(q as int).push(v@[q as int].0@));
        q += 1;
    }
    assert(input_names(v@).take(v@.len() as int) =~= input_names(v@));
    out
}

/// Checks that the receipt is bound to its registry owner under the current
/// contract.
pub fn validate_producer_binding(receipt: &Receipt, row: &MatrixRow, binding: &ReceiptProducerBinding) -> (r: Result<
    (),
    String,
>)
    ensures
        r is Ok <==> binding_ok(*receipt, *row, *binding),
{
    if receipt.schema != 3 {
        return Err(to_string("tag-ready requires receipt schema 3"));
    }
    if !eq_str(receipt.evidence_id.as_str(), row.evidence_id.as_str()) {
        return Err(to_string("receipt evidence ID does not match the matrix requirement"));
    }
    if !eq_str(receipt.producer_id.as_str(), binding.producer_id.as_str()) {
        let head = cat3("receipt producer ", receipt.producer_id.as_str(), " does not match registry owner ");
        return Err(cat(head.as_str(), binding.producer_id.as_str()));
    }
    if !eq_str(receipt.producer_contract.as_str(), binding.contract_fingerprint.as_str()) {
        return Err(to_string("receipt producer contract does not match the current registry"));
    }
    if !starts_with_str(receipt.execution_id.as_str(), "exec-fnv1a64-") || !utf8_len_is(receipt.execution_id.as_str(), 29) {
        return Err(to_string("receipt execution ID is malformed"));
    }
    if !same_multiset(&receipt.execution_evidence_ids, &binding.evidence_ids) {
        return Err(to_string("receipt execution evidence set does not match its producer contract"));
    }
    if !same_multiset(&receipt.command_artifacts, &binding.artifacts) {
        return Err(to_string("receipt command artifacts do not match its producer contract"));
    }
    let names = input_names_exec(&receipt.producer_inputs);
    if !crate::strset::is_subset(&names, &binding.bound_env) || !crate::strset::is_subset(&binding.bound_env, &names) {
        return Err(to_string("receipt producer inputs do not match its producer contract"));
    }
    assert(names.deep_view().to_set() =~= binding.bound_env.deep_view().to_set());
    let mut i: usize = 0;
    while i < receipt.producer_inputs.len()
        invariant
            i <= receipt.producer_inputs@.len(),
            forall|q: int| 0 <= q < i ==> (#[trigger] receipt.producer_inputs@[q]).1@.len() > 0,
        decreases receipt.producer_inputs@.len() - i,
    {
        if chars_of(receipt.producer_inputs[i].1.as_str()).len() == 0 {
            return Err(to_string("receipt producer input contains an empty value"));
        }
        i += 1;
    }
    Ok(())
}

/// Everything a required tag-ready receipt must show: its binding, a passed
/// clean run at the current HEAD, the matrix's locator, surface, mode and
/// target platform, a host, a well-formed command fingerprint, valid typed
/// claims on Android and Desktop, and freshness.
pub open spec fn receipt_ok(record: ReceiptRecord, row: MatrixRow, binding: ReceiptProducerBinding, head: Seq<char>, now: (
    i64,
    u32,
)) -> bool {
    let r = record.receipt;
    &&& binding_ok(r, row, binding)
    &&& r.status@ == "passed"@
    &&& !r.dirty_before && !r.dirty_after
    &&& r.head@ == head
    &&& opt_view(r.head_after) == Some(head)
    &&& r.evidence_ref@ == row.evidence_ref@ && record.relative_path@ == row.evidence_ref@
    &&& r.surface@ == row.surface@ && r.mode@ == row.mode@
    &&& r.target_os@ == target_os_of(row.surface@)
    &&& r.os@.len() > 0 && r.arch@.len() > 0
    &&& (row.surface@ == "desktop"@ ==> r.os@ == "windows"@)
    &&& (row.surface@ == "docker"@ ==> r.os@ == "linux"@)
    &&& fingerprint_shape(r.command_fingerprint@)
    &&& (row.surface@ == "android"@ ==> android_ok(r, row))
    &&& (row.surface@ == "desktop"@ ==> desktop_ok(r, row))
    &&& freshness_ok(r, row, now)
}

/// Checks one required receipt against its matrix row, its registry binding,
/// the current HEAD and the clock reading `now`.
pub fn validate_receipt(
    record: &ReceiptRecord,
    row: &MatrixRow,
    binding: &ReceiptProducerBinding,
    head: &str,
    now: (i64, u32),
) -> (r: Result<(), String>)
    requires
        now.0 < 8_000_000_000_000,
        now.1 < 1_000_000_000,
    ensures
        r is Ok <==> receipt_ok(*record, *row, *binding, head@, now),
{
    let receipt = &record.receipt;
    validate_producer_binding(receipt, row, binding)?;
    if !eq_str(receipt.status.as_str(), "passed") {
        return Err(cat("receipt status is ", receipt.status.as_str()));
    }
    if receipt.dirty_before || receipt.dirty_after {
        return Err(to_string("receipt command did not preserve a clean worktree"));
    }
    if !eq_str(receipt.head.as_str(), head) {
        let start = cat3("receipt HEAD ", receipt.head.as_str(), " does not match current HEAD ");
        return Err(cat(start.as_str(), head));
    }
    let after_ok = match &receipt.head_after {
        Some(h) => eq_str(h.as_str(), head),
        None => false,
    };
    if !after_ok {
        return Err(to_string("receipt HEAD changed or was unavailable after command execution"));
    }
    if !eq_str(receipt.evidence_ref.as_str(), row.evidence_ref.as_str()) || !eq_str(
        record.relative_path.as_str(),
        row.evidence_ref.as_str(),
    ) {
        let a = cat3("receipt locator ", receipt.evidence_ref.as_str(), " / ");
        let b = cat3(a.as_str(), record.relative_path.as_str(), " does not match required ");
        return Err(cat(b.as_str(), row.evidence_ref.as_str()));
    }
    if !eq_str(receipt.surface.as_str(), row.surface.as_str()) || !eq_str(receipt.mode.as_str(), row.mode.as_str()) {
        return Err(to_string("receipt surface or mode does not match the matrix requirement"));
    }
    let expected = super::receipt::expected_target_os(row.surface.as_str());
    if !eq_str(receipt.target_os.as_str(), expected) {
        let a = cat3("receipt target_os ", receipt.target_os.as_str(), " does not match required ");
        return Err(cat(a.as_str(), expected));
    }
    if chars_of(receipt.os.as_str()).len() == 0 || chars_of(receipt.arch.as_str()).len() == 0 {
        return Err(to_string("receipt host OS/arch is missing"));
    }
    if eq_str(row.surface.as_str(), "desktop") && !eq_str(receipt.os.as_str(), "windows") {
        return Err(to_string("desktop receipt must be captured on a Windows target host"));
    }
    if eq_str(row.surface.as_str(), "docker") && !eq_str(receipt.os.as_str(), "linux") {
        return Err(to_string("Docker receipt must be captured on a Linux target host"));
    }
    if !starts_with_str(receipt.command_fingerprint.as_str(), "fnv1a64:") || !utf8_len_is(
        receipt.command_fingerprint.as_str(),
        24,
    ) {
        return Err(to_string("receipt command fingerprint is malformed"));
    }
    if eq_str(row.surface.as_str(), "android") {
        validate_android_claims(receipt, row)?;
    }
    if eq_str(row.surface.as_str(), "desktop") {
        validate_desktop_claims(receipt, row)?;
    }
    validate_freshness(receipt, row, now)
}

/// A `sha256:` image ID with 64 hexadecimal digits.
pub open spec fn image_id_ok(v: Seq<char>) -> bool {
    &&& starts_with(v, "sha256:"@)
    &&& v.len() == 71
    &&& forall|i: int| 7 <= i < v.len() ==> is_ascii_hex(#[trigger] v[i])
}

/// Whether a value is a `sha256:` image ID with 64 hexadecimal digits.
pub fn valid_sha256_image_id(value: &str) -> (r: bool)
    ensures
        r == image_id_ok(value@),
{
    if !starts_with_str(value, "sha256:") {
        return false;
    }
    let cs = chars_of(value);
    if cs.len() != 71 {
        return false;
    }
    let mut i: usize = 7;
    while i < cs.len()
        invariant
            7 <= i <= cs@.len(),
            cs@ == value@,
            forall|q: int| 7 <= q < i ==> is_ascii_hex(#[trigger] cs@[q]),
        decreases cs@.len() - i,
    {
        let c = cs[i];
        if !(('0' <= c && c <= '9') || ('a' <= c && c <= 'f') || ('A' <= c && c <= 'F')) {
            return false;
        }
        i += 1;
    }
    true
}

/// The record of receipt `id` (the first holding it).
#[verifier::opaque]
pub open spec fn record_index(records: Seq<ReceiptRecord>, id: Seq<char>) -> Option<int> {
    if exists|i: int| 0 <= i < records.len() && (#[trigger] records[i]).receipt.evidence_id@ == id {
        Some(
            choose|i: int|
                0 <= i < records.len() && (#[trigger] records[i]).receipt.evidence_id@ == id && forall|j: int|
                    0 <= j < i ==> (#[trigger] records[j]).receipt.evidence_id@ != id,
        )
    } else {
        None
    }
}

/// The value of input `name` (the first holding it).
pub open spec fn input_value(inputs: Seq<(String, String)>, name: Seq<char>) -> Option<Seq<char>> {
    if exists|i: int| 0 <= i < inputs.len() && (#[trigger] inputs[i]).0@ == name {
        Some(
            inputs[choose|i: int|
                0 <= i < inputs.len() && (#[trigger] inputs[i]).0@ == name && forall|j: int|
                    0 <= j < i ==> (#[trigger] inputs[j]).0@ != name].1@,
        )
    } else {
        None
    }
}

/// A required tag-ready Docker receipt row.
pub open spec fn docker_row(row: MatrixRow) -> bool {
    row.gate@ == "tag-ready"@ && row.requirement@ == "required"@ && row.surface@ == "docker"@ && row.evidence_kind@
        == "receipt"@
}

#[verifier::opaque]
pub open spec fn image_ref_of(r: Receipt) -> Option<Seq<char>> {
    input_value(r.producer_inputs@, "DEVE_RELEASE_CANDIDATE_IMAGE"@)
}

#[verifier::opaque]
pub open spec fn image_id_of(r: Receipt) -> Option<Seq<char>> {
    input_value(r.producer_inputs@, "DEVE_RELEASE_CANDIDATE_IMAGE_ID"@)
}

/// A Docker receipt names its candidate image and a well-formed image ID.
#[verifier::opaque]
pub open spec fn docker_entry_ok(r: Receipt) -> bool {
    match (image_ref_of(r), image_id_of(r)) {
        (Some(image), Some(id)) => trim(image).len() > 0 && image_id_ok(id),
        _ => false,
    }
}

/// The Docker row `i` has a receipt; its record, if so.
#[verifier::opaque]
pub open spec fn docker_record(rows: Seq<MatrixRow>, records: Seq<ReceiptRecord>, i: int) -> Option<int> {
    if docker_row(rows[i]) {
        record_index(records, rows[i].evidence_id@)
    } else {
        None
    }
}

/// Every Docker receipt names a well-formed candidate image, and all of them
/// name one and the same image and image ID.
pub open spec fn docker_identity_ok(rows: Seq<MatrixRow>, records: Seq<ReceiptRecord>) -> bool {
    &&& forall|i: int|
        0 <= i < rows.len() ==> match #[trigger] docker_record(rows, records, i) {
            Some(k) => docker_entry_ok(records[k].receipt),
            None => true,
        }
    &&& forall|i: int, j: int|
        0 <= i < rows.len() && 0 <= j < rows.len() ==> match (
            #[trigger] docker_record(rows, records, i),
            #[trigger] docker_record(rows, records, j),
        ) {
            (Some(a), Some(b)) => image_ref_of(records[a].receipt) == image_ref_of(records[b].receipt) && image_id_of(
                records[a].receipt,
            ) == image_id_of(records[b].receipt),
            _ => true,
        }
}

fn find_record(records: &Vec<ReceiptRecord>, id: &str) -> (r: Option<usize>)
    ensures
        match r {
            Some(i) => i < records@.len() && record_index(records@, id@) == Some(i as int),
            None => record_index(records@, id@) is None,
        },
{
    proof {
        reveal(record_index);
    }
    let mut i: usize = 0;
    while i < records.len()
        invariant
            i <= records@.len(),
            forall|j: int| 0 <= j < i ==> (#[trigger] records@[j]).receipt.evidence_id@ != id@,
        decreases records@.len() - i,
    {
        if eq_str(records[i].receipt.evidence_id.as_str(), id) {
            proof {
                reveal(record_index);
                assert(records@[i as int].receipt.evidence_id@ == id@);
                let c = choose|c: int|
                    0 <= c < records@.len() && (#[trigger] records@[c]).receipt.evidence_id@ == id@ && forall|j: int|
                        0 <= j < c ==> (#[trigger] records@[j]).receipt.evidence_id@ != id@;
                if c < i {
                    assert(records@[c].receipt.evidence_id@ != id@);
                } else if c > i {
                    assert(records@[i as int].receipt.evidence_id@ != id@);
                }
            }
            return Some(i);
        }
        i += 1;
    }
    None
}

fn find_input<'a>(inputs: &'a Vec<(String, String)>, name: &str) -> (r: Option<&'a str>)
    ensures
        match r {
            Some(v) => input_value(inputs@, name@) == Some(v@),
            None => input_value(inputs@, name@) is None,
        },
{
    let mut i: usize = 0;
    while i < inputs.len()
        invariant
            i <= inputs@.len(),
            forall|j: int| 0 <= j < i ==> (#[trigger] inputs@[j]).0@ != name@,
        decreases inputs@.len() - i,
    {
        if eq_str(inputs[i].0.as_str(), name) {
            proof {
                assert(inputs@[i as int].0@ == name@);
                let c = choose|c: int|
                    0 <= c < inputs@.len() && (#[trigger] inputs@[c]).0@ == name@ && forall|j: int|
                        0 <= j < c ==> (#[trigger] inputs@[j]).0@ != name@;
                if c < i {
                    assert(inputs@[c].0@ != name@);
                } else if c > i {
                    assert(inputs@[i as int].0@ != name@);
                }
            }
            return Some(inputs[i].1.as_str());
        }
        i += 1;
    }
    None
}

fn is_docker_row(row: &MatrixRow) -> (r: bool)
    ensures
        r == docker_row(*row),
{
    eq_str(row.gate.as_str(), "tag-ready") && eq_str(row.requirement.as_str(), "required") && eq_str(
        row.surface.as_str(),
        "docker",
    ) && eq_str(row.evidence_kind.as_str(), "receipt")
}

fn docker_entry(evidence_id: &str, receipt: &Receipt) -> (r: Result<(String, String), String>)
    ensures
        r is Ok <==> docker_entry_ok(*receipt),
        r matches Ok((image, id)) ==> image_ref_of(*receipt) == Some(image@) && image_id_of(*receipt) == Some(id@),
{
    proof {
        reveal(docker_entry_ok);
        reveal(image_ref_of);
        reveal(image_id_of);
    }
    let image = match find_input(&receipt.producer_inputs, "DEVE_RELEASE_CANDIDATE_IMAGE") {
        Some(v) => v,
        None => {
            return Err(cat(evidence_id, " is missing DEVE_RELEASE_CANDIDATE_IMAGE"));
        },
    };
    let id = match find_input(&receipt.producer_inputs, "DEVE_RELEASE_CANDIDATE_IMAGE_ID") {
        Some(v) => v,
        None => {
            return Err(cat(evidence_id, " is missing DEVE_RELEASE_CANDIDATE_IMAGE_ID"));
        },
    };
    if chars_of(trim_str(image).as_str()).len() == 0 {
        return Err(cat(evidence_id, " has an empty candidate image reference"));
    }
    if !valid_sha256_image_id(id) {
        let head = cat(evidence_id, " has malformed candidate image ID ");
        return Err(cat(head.as_str(), id));
    }
    Ok((to_string(image), to_string(id)))
}

/// Checks that the Docker receipts were produced from one exact candidate
/// image.
pub fn validate_docker_candidate_identity(rows: &Vec<MatrixRow>, records: &Vec<ReceiptRecord>) -> (r: Result<(), String>)
    ensures
        r is Ok <==> docker_identity_ok(rows@, records@),
{
    let mut first: Option<(String, String)> = None;
    let ghost mut first_row: int = 0;
    let mut i: usize = 0;
    while i < rows.len()
        invariant
            i <= rows@.len(),
            forall|q: int|
                0 <= q < i ==> match #[trigger] docker_record(rows@, records@, q) {
                    Some(k) => docker_entry_ok(records@[k].receipt),
                    None => true,
                },
            match first {
                None => forall|q: int| 0 <= q < i ==> (#[trigger] docker_record(rows@, records@, q)) is None,
                Some((image, id)) => {
                    &&& 0 <= first_row < i
                    &&& docker_record(rows@, records@, first_row) is Some
                    &&& forall|q: int|
                        0 <= q < i ==> match #[trigger] docker_record(rows@, records@, q) {
                            Some(k) => image_ref_of(records@[k].receipt) == Some(image@) && image_id_of(records@[k].receipt)
                                == Some(id@),
                            None => true,
                        }
                },
            },
        decreases rows@.len() - i,
    {
        let row = &rows[i];
        proof {
            reveal(docker_record);
        }
        if is_docker_row(row) {
            match find_record(records, row.evidence_id.as_str()) {
                None => {},
                Some(k) => {
                    let (image, id) = docker_entry(row.evidence_id.as_str(), &records[k].receipt)?;
                    let image = image.as_str();
                    let id = id.as_str();
                    match &first {
                        None => {
                            first = Some((to_string(image), to_string(id)));
                            proof {
                                first_row = i as int;
                            }
                        },
                        Some((f_image, f_id)) => {
                            if !eq_str(f_image.as_str(), image) || !eq_str(f_id.as_str(), id) {
                                proof {
                                    assert(docker_record(rows@, records@, first_row) is Some);
                                    assert(docker_record(rows@, records@, i as int) == Some(k as int));
                                }
                                return Err(to_string("Docker receipts were not produced from one exact candidate image"));
                            }
                        },
                    }
                },
            }
        }
        i += 1;
    }
    proof {
        assert forall|a: int, b: int|
            0 <= a < rows@.len() && 0 <= b < rows@.len() implies match (
                #[trigger] docker_record(rows@, records@, a),
                #[trigger] docker_record(rows@, records@, b),
            ) {
                (Some(x), Some(y)) => image_ref_of(records@[x].receipt) == image_ref_of(records@[y].receipt) && image_id_of(
                    records@[x].receipt,
                ) == image_id_of(records@[y].receipt),
                _ => true,
            } by {
            match (docker_record(rows@, records@, a), docker_record(rows@, records@, b)) {
                (Some(x), Some(y)) => {},
                _ => {},
            }
        }
    }
    Ok(())
}

/// A row the first tag requires.
pub open spec fn row_applies(row: MatrixRow) -> bool {
    row.gate@ == "tag-ready"@ && row.requirement@ == "required"@
}

/// Source-bound static evidence needs no receipt.
pub open spec fn source_bound_exempt(row: MatrixRow) -> bool {
    row.freshness@ == "source-bound"@ && (row.evidence_kind@ == "source-ref"@ || row.evidence_kind@ == "document"@
        || row.evidence_kind@ == "test"@ || row.evidence_kind@ == "script"@)
}

/// A required row is satisfied: it is no gap, and it is source-bound static
/// evidence or has a receipt, bound in the registry, that holds.
pub open spec fn row_ready(
    row: MatrixRow,
    records: Seq<ReceiptRecord>,
    bindings: Seq<ReceiptProducerBinding>,
    head: Seq<char>,
    now: (i64, u32),
) -> bool {
    row_applies(row) ==> {
        &&& row.evidence_kind@ != "gap"@
        &&& (source_bound_exempt(row) || match (
            record_index(records, row.evidence_id@),
            binding_index(bindings, row.evidence_id@),
        ) {
            (Some(k), Some(b)) => receipt_ok(records[k], row, bindings[b], head, now),
            _ => false,
        })
    }
}

/// Nothing blocks the first tag: one Docker candidate image, and every
/// required row satisfied.
pub open spec fn tag_ready_ok(
    rows: Seq<MatrixRow>,
    records: Seq<ReceiptRecord>,
    bindings: Seq<ReceiptProducerBinding>,
    head: Seq<char>,
    now: (i64, u32),
) -> bool {
    &&& docker_identity_ok(rows, records)
    &&& forall|i: int| 0 <= i < rows.len() ==> row_ready(#[trigger] rows[i], records, bindings, head, now)
}

fn is_source_bound_exempt(row: &MatrixRow) -> (r: bool)
    ensures
        r == source_bound_exempt(*row),
{
    let k = row.evidence_kind.as_str();
    eq_str(row.freshness.as_str(), "source-bound") && (eq_str(k, "source-ref") || eq_str(k, "document") || eq_str(k, "test")
        || eq_str(k, "script"))
}

/// What blocks the first tag, one diagnostic per blocker; none exactly when
/// the tag is ready.
pub fn tag_ready_blockers(
    rows: &Vec<MatrixRow>,
    records: &Vec<ReceiptRecord>,
    bindings: &Vec<ReceiptProducerBinding>,
    head: &str,
    now: (i64, u32),
) -> (r: Vec<String>)
    requires
        now.0 < 8_000_000_000_000,
        now.1 < 1_000_000_000,
    ensures
        r@.len() == 0 <==> tag_ready_ok(rows@, records@, bindings@, head@, now),
{
    let mut blockers: Vec<String> = Vec::new();
    match validate_docker_candidate_identity(rows, records) {
        Ok(()) => {},
        Err(e) => {
            blockers.push(cat("Docker candidate identity: ", e.as_str()));
        },
    }
    let mut i: usize = 0;
    while i < rows.len()
        invariant
            i <= rows@.len(),
            now.0 < 8_000_000_000_000,
            now.1 < 1_000_000_000,
            blockers@.len() == 0 <==> (docker_identity_ok(rows@, records@) && forall|q: int|
                0 <= q < i ==> row_ready(#[trigger] rows@[q], records@, bindings@, head@, now)),
        decreases rows@.len() - i,
    {
        let row = &rows[i];
        let blocker: Option<String> = if !(eq_str(row.gate.as_str(), "tag-ready") && eq_str(row.requirement.as_str(), "required")) {
            None
        } else if eq_str(row.evidence_kind.as_str(), "gap") {
            let head_text = cat(row.requirement_id.as_str(), " remains an explicit gap: ");
            Some(cat(head_text.as_str(), row.note.as_str()))
        } else if is_source_bound_exempt(row) {
            None
        } else {
            match find_record(records, row.evidence_id.as_str()) {
                None => {
                    let a = cat(row.requirement_id.as_str(), " missing receipt ");
                    Some(cat(a.as_str(), row.evidence_id.as_str()))
                },
                Some(k) => match find_binding(bindings, row.evidence_id.as_str()) {
                    None => {
                        let a = cat3(row.requirement_id.as_str(), " receipt ", row.evidence_id.as_str());
                        Some(cat(a.as_str(), " has no producer binding"))
                    },
                    Some(b) => match validate_receipt(&records[k], row, &bindings[b], head, now) {
                        Ok(()) => None,
                        Err(e) => Some(cat3(row.requirement_id.as_str(), ": ", e.as_str())),
                    },
                },
            }
        };
        assert(blocker is None <==> row_ready(rows@[i as int], records@, bindings@, head@, now));
        match blocker {
            Some(b) => {
                blockers.push(b);
            },
            None => {},
        }
        i += 1;
    }
    blockers
}

/// The receipts of the records.
pub open spec fn record_receipts(records: Seq<ReceiptRecord>) -> Seq<Receipt> {
    records.map_values(|r: ReceiptRecord| r.receipt)
}

/// Checks the execution-group invariants of the receipts read from the
/// receipt directory (which also rules out two receipts for one evidence).
pub fn check_receipt_records(records: &Vec<ReceiptRecord>) -> (r: Result<(), String>)
    requires
        forall|i: int| 0 <= i < records@.len() ==> inputs_are_map(#[trigger] records@[i].receipt),
    ensures
        r is Ok <==> groups_ok(record_receipts(records@)),
{
    let mut refs: Vec<&Receipt> = Vec::new();
    let mut i: usize = 0;
    while i < records.len()
        invariant
            i <= records@.len(),
            refs_view(refs@) == record_receipts(records@).take(i as int),
        decreases records@.len() - i,
    {
        let ghost before = refs@;
        refs.push(&records[i].receipt);
        assert(refs_view(refs@) =~= refs_view(before).push(records@[i as int].receipt));
        assert(record_receipts(records@).take(i + 1) =~= record_receipts(records@).take(i as int).push(records@[i as int].receipt));
        i += 1;
    }
    assert(record_receipts(records@).take(records@.len() as int) =~= record_receipts(records@));
    assert forall|i: int| 0 <= i < refs@.len() implies inputs_are_map(*#[trigger] refs@[i]) by {
        assert(refs_view(refs@)[i] == *refs@[i]);
        assert(record_receipts(records@)[i] == records@[i].receipt);
    }
    validate_execution_groups(&refs, "acceptance-matrix tag-ready")
}

/// Whether the first tag may be cut: the worktree is clean (its status text is empty),
/// the receipts form consistent execution groups, and nothing blocks the
/// tag.
pub open spec fn tag_ready_decision(
    rows: Seq<MatrixRow>,
    records: Seq<ReceiptRecord>,
    bindings: Seq<ReceiptProducerBinding>,
    head: Seq<char>,
    status: Seq<char>,
    now: (i64, u32),
) -> bool {
    status.len() == 0 && groups_ok(record_receipts(records)) && tag_ready_ok(rows, records, bindings, head, now)
}

/// Decides whether the first tag may be cut: `head` is the current HEAD,
/// `status` the worktree's status text, `records` the receipts read from the
/// receipt directory, `bindings` the registry's receipt bindings and `now`
/// the clock reading.
pub fn validate(
    rows: &Vec<MatrixRow>,
    records: &Vec<ReceiptRecord>,
    bindings: &Vec<ReceiptProducerBinding>,
    head: &str,
    status: &str,
    now: (i64, u32),
) -> (r: Result<(), String>)
    requires
        now.0 < 8_000_000_000_000,
        now.1 < 1_000_000_000,
        forall|i: int| 0 <= i < records@.len() ==> inputs_are_map(#[trigger] records@[i].receipt),
    ensures
        r is Ok <==> tag_ready_decision(rows@, records@, bindings@, head@, status@, now),
{
    if chars_of(status).len() != 0 {
        return Err(to_string("acceptance-matrix tag-ready: current worktree is dirty"));
    }
    check_receipt_records(records)?;
    let blockers = tag_ready_blockers(rows, records, bindings, head, now);
    if blockers.len() == 0 {
        return Ok(());
    }
    let count = decimal_string(blockers.len() as u128);
    let head_text = cat3("acceptance-matrix tag-ready blocked by ", count.as_str(), " requirement(s):\n- ");
    Err(cat(head_text.as_str(), join(&blockers, "\n- ").as_str()))
}

/// An accepted gap is consumed at most once: where each (requirement,
/// evidence) pair is bound once, taking a pair's binding out leaves none for
/// that pair.
pub proof fn lemma_gap_consumed_once(
    bindings: Seq<((String, String), String)>,
    requirement_id: Seq<char>,
    evidence_id: Seq<char>,
)
    requires
        forall|a: int, b: int|
            0 <= a < b < bindings.len() ==> !(#[trigger] bindings[a].0.0@ == #[trigger] bindings[b].0.0@ && bindings[a].0.1@
                == bindings[b].0.1@),
        gap_index(bindings, requirement_id, evidence_id) is Some,
    ensures
        gap_index(bindings.remove(gap_index(bindings, requirement_id, evidence_id)->0), requirement_id, evidence_id) is None,
{
    let i = gap_index(bindings, requirement_id, evidence_id)->0;
    let rest = bindings.remove(i);
    assert(gap_key_is(bindings[i], requirement_id, evidence_id));
    if exists|j: int| 0 <= j < rest.len() && gap_key_is(#[trigger] rest[j], requirement_id, evidence_id) {
        let j = choose|j: int| 0 <= j < rest.len() && gap_key_is(#[trigger] rest[j], requirement_id, evidence_id);
        if j < i {
            assert(rest[j] == bindings[j]);
            assert(bindings[j].0.0@ == bindings[i].0.0@);
        } else {
            assert(rest[j] == bindings[j + 1]);
            assert(bindings[j + 1].0.0@ == bindings[i].0.0@);
        }
    }
}

proof fn lemma_record_index_bounds(records: Seq<ReceiptRecord>, id: Seq<char>)
    ensures
        match record_index(records, id) {
            Some(k) => 0 <= k < records.len() && records[k].receipt.evidence_id@ == id,
            None => true,
        },
{
    reveal(record_index);
    if exists|i: int| 0 <= i < records.len() && (#[trigger] records[i]).receipt.evidence_id@ == id {
        let k = choose|i: int|
            0 <= i < records.len() && (#[trigger] records[i]).receipt.evidence_id@ == id && forall|j: int|
                0 <= j < i ==> (#[trigger] records[j]).receipt.evidence_id@ != id;
        let w = choose|i: int| 0 <= i < records.len() && (#[trigger] records[i]).receipt.evidence_id@ == id;
        lemma_first_record(records, id, w);
    }
}

proof fn lemma_first_record(records: Seq<ReceiptRecord>, id: Seq<char>, w: int)
    requires
        0 <= w < records.len(),
        records[w].receipt.evidence_id@ == id,
    ensures
        exists|i: int|
            0 <= i < records.len() && (#[trigger] records[i]).receipt.evidence_id@ == id && forall|j: int|
                0 <= j < i ==> (#[trigger] records[j]).receipt.evidence_id@ != id,
    decreases w,
{
    if exists|j: int| 0 <= j < w && (#[trigger] records[j]).receipt.evidence_id@ == id {
        let j = choose|j: int| 0 <= j < w && (#[trigger] records[j]).receipt.evidence_id@ == id;
        lemma_first_record(records, id, j);
    } else {
        assert(records[w].receipt.evidence_id@ == id);
    }
}

proof fn lemma_binding_index_bounds(bindings: Seq<ReceiptProducerBinding>, id: Seq<char>)
    ensures
        match binding_index(bindings, id) {
            Some(b) => 0 <= b < bindings.len(),
            None => true,
        },
{
    if exists|i: int| 0 <= i < bindings.len() && (#[trigger] bindings[i]).evidence_ids.deep_view().contains(id) {
        let w = choose|i: int| 0 <= i < bindings.len() && (#[trigger] bindings[i]).evidence_ids.deep_view().contains(id);
        lemma_last_binding(bindings, id, w);
    }
}

proof fn lemma_last_binding(bindings: Seq<ReceiptProducerBinding>, id: Seq<char>, w: int)
    requires
        0 <= w < bindings.len(),
        bindings[w].evidence_ids.deep_view().contains(id),
    ensures
        exists|i: int|
            0 <= i < bindings.len() && (#[trigger] bindings[i]).evidence_ids.deep_view().contains(id) && forall|j: int|
                i < j < bindings.len() ==> !(#[trigger] bindings[j]).evidence_ids.deep_view().contains(id),
    decreases bindings.len() - w,
{
    if exists|j: int| w < j < bindings.len() && (#[trigger] bindings[j]).evidence_ids.deep_view().contains(id) {
        let j = choose|j: int| w < j < bindings.len() && (#[trigger] bindings[j]).evidence_ids.deep_view().contains(id);
        lemma_last_binding(bindings, id, j);
    } else {
        assert(bindings[w].evidence_ids.deep_view().contains(id));
    }
}

/// The first tag is ready only on real evidence: no required row is an open
/// gap, and every required row that is not source-bound static evidence has
/// a passed receipt for its evidence, captured from a clean worktree at the
/// current HEAD and bound to its registry owner's current contract.
pub proof fn lemma_ready_means_current_receipts(
    rows: Seq<MatrixRow>,
    records: Seq<ReceiptRecord>,
    bindings: Seq<ReceiptProducerBinding>,
    head: Seq<char>,
    now: (i64, u32),
)
    requires
        tag_ready_ok(rows, records, bindings, head, now),
    ensures
        forall|i: int| 0 <= i < rows.len() && row_applies(#[trigger] rows[i]) ==> rows[i].evidence_kind@ != "gap"@,
        forall|i: int|
            0 <= i < rows.len() && row_applies(#[trigger] rows[i]) && !source_bound_exempt(rows[i]) ==> exists|k: int|
                0 <= k < records.len() && {
                    let r = (#[trigger] records[k]).receipt;
                    &&& r.evidence_id@ == rows[i].evidence_id@
                    &&& r.status@ == "passed"@
                    &&& !r.dirty_before && !r.dirty_after
                    &&& r.head@ == head
                    &&& opt_view(r.head_after) == Some(head)
                    &&& exists|b: int|
                        0 <= b < bindings.len() && r.producer_id@ == (#[trigger] bindings[b]).producer_id@
                            && r.producer_contract@ == bindings[b].contract_fingerprint@
                },
{
    assert forall|i: int|
        0 <= i < rows.len() && row_applies(#[trigger] rows[i]) && !source_bound_exempt(rows[i]) implies exists|k: int|
            0 <= k < records.len() && {
                let r = (#[trigger] records[k]).receipt;
                &&& r.evidence_id@ == rows[i].evidence_id@
                &&& r.status@ == "passed"@
                &&& !r.dirty_before && !r.dirty_after
                &&& r.head@ == head
                &&& opt_view(r.head_after) == Some(head)
                &&& exists|b: int|
                    0 <= b < bindings.len() && r.producer_id@ == (#[trigger] bindings[b]).producer_id@
                        && r.producer_contract@ == bindings[b].contract_fingerprint@
            } by {
        assert(row_ready(rows[i], records, bindings, head, now));
        lemma_record_index_bounds(records, rows[i].evidence_id@);
        lemma_binding_index_bounds(bindings, rows[i].evidence_id@);
        let k = record_index(records, rows[i].evidence_id@)->0;
        let b = binding_index(bindings, rows[i].evidence_id@)->0;
        assert(receipt_ok(records[k], rows[i], bindings[b], head, now));
        assert(binding_ok(records[k].receipt, rows[i], bindings[b]));
    }
}

} // verus!
