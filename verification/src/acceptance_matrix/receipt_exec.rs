//! What one producer execution records: the request it accepts, its
//! command descriptor and execution ID, and the receipts it builds.
use super::json::{json_value, parse_json, JsonValue};
use super::producer::execution::{CommandStep, ExecutionSpec};
use super::receipt::{command_fingerprint, command_fingerprint_spec, failed_error, EvidenceSpec};
use super::receipt_limits::{add_total_bytes, validate_file_size, MAX_EXECUTION_RECEIPTS, MAX_RECEIPT_BYTES, MAX_TOTAL_RECEIPT_BYTES};
use super::receipt_model::{pairs_view, Receipt};
use crate::text::opt_view;
use crate::strset::copy_strings;
use crate::text::{
    cat, cat3, chars_of, decimal, decimal_string, eq_str, join, joined, split_char, split_str, to_string, trim, trim_str,
};
use vstd::prelude::*;

verus! {

/// The pieces that are neither empty nor `.`, in order.
pub open spec fn normal_parts(parts: Seq<Seq<char>>) -> Seq<Seq<char>>
    decreases parts.len(),
{
    if parts.len() == 0 {
        Seq::empty()
    } else if parts.last().len() > 0 && parts.last() != seq!['.'] {
        normal_parts(parts.drop_last()).push(parts.last())
    } else {
        normal_parts(parts.drop_last())
    }
}

/// The components of a path as `Path::components` yields them on Unix: a
/// root for a leading `/`, a leading `.`, then every piece that is neither
/// empty nor `.`.
pub open spec fn path_components(p: Seq<char>) -> Seq<Seq<char>> {
    let parts = split_char(p, '/');
    let lead: Seq<Seq<char>> = if p.len() > 0 && p[0] == '/' {
        seq![seq!['/']]
    } else if parts[0] == seq!['.'] {
        seq![seq!['.']]
    } else {
        Seq::empty()
    };
    lead + normal_parts(parts)
}

/// `Path::ends_with`: the components of `child` end the components of
/// `base`.
pub open spec fn path_ends_with(base: Seq<char>, child: Seq<char>) -> bool {
    let b = path_components(base);
    let c = path_components(child);
    c.len() <= b.len() && b.subrange(b.len() - c.len(), b.len() as int) == c
}

pub open spec fn evidence_ids_of(evidence: Seq<EvidenceSpec>) -> Seq<Seq<char>> {
    evidence.map_values(|e: EvidenceSpec| e.evidence_id@)
}

/// An execution request the executor accepts: one to the group limit of
/// distinct evidence bindings, each written under its own locator, at least
/// one command step, and a producer binding.
pub open spec fn request_ok(evidence: Seq<EvidenceSpec>, spec: ExecutionSpec) -> bool {
    &&& 0 < evidence.len() <= MAX_EXECUTION_RECEIPTS
    &&& spec.steps@.len() > 0
    &&& trim(spec.producer_id@).len() > 0 && trim(spec.producer_contract@).len() > 0
    &&& evidence_ids_of(evidence).no_duplicates()
    &&& forall|i: int| 0 <= i < evidence.len() ==> path_ends_with((#[trigger] evidence[i]).output@, evidence[i].evidence_ref@)
}

fn components(p: &str) -> (r: Vec<String>)
    ensures
        r.deep_view() == path_components(p@),
{
    let parts = split_str(p, '/');
    let ghost pv = parts.deep_view();
    proof {
        crate::text::lemma_split_char_nonempty(p@, '/');
    }
    let cs = chars_of(p);
    let mut out: Vec<String> = Vec::new();
    let first = chars_of(parts[0].as_str());
    if cs.len() > 0 && cs[0] == '/' {
        let root = to_string("/");
        proof {
            reveal_strlit("/");
        }
        assert(root@ =~= seq!['/']);
        out.push(root);
        assert(out.deep_view()[0] == root@);
        assert(out.deep_view() =~= seq![seq!['/']]);
    } else if first.len() == 1 && first[0] == '.' {
        let cur = to_string(".");
        proof {
            reveal_strlit(".");
        }
        assert(cur@ =~= seq!['.']);
        out.push(cur);
        assert(pv[0] =~= seq!['.']);
        assert(out.deep_view()[0] == cur@);
        assert(out.deep_view() =~= seq![seq!['.']]);
    } else {
        assert(pv[0] != seq!['.']) by {
            if pv[0] == seq!['.'] {
                assert(first@ =~= seq!['.']);
            }
        }
        assert(out.deep_view() =~= Seq::<Seq<char>>::empty());
    }
    let ghost lead = out.deep_view();
    let mut i: usize = 0;
    while i < parts.len()
        invariant
            i <= pv.len(),
            pv == parts.deep_view(),
            out.deep_view() == lead + normal_parts(pv.take(i as int)),
        decreases pv.len() - i,
    {
        let piece = chars_of(parts[i].as_str());
        assert(pv.take(i + 1).drop_last() =~= pv.take(i as int));
        assert(pv.take(i + 1).last() == pv[i as int]);
        if piece.len() > 0 && !(piece.len() == 1 && piece[0] == '.') {
            let ghost prev = out.deep_view();
            assert(pv[i as int].len() > 0 && pv[i as int] != seq!['.']) by {
                if pv[i as int] == seq!['.'] {
                    assert(piece@ =~= seq!['.']);
                }
            }
            out.push(to_string(parts[i].as_str()));
            assert(out.deep_view() =~= prev.push(pv[i as int]));
            assert(normal_parts(pv.take(i + 1)) == normal_parts(pv.take(i as int)).push(pv[i as int]));
            assert(out.deep_view() =~= lead + normal_parts(pv.take(i + 1)));
        } else {
            assert(!(pv[i as int].len() > 0 && pv[i as int] != seq!['.'])) by {
                if piece.len() == 1 {
                    assert(pv[i as int] =~= seq!['.']);
                }
            }
            assert(normal_parts(pv.take(i + 1)) == normal_parts(pv.take(i as int)));
        }
        i += 1;
    }
    assert(pv.take(pv.len() as int) =~= pv);
    out
}

/// `Path::ends_with` on text paths.
pub fn ends_with_path(base: &str, child: &str) -> (r: bool)
    ensures
        r == path_ends_with(base@, child@),
{
    let b = components(base);
    let c = components(child);
    if c.len() > b.len() {
        return false;
    }
    let offset = b.len() - c.len();
    let mut k: usize = 0;
    while k < c.len()
        invariant
            k <= c@.len(),
            offset + c@.len() == b@.len(),
            b.deep_view() == path_components(base@),
            c.deep_view() == path_components(child@),
            c@.len() == c.deep_view().len(),
            b@.len() == b.deep_view().len(),
            forall|q: int| 0 <= q < k ==> b.deep_view()[offset + q] == c.deep_view()[q],
        decreases c@.len() - k,
    {
        assert(offset + k < b.len());
        let at: usize = offset + k;
        if !eq_str(b[at].as_str(), c[k].as_str()) {
            assert(b.deep_view().subrange(offset as int, b@.len() as int)[k as int] != c.deep_view()[k as int]);
            assert(b.deep_view().subrange(offset as int, b@.len() as int) != c.deep_view());
            return false;
        }
        k += 1;
    }
    assert(b.deep_view().subrange(offset as int, b@.len() as int) =~= c.deep_view());
    true
}

/// Checks an execution request before anything runs.
/// The error a refused execution request gets, by the first check it fails:
/// the group's size, the steps, the producer binding, distinct evidence, then
/// each binding's locator in order.
pub open spec fn request_error(evidence: Seq<EvidenceSpec>, spec: ExecutionSpec) -> Seq<char> {
    if evidence.len() == 0 {
        "acceptance-receipt: at least one evidence binding is required"@
    } else if evidence.len() > MAX_EXECUTION_RECEIPTS {
        "acceptance-receipt: atomic evidence group exceeds 64 receipts"@
    } else if spec.steps@.len() == 0 {
        "acceptance-receipt: at least one command step is required"@
    } else if trim(spec.producer_id@).len() == 0 || trim(spec.producer_contract@).len() == 0 {
        "acceptance-receipt: producer binding is required"@
    } else if !evidence_ids_of(evidence).no_duplicates() {
        "acceptance-receipt: duplicate evidence binding"@
    } else {
        let k = choose|k: int|
            0 <= k < evidence.len() && !path_ends_with((#[trigger] evidence[k]).output@, evidence[k].evidence_ref@)
                && forall|q: int| 0 <= q < k ==> path_ends_with((#[trigger] evidence[q]).output@, evidence[q].evidence_ref@);
        "acceptance-receipt: output "@ + evidence[k].output@ + " must end with evidence locator "@ + evidence[k].evidence_ref@
    }
}

pub fn validate_execution_request(evidence: &Vec<EvidenceSpec>, spec: &ExecutionSpec) -> (r: Result<(), String>)
    ensures
        r is Ok <==> request_ok(evidence@, *spec),
        r matches Err(e) ==> e@ == request_error(evidence@, *spec),
{
    if evidence.len() == 0 {
        return Err(to_string("acceptance-receipt: at least one evidence binding is required"));
    }
    if evidence.len() > MAX_EXECUTION_RECEIPTS {
        return Err(to_string("acceptance-receipt: atomic evidence group exceeds 64 receipts"));
    }
    if spec.steps.len() == 0 {
        return Err(to_string("acceptance-receipt: at least one command step is required"));
    }
    if chars_of(trim_str(spec.producer_id.as_str()).as_str()).len() == 0 || chars_of(
        trim_str(spec.producer_contract.as_str()).as_str(),
    ).len() == 0 {
        return Err(to_string("acceptance-receipt: producer binding is required"));
    }
    let ghost ids = evidence_ids_of(evidence@);
    let mut i: usize = 0;
    while i < evidence.len()
        invariant
            i <= evidence@.len(),
            ids == evidence_ids_of(evidence@),
            0 < evidence@.len() <= MAX_EXECUTION_RECEIPTS,
            spec.steps@.len() > 0,
            trim(spec.producer_id@).len() > 0 && trim(spec.producer_contract@).len() > 0,
            forall|a: int, b: int| 0 <= a < b < ids.len() && a < i ==> ids[a] != ids[b],
        decreases evidence@.len() - i,
    {
        let mut j: usize = i + 1;
        while j < evidence.len()
            invariant
                i < j <= evidence@.len(),
                ids == evidence_ids_of(evidence@),
                0 < evidence@.len() <= MAX_EXECUTION_RECEIPTS,
                spec.steps@.len() > 0,
                trim(spec.producer_id@).len() > 0 && trim(spec.producer_contract@).len() > 0,
                forall|b: int| i < b < j ==> ids[i as int] != ids[b],
            decreases evidence@.len() - j,
        {
            if eq_str(evidence[i].evidence_id.as_str(), evidence[j].evidence_id.as_str()) {
                assert(ids[i as int] == ids[j as int]);
                return Err(to_string("acceptance-receipt: duplicate evidence binding"));
            }
            j += 1;
        }
        i += 1;
    }
    assert(evidence_ids_of(evidence@).no_duplicates());
    let mut i: usize = 0;
    while i < evidence.len()
        invariant
            i <= evidence@.len(),
            0 < evidence@.len() <= MAX_EXECUTION_RECEIPTS,
            spec.steps@.len() > 0,
            trim(spec.producer_id@).len() > 0 && trim(spec.producer_contract@).len() > 0,
            evidence_ids_of(evidence@).no_duplicates(),
            forall|q: int| 0 <= q < i ==> path_ends_with((#[trigger] evidence@[q]).output@, evidence@[q].evidence_ref@),
        decreases evidence@.len() - i,
    {
        let item = &evidence[i];
        if !ends_with_path(item.output.as_str(), item.evidence_ref.as_str()) {
            proof {
                let ev = evidence@;
                assert(!path_ends_with(ev[i as int].output@, ev[i as int].evidence_ref@));
                let k = choose|k: int|
                    0 <= k < ev.len() && !path_ends_with((#[trigger] ev[k]).output@, ev[k].evidence_ref@) && forall|q: int|
                        0 <= q < k ==> path_ends_with((#[trigger] ev[q]).output@, ev[q].evidence_ref@);
                if k < i {
                    assert(path_ends_with(ev[k].output@, ev[k].evidence_ref@));
                } else if k > i {
                    assert(path_ends_with(ev[i as int].output@, ev[i as int].evidence_ref@));
                }
                assert(k == i);
            }
            let a = cat("acceptance-receipt: output ", item.output.as_str());
            let b = cat(a.as_str(), " must end with evidence locator ");
            return Err(cat(b.as_str(), item.evidence_ref.as_str()));
        }
        i += 1;
    }
    Ok(())
}

/// `n` copies of the argument placeholder.
pub open spec fn arg_placeholders(n: nat) -> Seq<Seq<char>> {
    Seq::new(n, |i: int| "<arg>"@)
}

/// The descriptor of the first `n` inputs: a placeholder naming each input,
/// then its value.
pub open spec fn inputs_descriptor(inputs: Seq<(String, String)>, n: int) -> Seq<Seq<char>>
    decreases n,
{
    if n <= 0 {
        Seq::empty()
    } else {
        inputs_descriptor(inputs, n - 1) + seq!["<producer-input:"@ + inputs[n - 1].0@ + ">"@, inputs[n - 1].1@]
    }
}

/// The descriptor of the first `n` steps: each program with one placeholder
/// per argument, steps separated by a marker.
pub open spec fn steps_descriptor(steps: Seq<CommandStep>, n: int) -> Seq<Seq<char>>
    decreases n,
{
    if n <= 0 {
        Seq::empty()
    } else {
        steps_descriptor(steps, n - 1) + (if n > 1 {
            seq!["<next-step>"@]
        } else {
            Seq::empty()
        }) + seq![steps[n - 1].program@] + arg_placeholders(steps[n - 1].args@.len())
    }
}

/// What a command fingerprint covers: the bound inputs with their values,
/// and each step's program with the shape (not the text) of its arguments.
pub open spec fn descriptor_spec(spec: ExecutionSpec) -> Seq<Seq<char>> {
    inputs_descriptor(spec.producer_inputs@, spec.producer_inputs@.len() as int) + steps_descriptor(
        spec.steps@,
        spec.steps@.len() as int,
    )
}

/// The command descriptor of an execution.
pub fn command_descriptor(spec: &ExecutionSpec) -> (r: Vec<String>)
    ensures
        r.deep_view() == descriptor_spec(*spec),
{
    let mut out: Vec<String> = Vec::new();
    let mut i: usize = 0;
    while i < spec.producer_inputs.len()
        invariant
            i <= spec.producer_inputs@.len(),
            out.deep_view() == inputs_descriptor(spec.producer_inputs@, i as int),
        decreases spec.producer_inputs@.len() - i,
    {
        let ghost prev = out.deep_view();
        let a = cat("<producer-input:", spec.producer_inputs[i].0.as_str());
        let label = cat(a.as_str(), ">");
        out.push(label);
        out.push(to_string(spec.producer_inputs[i].1.as_str()));
        assert(out.deep_view() =~= prev + seq![label@, spec.producer_inputs@[i as int].1@]);
        i += 1;
    }
    let ghost head = out.deep_view();
    let mut k: usize = 0;
    while k < spec.steps.len()
        invariant
            k <= spec.steps@.len(),
            head == inputs_descriptor(spec.producer_inputs@, spec.producer_inputs@.len() as int),
            out.deep_view() == head + steps_descriptor(spec.steps@, k as int),
        decreases spec.steps@.len() - k,
    {
        let ghost prev = out.deep_view();
        if k > 0 {
            out.push(to_string("<next-step>"));
            assert(out.deep_view() =~= prev + seq!["<next-step>"@]);
        }
        let ghost sep = out.deep_view();
        out.push(to_string(spec.steps[k].program.as_str()));
        assert(out.deep_view() =~= sep.push(spec.steps@[k as int].program@));
        let ghost mid = out.deep_view();
        assert(mid =~= prev + (if k > 0 {
            seq!["<next-step>"@]
        } else {
            Seq::empty()
        }) + seq![spec.steps@[k as int].program@]);
        let n = spec.steps[k].args.len();
        let mut q: usize = 0;
        while q < n
            invariant
                q <= n,
                n == spec.steps@[k as int].args@.len(),
                out.deep_view() == mid + arg_placeholders(q as nat),
            decreases n - q,
        {
            let ghost p2 = out.deep_view();
            let a = to_string("<arg>");
            out.push(a);
            assert(out.deep_view() =~= p2.push("<arg>"@));
            assert(arg_placeholders((q + 1) as nat) =~= arg_placeholders(q as nat).push("<arg>"@));
            assert(out.deep_view() =~= mid + arg_placeholders((q + 1) as nat));
            q += 1;
        }
        assert(steps_descriptor(spec.steps@, k + 1) == steps_descriptor(spec.steps@, k as int) + (if k + 1 > 1 {
            seq!["<next-step>"@]
        } else {
            Seq::empty()
        }) + seq![spec.steps@[k as int].program@] + arg_placeholders(spec.steps@[k as int].args@.len()));
        assert(out.deep_view() =~= head + steps_descriptor(spec.steps@, k + 1));
        k += 1;
    }
    out
}

/// The text with each `:` turned into `-`.
pub open spec fn colons_to_dashes(s: Seq<char>) -> Seq<char> {
    s.map_values(|c: char| if c == ':' { '-' } else { c })
}

/// What an execution ID fingerprints: producer, contract, HEAD, start time,
/// process ID and a clock nonce.
pub open spec fn execution_material(
    spec: ExecutionSpec,
    head: Seq<char>,
    started_at: Seq<char>,
    pid: u32,
    nonce: u128,
) -> Seq<Seq<char>> {
    seq![spec.producer_id@, spec.producer_contract@, head, started_at, decimal(pid as nat), decimal(nonce as nat)]
}

/// A unique ID for one execution; `pid` is the running process's ID and
/// `nonce` a clock reading in nanoseconds.
pub fn execution_id(spec: &ExecutionSpec, head: &str, started_at: &str, pid: u32, nonce: u128) -> (r: String)
    ensures
        r@ == "exec-"@ + colons_to_dashes(command_fingerprint_spec(execution_material(*spec, head@, started_at@, pid, nonce))),
{
    let material = vec![
        to_string(spec.producer_id.as_str()),
        to_string(spec.producer_contract.as_str()),
        to_string(head),
        to_string(started_at),
        decimal_string(pid as u128),
        decimal_string(nonce),
    ];
    assert(material.deep_view() =~= execution_material(*spec, head@, started_at@, pid, nonce));
    let fingerprint = command_fingerprint(&material);
    let cs = chars_of(fingerprint.as_str());
    let mut out = to_string("exec-");
    let ghost start = out@;
    let mut i: usize = 0;
    while i < cs.len()
        invariant
            i <= cs@.len(),
            cs@ == fingerprint@,
            out@ == start + colons_to_dashes(fingerprint@).take(i as int),
        decreases cs@.len() - i,
    {
        let c = if cs[i] == ':' {
            '-'
        } else {
            cs[i]
        };
        crate::text::push_char(&mut out, c);
        assert(colons_to_dashes(fingerprint@).take(i + 1) =~= colons_to_dashes(fingerprint@).take(i as int).push(c));
        assert(out@ =~= start + colons_to_dashes(fingerprint@).take(i + 1));
        i += 1;
    }
    assert(colons_to_dashes(fingerprint@).take(cs@.len() as int) =~= colons_to_dashes(fingerprint@));
    out
}

/// The arguments of the first `n` steps, counted together.
pub open spec fn arg_total(steps: Seq<CommandStep>, n: int) -> int
    decreases n,
{
    if n <= 0 {
        0
    } else {
        arg_total(steps, n - 1) + steps[n - 1].args@.len()
    }
}

proof fn lemma_arg_total_monotone(steps: Seq<CommandStep>, i: int, j: int)
    requires
        i <= j,
    ensures
        arg_total(steps, i) <= arg_total(steps, j),
    decreases j - i,
{
    if i < j {
        lemma_arg_total_monotone(steps, i, j - 1);
    }
}

fn copy_pairs(v: &Vec<(String, String)>) -> (r: Vec<(String, String)>)
    ensures
        pairs_view(r@) == pairs_view(v@),
{
    let mut out: Vec<(String, String)> = Vec::new();
    let mut i: usize = 0;
    while i < v.len()
        invariant
            i <= v@.len(),
            out@.len() == i,
            pairs_view(out@) == pairs_view(v@.take(i as int)),
        decreases v@.len() - i,
    {
        let ghost prev = out@;
        let a = to_string(v[i].0.as_str());
        let b = to_string(v[i].1.as_str());
        out.push((a, b));
        assert(out@ == prev.push((a, b)));
        assert(pairs_view(out@)[i as int] == (a@, b@));
        assert(pairs_view(v@.take(i + 1))[i as int] == (v@[i as int].0@, v@[i as int].1@));
        assert forall|j: int| 0 <= j < i + 1 implies #[trigger] pairs_view(out@)[j] == pairs_view(v@.take(i + 1))[j] by {
            if j < i {
                assert(pairs_view(prev)[j] == pairs_view(v@.take(i as int))[j]);
            }
        }
        assert(pairs_view(out@) =~= pairs_view(v@.take(i + 1)));
        i += 1;
    }
    assert(v@.take(v@.len() as int) =~= v@);
    out
}

/// The text of a list of errors: `None` when there is none, else the errors
/// joined by `; `.
pub open spec fn errors_text(errors: Seq<Seq<char>>) -> Option<Seq<char>> {
    if errors.len() == 0 {
        None
    } else {
        Some(joined(errors, "; "@))
    }
}

/// The receipt one execution writes for one piece of evidence. `os` and
/// `arch` name the host; `exit_code` is the last command step's exit code,
/// where it had one.
pub fn build_receipt(
    item: &EvidenceSpec,
    spec: &ExecutionSpec,
    command: &Vec<String>,
    execution_id: &str,
    evidence_ids: &Vec<String>,
    head: &str,
    head_after: Option<String>,
    dirty_before: bool,
    dirty_after: bool,
    started_at: &str,
    finished_at: &str,
    exit_code: Option<i32>,
    claims: Option<JsonValue>,
    errors: &Vec<String>,
    passed: bool,
    os: &str,
    arch: &str,
) -> (r: Receipt)
    requires
        spec.steps@.len() > 0,
        arg_total(spec.steps@, spec.steps@.len() as int) <= usize::MAX,
    ensures
        r.schema == 3,
        r.producer_id@ == spec.producer_id@,
        r.producer_contract@ == spec.producer_contract@,
        r.execution_id@ == execution_id@,
        r.execution_evidence_ids.deep_view() == evidence_ids.deep_view(),
        r.evidence_id@ == item.evidence_id@,
        r.evidence_ref@ == item.evidence_ref@,
        r.head@ == head@,
        opt_view(r.head_after) == opt_view(head_after),
        r.dirty_before == dirty_before,
        r.dirty_after == dirty_after,
        r.os@ == os@,
        r.arch@ == arch@,
        r.target_os@ == item.target_os@,
        r.surface@ == item.surface@,
        r.mode@ == item.mode@,
        r.started_at@ == started_at@,
        r.finished_at@ == finished_at@,
        r.status@ == (if passed { "passed"@ } else { "failed"@ }),
        r.exit_code == exit_code,
        opt_view(r.error) == errors_text(errors.deep_view()),
        r.command_program@ == spec.steps@[0].program@,
        r.command_arg_count == arg_total(spec.steps@, spec.steps@.len() as int),
        r.command_fingerprint@ == command_fingerprint_spec(command.deep_view()),
        r.command_artifacts.deep_view() == spec.command_artifacts.deep_view(),
        pairs_view(r.producer_inputs@) == pairs_view(spec.producer_inputs@),
        r.claims == claims,
{
    let mut count: usize = 0;
    let mut k: usize = 0;
    while k < spec.steps.len()
        invariant
            k <= spec.steps@.len(),
            count == arg_total(spec.steps@, k as int),
            arg_total(spec.steps@, spec.steps@.len() as int) <= usize::MAX,
        decreases spec.steps@.len() - k,
    {
        proof {
            lemma_arg_total_monotone(spec.steps@, k + 1, spec.steps@.len() as int);
        }
        count = count + spec.steps[k].args.len();
        k += 1;
    }
    let error = if errors.len() == 0 {
        None
    } else {
        Some(join(errors, "; "))
    };
    let head_after_copy = match &head_after {
        Some(h) => Some(to_string(h.as_str())),
        None => None,
    };
    Receipt {
        schema: 3,
        producer_id: to_string(spec.producer_id.as_str()),
        producer_contract: to_string(spec.producer_contract.as_str()),
        execution_id: to_string(execution_id),
        execution_evidence_ids: copy_strings(evidence_ids),
        evidence_id: to_string(item.evidence_id.as_str()),
        evidence_ref: to_string(item.evidence_ref.as_str()),
        head: to_string(head),
        head_after: head_after_copy,
        dirty_before,
        dirty_after,
        os: to_string(os),
        arch: to_string(arch),
        target_os: to_string(item.target_os.as_str()),
        surface: to_string(item.surface.as_str()),
        mode: to_string(item.mode.as_str()),
        started_at: to_string(started_at),
        finished_at: to_string(finished_at),
        status: if passed {
            to_string("passed")
        } else {
            to_string("failed")
        },
        exit_code,
        error,
        command_program: to_string(spec.steps[0].program.as_str()),
        command_arg_count: count,
        command_fingerprint: command_fingerprint(command),
        command_artifacts: copy_strings(&spec.command_artifacts),
        producer_inputs: copy_pairs(&spec.producer_inputs),
        claims,
    }
}

/// Marks a receipt failed, adding `message` to its error text.
pub fn mark_receipt_failed(receipt: &mut Receipt, message: &str)
    ensures
        final(receipt).status@ == "failed"@,
        opt_view(final(receipt).error) == Some(
            match opt_view(old(receipt).error) {
                Some(e) => if e.len() > 0 { e + "; "@ + message@ } else { message@ },
                None => message@,
            },
        ),
        final(receipt).claims == old(receipt).claims,
        same_fields_but_outcome(*old(receipt), *final(receipt)),
{
    let e = failed_error(&receipt.error, message);
    receipt.status = to_string("failed");
    receipt.error = Some(e);
}

/// Everything but the status, the error text and the claims is the same.
pub open spec fn same_fields_but_outcome(a: Receipt, b: Receipt) -> bool {
    &&& a.schema == b.schema
    &&& a.producer_id == b.producer_id
    &&& a.producer_contract == b.producer_contract
    &&& a.execution_id == b.execution_id
    &&& a.execution_evidence_ids == b.execution_evidence_ids
    &&& a.evidence_id == b.evidence_id
    &&& a.evidence_ref == b.evidence_ref
    &&& a.head == b.head
    &&& a.head_after == b.head_after
    &&& a.dirty_before == b.dirty_before
    &&& a.dirty_after == b.dirty_after
    &&& a.os == b.os
    &&& a.arch == b.arch
    &&& a.target_os == b.target_os
    &&& a.surface == b.surface
    &&& a.mode == b.mode
    &&& a.started_at == b.started_at
    &&& a.finished_at == b.finished_at
    &&& a.exit_code == b.exit_code
    &&& a.command_program == b.command_program
    &&& a.command_arg_count == b.command_arg_count
    &&& a.command_fingerprint == b.command_fingerprint
    &&& a.command_artifacts == b.command_artifacts
    &&& a.producer_inputs == b.producer_inputs
}

/// Marks every receipt of a group failed with `message`; with `omit_claims`
/// their claims are dropped as well.
pub fn fail_receipt_group(receipts: &mut Vec<Receipt>, message: &str, omit_claims: bool)
    ensures
        final(receipts)@.len() == old(receipts)@.len(),
        forall|i: int|
            0 <= i < old(receipts)@.len() ==> failed_from(#[trigger] final(receipts)@[i], old(receipts)@[i], message@, omit_claims),
{
    let ghost original = receipts@;
    let ghost n = original.len();
    let mut stack: Vec<Receipt> = Vec::new();
    while receipts.len() > 0
        invariant
            receipts@.len() + stack@.len() == n,
            forall|i: int| 0 <= i < receipts@.len() ==> receipts@[i] == original[i],
            forall|j: int|
                0 <= j < stack@.len() ==> failed_from(#[trigger] stack@[j], original[n - 1 - j], message@, omit_claims),
        decreases receipts@.len(),
    {
        let ghost idx = receipts@.len() - 1;
        let mut r = receipts.pop().unwrap();
        assert(r == original[idx]);
        if omit_claims {
            r.claims = None;
        }
        mark_receipt_failed(&mut r, message);
        stack.push(r);
    }
    while stack.len() > 0
        invariant
            receipts@.len() + stack@.len() == n,
            forall|j: int|
                0 <= j < stack@.len() ==> failed_from(#[trigger] stack@[j], original[n - 1 - j], message@, omit_claims),
            forall|i: int| 0 <= i < receipts@.len() ==> failed_from(#[trigger] receipts@[i], original[i], message@, omit_claims),
        decreases stack@.len(),
    {
        let r = stack.pop().unwrap();
        receipts.push(r);
    }
}

/// `after` is `before` marked failed with `message`, its claims dropped
/// where `omit_claims` says so.
pub open spec fn failed_from(after: Receipt, before: Receipt, message: Seq<char>, omit_claims: bool) -> bool {
    &&& after.status@ == "failed"@
    &&& opt_view(after.error) == Some(
        match opt_view(before.error) {
            Some(e) => if e.len() > 0 { e + "; "@ + message } else { message },
            None => message,
        },
    )
    &&& after.claims == (if omit_claims { None } else { before.claims })
    &&& same_fields_but_outcome(before, after)
}

/// How one command step ended, as the runner saw it.
#[derive(Debug)]
pub enum StepOutcome {
    /// The time left for the producer ran out before the step could start.
    Expired,
    /// The step exited; `code` is its exit code, where it had one.
    Exited { success: bool, code: Option<i32> },
    /// The step could not be run or waited for.
    Failed(String),
}

/// What the runner does after a command step: the error it records, if
/// any, and whether it goes on to the next step.
pub fn after_step(program: &str, outcome: &StepOutcome) -> (r: (Option<String>, bool))
    ensures
        opt_view(r.0) == match *outcome {
            StepOutcome::Expired => Some("producer timeout expired before the next command step"@),
            StepOutcome::Exited { success, .. } => if success {
                None
            } else {
                Some("command step "@ + program@ + " returned a non-zero exit status"@)
            },
            StepOutcome::Failed(e) => Some(e@),
        },
        r.1 == (*outcome matches StepOutcome::Exited { success, .. } && success),
{
    match outcome {
        StepOutcome::Expired => (Some(to_string("producer timeout expired before the next command step")), false),
        StepOutcome::Exited { success, .. } => {
            if *success {
                (None, true)
            } else {
                (Some(cat3("command step ", program, " returned a non-zero exit status")), false)
            }
        },
        StepOutcome::Failed(e) => (Some(to_string(e.as_str())), false),
    }
}

/// The error a cleanup step records, if any.
pub fn cleanup_error(program: &str, outcome: &StepOutcome) -> (r: Option<String>)
    ensures
        opt_view(r) == match *outcome {
            StepOutcome::Exited { success, .. } => if success {
                None
            } else {
                Some("cleanup step "@ + program@ + " failed"@)
            },
            StepOutcome::Failed(e) => Some("cleanup step "@ + program@ + " failed: "@ + e@),
            StepOutcome::Expired => Some("cleanup step "@ + program@ + " failed"@),
        },
{
    match outcome {
        StepOutcome::Exited { success, .. } => {
            if *success {
                None
            } else {
                Some(cat3("cleanup step ", program, " failed"))
            }
        },
        StepOutcome::Failed(e) => {
            let head = cat3("cleanup step ", program, " failed: ");
            Some(cat(head.as_str(), e.as_str()))
        },
        StepOutcome::Expired => Some(cat3("cleanup step ", program, " failed")),
    }
}

/// Whether an execution passed before its evidence is read: no error was
/// recorded and the last command step ran and succeeded.
pub fn execution_passed(errors: &Vec<String>, last: &Option<StepOutcome>) -> (r: bool)
    ensures
        r == (errors@.len() == 0 && match *last {
            Some(StepOutcome::Exited { success, .. }) => success,
            _ => false,
        }),
{
    errors.len() == 0 && match last {
        Some(StepOutcome::Exited { success, .. }) => *success,
        _ => false,
    }
}

/// The message every receipt of a group gets when one of them failed.
pub open spec fn group_failed_message() -> Seq<char> {
    "execution group failed because at least one evidence receipt failed"@
}

/// Before a group is published: where any receipt failed, the whole group is
/// marked failed.
pub fn settle_receipt_group(receipts: &mut Vec<Receipt>)
    ensures
        final(receipts)@.len() == old(receipts)@.len(),
        (exists|i: int| 0 <= i < old(receipts)@.len() && #[trigger] old(receipts)@[i].status@ != "passed"@) ==> forall|i: int|
            0 <= i < old(receipts)@.len() ==> failed_from(
                #[trigger] final(receipts)@[i],
                old(receipts)@[i],
                group_failed_message(),
                false,
            ),
        (forall|i: int| 0 <= i < old(receipts)@.len() ==> #[trigger] old(receipts)@[i].status@ == "passed"@) ==> final(receipts)@ == old(receipts)@,
{
    let mut any_failed = false;
    let mut i: usize = 0;
    while i < receipts.len()
        invariant
            i <= receipts@.len(),
            any_failed == exists|j: int| 0 <= j < i && #[trigger] receipts@[j].status@ != "passed"@,
        decreases receipts@.len() - i,
    {
        if !eq_str(receipts[i].status.as_str(), "passed") {
            any_failed = true;
        }
        i += 1;
    }
    if any_failed {
        fail_receipt_group(receipts, "execution group failed because at least one evidence receipt failed", false);
    }
}

/// The evidence IDs of the receipts that did not pass, in order.
pub fn failed_evidence(receipts: &Vec<Receipt>) -> (r: Vec<String>)
    ensures
        r.deep_view() == receipts@.filter(|x: Receipt| x.status@ != "passed"@).map_values(|x: Receipt| x.evidence_id@),
{
    let mut out: Vec<String> = Vec::new();
    let mut i: usize = 0;
    while i < receipts.len()
        invariant
            i <= receipts@.len(),
            out.deep_view() == receipts@.take(i as int).filter(|x: Receipt| x.status@ != "passed"@).map_values(
                |x: Receipt| x.evidence_id@,
            ),
        decreases receipts@.len() - i,
    {
        let ghost prev = out.deep_view();
        assert(receipts@.take(i + 1).drop_last() =~= receipts@.take(i as int));
        reveal(Seq::filter);
        if !eq_str(receipts[i].status.as_str(), "passed") {
            out.push(to_string(receipts[i].evidence_id.as_str()));
            assert(out.deep_view() =~= prev.push(receipts@[i as int].evidence_id@));
        }
        assert(out.deep_view() =~= receipts@.take(i + 1).filter(|x: Receipt| x.status@ != "passed"@).map_values(
            |x: Receipt| x.evidence_id@,
        ));
        i += 1;
    }
    assert(receipts@.take(receipts@.len() as int) =~= receipts@);
    out
}

/// Reads a claims file's content, counting its bytes against the group's
/// budget. Content that is not JSON is refused and not counted.
pub fn read_claims_content(content: &Vec<u8>, claims_total: &mut u64) -> (r: Result<JsonValue, String>)
    ensures
        match json_value(content@) {
            None => r matches Err(e) && e@ == "claims file is not JSON"@ && *final(claims_total) == *old(claims_total),
            Some(v) => if *old(claims_total) + content@.len() <= MAX_TOTAL_RECEIPT_BYTES {
                r == Ok::<JsonValue, String>(v) && *final(claims_total) == *old(claims_total) + content@.len()
            } else {
                r matches Err(e) && e@ == "acceptance-receipt: claims group"@ + (if *old(claims_total) + content@.len()
                    > u64::MAX {
                    " byte count overflowed"@
                } else {
                    " exceeds 16777216 bytes"@
                }) && *final(claims_total) == *old(claims_total)
            },
        },
{
    let value = match parse_json(content) {
        Some(v) => v,
        None => {
            return Err(to_string("claims file is not JSON"));
        },
    };
    let n = content.len() as u64;
    match add_total_bytes("acceptance-receipt: claims group", claims_total, n) {
        Ok(()) => Ok(value),
        Err(e) => Err(e),
    }
}

/// The sum of the first `n` sizes.
pub open spec fn size_sum(sizes: Seq<u64>, n: int) -> int
    decreases n,
{
    if n <= 0 {
        0
    } else {
        size_sum(sizes, n - 1) + sizes[n - 1]
    }
}

proof fn lemma_size_sum_monotone(sizes: Seq<u64>, i: int, j: int)
    requires
        0 <= i <= j <= sizes.len(),
    ensures
        size_sum(sizes, i) <= size_sum(sizes, j),
    decreases j - i,
{
    if i < j {
        lemma_size_sum_monotone(sizes, i, j - 1);
    }
}

/// A serialized group fits its publication bounds: each receipt within the
/// per-file limit and all of them within the aggregate limit.
pub open spec fn publication_fits(sizes: Seq<u64>) -> bool {
    &&& forall|i: int| 0 <= i < sizes.len() ==> #[trigger] sizes[i] <= MAX_RECEIPT_BYTES
    &&& size_sum(sizes, sizes.len() as int) <= MAX_TOTAL_RECEIPT_BYTES
}

/// Checks the serialized sizes of a receipt group, in order, against the
/// per-file and aggregate publication limits.
pub fn check_publication_sizes(sizes: &Vec<u64>) -> (r: Result<(), String>)
    ensures
        r is Ok <==> publication_fits(sizes@),
{
    let mut total: u64 = 0;
    let mut i: usize = 0;
    while i < sizes.len()
        invariant
            i <= sizes@.len(),
            total == size_sum(sizes@, i as int),
            total <= MAX_TOTAL_RECEIPT_BYTES,
            forall|j: int| 0 <= j < i ==> #[trigger] sizes@[j] <= MAX_RECEIPT_BYTES,
        decreases sizes@.len() - i,
    {
        if let Err(e) = validate_file_size("acceptance-receipt: serialized receipt", sizes[i]) {
            return Err(e);
        }
        if let Err(e) = add_total_bytes("acceptance-receipt: serialized receipt group", &mut total, sizes[i]) {
            proof {
                lemma_size_sum_monotone(sizes@, i + 1, sizes@.len() as int);
            }
            return Err(e);
        }
        i += 1;
    }
    Ok(())
}

/// What a group that does not fit its publication bounds becomes: every
/// receipt failed, its claims omitted.
pub fn omit_claims_for_bounds(receipts: &mut Vec<Receipt>)
    ensures
        final(receipts)@.len() == old(receipts)@.len(),
        forall|i: int|
            0 <= i < old(receipts)@.len() ==> failed_from(
                #[trigger] final(receipts)@[i],
                old(receipts)@[i],
                "serialized receipt group exceeded the bounded publication limit; claims were omitted"@,
                true,
            ),
{
    fail_receipt_group(
        receipts,
        "serialized receipt group exceeded the bounded publication limit; claims were omitted",
        true,
    );
}

/// The evidence ids an execution produces, as the ordered set every one of
/// its receipts records.
pub fn execution_evidence_ids(evidence: &Vec<EvidenceSpec>) -> (r: Vec<String>)
    ensures
        crate::strset::sorted(r.deep_view()),
        r.deep_view().to_set() == evidence_ids_of(evidence@).to_set(),
{
    let mut ids: Vec<String> = Vec::new();
    let mut i: usize = 0;
    while i < evidence.len()
        invariant
            i <= evidence@.len(),
            crate::strset::sorted(ids.deep_view()),
            ids.deep_view().to_set() == evidence_ids_of(evidence@).take(i as int).to_set(),
        decreases evidence@.len() - i,
    {
        crate::strset::set_insert(&mut ids, to_string(evidence[i].evidence_id.as_str()));
        assert(evidence_ids_of(evidence@).take(i + 1) =~= evidence_ids_of(evidence@).take(i as int).push(
            evidence@[i as int].evidence_id@,
        ));
        proof {
            evidence_ids_of(evidence@).take(i as int).lemma_push_to_set_commute(evidence@[i as int].evidence_id@);
        }
        assert(ids.deep_view().to_set() =~= evidence_ids_of(evidence@).take(i + 1).to_set());
        i += 1;
    }
    assert(evidence_ids_of(evidence@).take(evidence@.len() as int) =~= evidence_ids_of(evidence@));
    ids
}

/// What a receipt group's publication does once its receipts are
/// serialized.
#[derive(Debug)]
pub enum Publication {
    /// The serialized group fits its bounds: write it.
    Publish,
    /// It did not fit: the group was failed with its claims omitted;
    /// serialize it again.
    Retry,
    /// Even without claims it does not fit: refuse with this error.
    Refuse(String),
}

/// Decides a receipt group's bounded publication from the serialized sizes
/// of its receipts. The group is settled beforehand (`settle_receipt_group`);
/// where the sizes do not fit, it is failed once with its claims omitted and
/// serialized again, and a second misfit is refused.
pub fn bound_publication(receipts: &mut Vec<Receipt>, sizes: &Vec<u64>, claims_omitted: bool) -> (r: Publication)
    ensures
        publication_fits(sizes@) ==> r is Publish && final(receipts)@ == old(receipts)@,
        !publication_fits(sizes@) && !claims_omitted ==> {
            &&& r is Retry
            &&& final(receipts)@.len() == old(receipts)@.len()
            &&& forall|i: int|
                0 <= i < old(receipts)@.len() ==> failed_from(
                    #[trigger] final(receipts)@[i],
                    old(receipts)@[i],
                    "serialized receipt group exceeded the bounded publication limit; claims were omitted"@,
                    true,
                )
        },
        !publication_fits(sizes@) && claims_omitted ==> (r matches Publication::Refuse(e) && e@
            == "acceptance-receipt: bounded failed receipt group could not be serialized"@ && final(receipts)@ == old(
            receipts,
        )@),
{
    match check_publication_sizes(sizes) {
        Ok(()) => Publication::Publish,
        Err(_) => {
            if claims_omitted {
                Publication::Refuse(to_string("acceptance-receipt: bounded failed receipt group could not be serialized"))
            } else {
                omit_claims_for_bounds(receipts);
                Publication::Retry
            }
        },
    }
}

} // verus!
