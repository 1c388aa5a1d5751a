//! What the registry binds each receipt to: its owning producer, that
//! producer's contract fingerprint, evidence group, artifacts and bound
//! inputs.
use super::model::{Producer, ProducerRegistry};
use crate::acceptance_matrix::model::MatrixRow;
use crate::strset::{contains_str_in, copy_strings};
use crate::text::{eq_str, to_string};
use vstd::prelude::*;

verus! {

#[derive(Debug)]
pub struct ReceiptProducerBinding {
    pub producer_id: String,
    pub contract_fingerprint: String,
    /// The producer's evidence that the matrix proves by receipt.
    pub evidence_ids: Vec<String>,
    pub artifacts: Vec<String>,
    pub bound_env: Vec<String>,
}

/// The matrix proves evidence `id` by receipt.
pub open spec fn receipt_id(rows: Seq<MatrixRow>, id: Seq<char>) -> bool {
    exists|j: int| 0 <= j < rows.len() && (#[trigger] rows[j]).evidence_kind@ == "receipt"@ && rows[j].evidence_id@ == id
}

/// The first `n` evidence IDs that the matrix proves by receipt, in order.
pub open spec fn receipt_evidence(ids: Seq<Seq<char>>, rows: Seq<MatrixRow>, n: int) -> Seq<Seq<char>>
    decreases n,
{
    if n <= 0 {
        Seq::empty()
    } else if receipt_id(rows, ids[n - 1]) {
        receipt_evidence(ids, rows, n - 1).push(ids[n - 1])
    } else {
        receipt_evidence(ids, rows, n - 1)
    }
}

pub open spec fn receipt_evidence_of(p: Producer, rows: Seq<MatrixRow>) -> Seq<Seq<char>> {
    receipt_evidence(p.evidence_ids.deep_view(), rows, p.evidence_ids@.len() as int)
}

/// The producers among the first `n` that own receipt evidence, by index.
pub open spec fn receipt_owners(ps: Seq<Producer>, rows: Seq<MatrixRow>, n: int) -> Seq<int>
    decreases n,
{
    if n <= 0 {
        Seq::empty()
    } else if receipt_evidence_of(ps[n - 1], rows).len() > 0 {
        receipt_owners(ps, rows, n - 1).push(n - 1)
    } else {
        receipt_owners(ps, rows, n - 1)
    }
}

/// The binding of producer `p`, whose contract fingerprint is `fingerprint`.
pub open spec fn binding_matches(b: ReceiptProducerBinding, p: Producer, fingerprint: Seq<char>, rows: Seq<MatrixRow>) -> bool {
    &&& b.producer_id@ == p.producer_id@
    &&& b.contract_fingerprint@ == fingerprint
    &&& b.evidence_ids.deep_view() == receipt_evidence_of(p, rows)
    &&& b.artifacts.deep_view() == p.artifacts.deep_view()
    &&& b.bound_env.deep_view() == p.bound_env.deep_view()
}

/// The binding that governs receipt `id`: the last one whose evidence holds
/// it (a later producer overrides an earlier one).
pub open spec fn binding_index(bs: Seq<ReceiptProducerBinding>, id: Seq<char>) -> Option<int> {
    if exists|i: int| 0 <= i < bs.len() && (#[trigger] bs[i]).evidence_ids.deep_view().contains(id) {
        Some(
            choose|i: int|
                0 <= i < bs.len() && (#[trigger] bs[i]).evidence_ids.deep_view().contains(id) && forall|j: int|
                    i < j < bs.len() ==> !(#[trigger] bs[j]).evidence_ids.deep_view().contains(id),
        )
    } else {
        None
    }
}

fn is_receipt_id(rows: &Vec<MatrixRow>, id: &str) -> (r: bool)
    ensures
        r == receipt_id(rows@, id@),
{
    let mut j: usize = 0;
    while j < rows.len()
        invariant
            j <= rows@.len(),
            forall|q: int| 0 <= q < j ==> !((#[trigger] rows@[q]).evidence_kind@ == "receipt"@ && rows@[q].evidence_id@ == id@),
        decreases rows@.len() - j,
    {
        if eq_str(rows[j].evidence_kind.as_str(), "receipt") && eq_str(rows[j].evidence_id.as_str(), id) {
            return true;
        }
        j += 1;
    }
    false
}

/// The binding of every producer that owns receipt evidence, in registry
/// order; `fingerprints` holds each producer's contract fingerprint, by
/// position.
pub fn receipt_bindings(rows: &Vec<MatrixRow>, registry: &ProducerRegistry, fingerprints: &Vec<String>) -> (r: Vec<
    ReceiptProducerBinding,
>)
    requires
        fingerprints@.len() == registry.producers@.len(),
    ensures
        r@.len() == receipt_owners(registry.producers@, rows@, registry.producers@.len() as int).len(),
        forall|i: int|
            0 <= i < r@.len() ==> {
                let k = #[trigger] receipt_owners(registry.producers@, rows@, registry.producers@.len() as int)[i];
                binding_matches(r@[i], registry.producers@[k], fingerprints@[k]@, rows@)
            },
{
    let ps = &registry.producers;
    let ghost pv = ps@;
    let mut out: Vec<ReceiptProducerBinding> = Vec::new();
    let mut k: usize = 0;
    while k < ps.len()
        invariant
            pv == ps@,
            pv == registry.producers@,
            fingerprints@.len() == pv.len(),
            k <= pv.len(),
            out@.len() == receipt_owners(pv, rows@, k as int).len(),
            forall|i: int|
                0 <= i < out@.len() ==> {
                    let q = #[trigger] receipt_owners(pv, rows@, k as int)[i];
                    binding_matches(out@[i], pv[q], fingerprints@[q]@, rows@)
                },
        decreases pv.len() - k,
    {
        let p = &ps[k];
        let mut evidence: Vec<String> = Vec::new();
        let mut e: usize = 0;
        while e < p.evidence_ids.len()
            invariant
                e <= p.evidence_ids@.len(),
                evidence.deep_view() == receipt_evidence(p.evidence_ids.deep_view(), rows@, e as int),
            decreases p.evidence_ids@.len() - e,
        {
            if is_receipt_id(rows, p.evidence_ids[e].as_str()) {
                let ghost before = evidence.deep_view();
                evidence.push(to_string(p.evidence_ids[e].as_str()));
                assert(evidence.deep_view() =~= before.push(p.evidence_ids.deep_view()[e as int]));
            }
            e += 1;
        }
        let ghost prev = receipt_owners(pv, rows@, k as int);
        if evidence.len() > 0 {
            let artifacts = copy_strings(&p.artifacts);
            let bound_env = copy_strings(&p.bound_env);
            let binding = ReceiptProducerBinding {
                producer_id: to_string(p.producer_id.as_str()),
                contract_fingerprint: to_string(fingerprints[k].as_str()),
                evidence_ids: evidence,
                artifacts,
                bound_env,
            };
            out.push(binding);
            proof {
                assert(receipt_owners(pv, rows@, k + 1) == prev.push(k as int));
                assert forall|i: int|
                    0 <= i < out@.len() implies {
                    let q = #[trigger] receipt_owners(pv, rows@, k + 1)[i];
                    binding_matches(out@[i], pv[q], fingerprints@[q]@, rows@)
                } by {
                    if i < prev.len() {
                        assert(receipt_owners(pv, rows@, k + 1)[i] == prev[i]);
                    }
                }
            }
        } else {
            assert(receipt_owners(pv, rows@, k + 1) == prev);
        }
        k += 1;
    }
    out
}

/// The binding that governs receipt `evidence_id`, by position.
pub fn find_binding(bindings: &Vec<ReceiptProducerBinding>, evidence_id: &str) -> (r: Option<usize>)
    ensures
        match r {
            Some(i) => binding_index(bindings@, evidence_id@) == Some(i as int) && i < bindings@.len(),
            None => binding_index(bindings@, evidence_id@) is None,
        },
{
    let mut i: usize = bindings.len();
    while i > 0
        invariant
            i <= bindings@.len(),
            forall|j: int| i <= j < bindings@.len() ==> !(#[trigger] bindings@[j]).evidence_ids.deep_view().contains(evidence_id@),
        decreases i,
    {
        i -= 1;
        if contains_str_in(&bindings[i].evidence_ids, evidence_id) {
            proof {
                let c = choose|c: int|
                    0 <= c < bindings@.len() && (#[trigger] bindings@[c]).evidence_ids.deep_view().contains(evidence_id@)
                        && forall|j: int|
                        c < j < bindings@.len() ==> !(#[trigger] bindings@[j]).evidence_ids.deep_view().contains(evidence_id@);
                if c < i {
                    assert(!bindings@[i as int].evidence_ids.deep_view().contains(evidence_id@));
                } else if c > i {
                    assert(!bindings@[c].evidence_ids.deep_view().contains(evidence_id@));
                }
            }
            return Some(i);
        }
    }
    None
}

} // verus!
