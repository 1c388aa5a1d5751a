//! Cross-artifact receipt execution-group invariants: the receipts of one
//! execution form its complete, consistent evidence group.
use super::receipt_model::{inputs_are_map, pairs_view, same_context, Receipt};
use crate::text::opt_view;
use crate::strset::{contains_str_in, is_subset, strs_eq};
use crate::text::{cat, cat3, chars_of, eq_str, trim, trim_str};
use vstd::prelude::*;

verus! {

/// The receipt names its producer, contract and execution.
pub open spec fn binding_present(r: Receipt) -> bool {
    trim(r.producer_id@).len() > 0 && trim(r.producer_contract@).len() > 0 && trim(r.execution_id@).len() > 0
}

/// The receipt's declared execution evidence names each ID once and
/// includes its own evidence.
pub open spec fn evidence_set_ok(r: Receipt) -> bool {
    r.execution_evidence_ids.deep_view().no_duplicates() && r.execution_evidence_ids.deep_view().contains(r.evidence_id@)
}

/// The evidence IDs of the receipts of execution `id`.
pub open spec fn group_ids(rs: Seq<Receipt>, id: Seq<char>) -> Set<Seq<char>> {
    Set::new(|e: Seq<char>| exists|j: int| 0 <= j < rs.len() && (#[trigger] rs[j]).execution_id@ == id && rs[j].evidence_id@ == e)
}

pub open spec fn evidence_ids_of(rs: Seq<Receipt>) -> Seq<Seq<char>> {
    rs.map_values(|r: Receipt| r.evidence_id@)
}

/// Every receipt is bound to an execution, no evidence has two receipts, and
/// the receipts of each execution carry one context and exactly the evidence
/// the execution declares.
pub open spec fn groups_ok(rs: Seq<Receipt>) -> bool {
    &&& forall|i: int| 0 <= i < rs.len() ==> binding_present(#[trigger] rs[i])
    &&& evidence_ids_of(rs).no_duplicates()
    &&& forall|i: int| 0 <= i < rs.len() ==> evidence_set_ok(#[trigger] rs[i])
    &&& forall|i: int|
        0 <= i < rs.len() ==> (#[trigger] rs[i]).execution_evidence_ids.deep_view().to_set() == group_ids(rs, rs[i].execution_id@)
    &&& forall|i: int, j: int|
        0 <= i < rs.len() && 0 <= j < rs.len() && (#[trigger] rs[i]).execution_id@ == (#[trigger] rs[j]).execution_id@
            ==> same_context(rs[i], rs[j])
}

fn opt_text_eq(a: &Option<String>, b: &Option<String>) -> (r: bool)
    ensures
        r == (opt_view(*a) == opt_view(*b)),
{
    match (a, b) {
        (Some(x), Some(y)) => eq_str(x.as_str(), y.as_str()),
        (None, None) => true,
        _ => false,
    }
}

fn pairs_eq(a: &Vec<(String, String)>, b: &Vec<(String, String)>) -> (r: bool)
    ensures
        r == (pairs_view(a@) == pairs_view(b@)),
{
    if a.len() != b.len() {
        assert(pairs_view(a@).len() != pairs_view(b@).len());
        return false;
    }
    let mut i: usize = 0;
    while i < a.len()
        invariant
            i <= a@.len(),
            a@.len() == b@.len(),
            forall|k: int| 0 <= k < i ==> pairs_view(a@)[k] == pairs_view(b@)[k],
        decreases a@.len() - i,
    {
        if !eq_str(a[i].0.as_str(), b[i].0.as_str()) || !eq_str(a[i].1.as_str(), b[i].1.as_str()) {
            assert(pairs_view(a@)[i as int] != pairs_view(b@)[i as int]);
            return false;
        }
        i += 1;
    }
    assert(pairs_view(a@) =~= pairs_view(b@));
    true
}

/// Whether two receipts come from one execution context.
pub fn same_execution_context(left: &Receipt, right: &Receipt) -> (r: bool)
    ensures
        r == same_context(*left, *right),
{
    eq_str(left.producer_id.as_str(), right.producer_id.as_str()) && eq_str(
        left.producer_contract.as_str(),
        right.producer_contract.as_str(),
    ) && eq_str(left.execution_id.as_str(), right.execution_id.as_str()) && eq_str(left.head.as_str(), right.head.as_str())
        && opt_text_eq(&left.head_after, &right.head_after) && left.dirty_before == right.dirty_before && left.dirty_after
        == right.dirty_after && eq_str(left.os.as_str(), right.os.as_str()) && eq_str(left.arch.as_str(), right.arch.as_str())
        && eq_str(left.started_at.as_str(), right.started_at.as_str()) && eq_str(
        left.finished_at.as_str(),
        right.finished_at.as_str(),
    ) && eq_str(left.status.as_str(), right.status.as_str()) && left.exit_code == right.exit_code && eq_str(
        left.command_program.as_str(),
        right.command_program.as_str(),
    ) && left.command_arg_count == right.command_arg_count && eq_str(
        left.command_fingerprint.as_str(),
        right.command_fingerprint.as_str(),
    ) && strs_eq(&left.command_artifacts, &right.command_artifacts) && pairs_eq(
        &left.producer_inputs,
        &right.producer_inputs,
    )
}

fn no_duplicate_strings(v: &Vec<String>) -> (r: bool)
    ensures
        r == v.deep_view().no_duplicates(),
{
    let mut i: usize = 0;
    while i < v.len()
        invariant
            i <= v@.len(),
            forall|a: int, b: int| 0 <= a < b < v@.len() && a < i ==> v.deep_view()[a] != v.deep_view()[b],
        decreases v@.len() - i,
    {
        let mut j: usize = i + 1;
        while j < v.len()
            invariant
                i < j <= v@.len(),
                forall|a: int, b: int| 0 <= a < b < v@.len() && a < i ==> v.deep_view()[a] != v.deep_view()[b],
                forall|b: int| i < b < j ==> v.deep_view()[i as int] != v.deep_view()[b],
            decreases v@.len() - j,
        {
            if eq_str(v[i].as_str(), v[j].as_str()) {
                assert(v.deep_view()[i as int] == v.deep_view()[j as int]);
                return false;
            }
            j += 1;
        }
        i += 1;
    }
    true
}

/// Checks that a receipt's declared execution evidence names each ID once
/// and includes its own evidence.
pub fn evidence_set(receipt: &Receipt, label: &str) -> (r: Result<(), String>)
    ensures
        r is Ok <==> evidence_set_ok(*receipt),
{
    if !no_duplicate_strings(&receipt.execution_evidence_ids) || !contains_str_in(
        &receipt.execution_evidence_ids,
        receipt.evidence_id.as_str(),
    ) {
        return Err(cat(label, ": receipt execution evidence set is invalid"));
    }
    Ok(())
}

fn is_blank(s: &str) -> (r: bool)
    ensures
        r == (trim(s@).len() == 0),
{
    chars_of(trim_str(s).as_str()).len() == 0
}

pub open spec fn refs_view(v: Seq<&Receipt>) -> Seq<Receipt> {
    v.map_values(|r: &Receipt| *r)
}

/// Checks the execution-group invariants of a set of receipts (`label`
/// prefixes each diagnostic).
pub fn validate_execution_groups(receipts: &Vec<&Receipt>, label: &str) -> (r: Result<(), String>)
    requires
        forall|i: int| 0 <= i < receipts@.len() ==> inputs_are_map(*#[trigger] receipts@[i]),
    ensures
        r is Ok <==> groups_ok(refs_view(receipts@)),
{
    let ghost rs = refs_view(receipts@);
    let mut i: usize = 0;
    while i < receipts.len()
        invariant
            rs == refs_view(receipts@),
            i <= rs.len(),
            forall|q: int| 0 <= q < i ==> binding_present(#[trigger] rs[q]),
            forall|a: int, b: int| 0 <= a < b < rs.len() && a < i ==> evidence_ids_of(rs)[a] != evidence_ids_of(rs)[b],
        decreases rs.len() - i,
    {
        let r = receipts[i];
        assert(*r == rs[i as int]);
        if is_blank(r.producer_id.as_str()) || is_blank(r.producer_contract.as_str()) || is_blank(r.execution_id.as_str()) {
            assert(!binding_present(rs[i as int]));
            return Err(cat(label, ": receipt producer/execution binding is missing"));
        }
        let mut j: usize = i + 1;
        while j < receipts.len()
            invariant
                rs == refs_view(receipts@),
                i < j <= rs.len(),
                forall|b: int| i < b < j ==> evidence_ids_of(rs)[i as int] != evidence_ids_of(rs)[b],
            decreases rs.len() - j,
        {
            if eq_str(receipts[i].evidence_id.as_str(), receipts[j].evidence_id.as_str()) {
                assert(evidence_ids_of(rs)[i as int] == evidence_ids_of(rs)[j as int]);
                let head = cat(label, ": duplicate receipt evidence_id ");
                return Err(cat(head.as_str(), receipts[i].evidence_id.as_str()));
            }
            j += 1;
        }
        i += 1;
    }
    assert(evidence_ids_of(rs).no_duplicates());
    let mut i: usize = 0;
    while i < receipts.len()
        invariant
            rs == refs_view(receipts@),
            i <= rs.len(),
            forall|q: int| 0 <= q < rs.len() ==> binding_present(#[trigger] rs[q]),
            evidence_ids_of(rs).no_duplicates(),
            forall|q: int| 0 <= q < i ==> evidence_set_ok(#[trigger] rs[q]),
            forall|q: int|
                0 <= q < i ==> (#[trigger] rs[q]).execution_evidence_ids.deep_view().to_set() == group_ids(rs, rs[q].execution_id@),
            forall|a: int, b: int|
                0 <= a < rs.len() && 0 <= b < rs.len() && a < i && (#[trigger] rs[a]).execution_id@ == (#[trigger] rs[b]).execution_id@
                    ==> same_context(rs[a], rs[b]),
        decreases rs.len() - i,
    {
        let r = receipts[i];
        evidence_set(r, label)?;
        let mut observed: Vec<String> = Vec::new();
        let mut j: usize = 0;
        while j < receipts.len()
            invariant
                rs == refs_view(receipts@),
                i < rs.len(),
                j <= rs.len(),
                *r == rs[i as int],
                forall|e: Seq<char>|
                    observed.deep_view().contains(e) <==> exists|q: int|
                        0 <= q < j && (#[trigger] rs[q]).execution_id@ == rs[i as int].execution_id@ && rs[q].evidence_id@ == e,
                forall|b: int|
                    0 <= b < j && (#[trigger] rs[b]).execution_id@ == rs[i as int].execution_id@ ==> same_context(rs[i as int], rs[b]),
            decreases rs.len() - j,
        {
            if eq_str(receipts[j].execution_id.as_str(), r.execution_id.as_str()) {
                assert(rs[j as int].execution_id@ == rs[i as int].execution_id@);
                if !same_execution_context(r, receipts[j]) {
                    assert(!same_context(rs[i as int], rs[j as int]));
                    let head = cat3(label, ": mixed or inconsistent receipt execution group ", r.execution_id.as_str());
                    return Err(head);
                }
                let ghost before = observed.deep_view();
                observed.push(crate::text::to_string(receipts[j].evidence_id.as_str()));
                assert(observed.deep_view() =~= before.push(rs[j as int].evidence_id@));
                assert forall|e: Seq<char>|
                    observed.deep_view().contains(e) <==> exists|q: int|
                        0 <= q < j + 1 && (#[trigger] rs[q]).execution_id@ == rs[i as int].execution_id@ && rs[q].evidence_id@ == e by {
                    if observed.deep_view().contains(e) && !before.contains(e) {
                        assert(e == rs[j as int].evidence_id@);
                    }
                    if exists|q: int|
                        0 <= q < j + 1 && (#[trigger] rs[q]).execution_id@ == rs[i as int].execution_id@ && rs[q].evidence_id@ == e {
                        let q = choose|q: int|
                            0 <= q < j + 1 && (#[trigger] rs[q]).execution_id@ == rs[i as int].execution_id@ && rs[q].evidence_id@ == e;
                        if q < j {
                            assert(before.contains(e));
                            let w = choose|w: int| 0 <= w < before.len() && before[w] == e;
                            assert(observed.deep_view()[w] == e);
                        } else {
                            assert(observed.deep_view()[before.len() as int] == e);
                        }
                    }
                }
            }
            j += 1;
        }
        let ghost declared = r.execution_evidence_ids.deep_view().to_set();
        let ghost group = group_ids(rs, rs[i as int].execution_id@);
        assert(observed.deep_view().to_set() =~= group) by {
            assert forall|e: Seq<char>| observed.deep_view().to_set().contains(e) <==> group.contains(e) by {}
        }
        if !is_subset(&observed, &r.execution_evidence_ids) || !is_subset(&r.execution_evidence_ids, &observed) {
            proof {
                if declared == group {
                    assert(observed.deep_view().to_set() == declared);
                }
            }
            let head = cat3(label, ": execution ", r.execution_id.as_str());
            return Err(cat(head.as_str(), " is missing evidence or contains undeclared evidence"));
        }
        assert(declared =~= group);
        i += 1;
    }
    Ok(())
}

/// Receipts of one execution agree: each declares the same evidence group,
/// which is exactly the evidence of the execution's receipts, and they share
/// one execution context.
pub proof fn lemma_group_agreement(rs: Seq<Receipt>, i: int, j: int)
    requires
        groups_ok(rs),
        0 <= i < rs.len(),
        0 <= j < rs.len(),
        rs[i].execution_id@ == rs[j].execution_id@,
    ensures
        rs[i].execution_evidence_ids.deep_view().to_set() == rs[j].execution_evidence_ids.deep_view().to_set(),
        rs[i].execution_evidence_ids.deep_view().contains(rs[j].evidence_id@),
        same_context(rs[i], rs[j]),
{
    assert(rs[j].execution_evidence_ids.deep_view().contains(rs[j].evidence_id@));
    assert(rs[j].execution_evidence_ids.deep_view().to_set().contains(rs[j].evidence_id@));
    assert(group_ids(rs, rs[i].execution_id@).contains(rs[j].evidence_id@));
}

} // verus!
