//! Producer registry contract: evidence ownership and dependencies.
use super::model::{Producer, ProducerRegistry};
use crate::acceptance_matrix::model::MatrixRow;
use crate::strset::{contains_str_in, is_subset, set_insert, sorted};
use crate::text::{cat, cat3, eq_str, to_string};
use vstd::prelude::*;

verus! {

/// The last producer with id `id`.
pub open spec fn producer_index(ps: Seq<Producer>, id: Seq<char>) -> Option<int> {
    if exists|i: int| 0 <= i < ps.len() && ps[i].producer_id@ == id && forall|j: int| i < j < ps.len() ==> #[trigger] ps[j].producer_id@ != id {
        Some(choose|i: int| 0 <= i < ps.len() && ps[i].producer_id@ == id && forall|j: int| i < j < ps.len() ==> #[trigger] ps[j].producer_id@ != id)
    } else {
        None
    }
}

pub fn find_producer(ps: &Vec<Producer>, id: &str) -> (r: Option<usize>)
    ensures
        match r {
            Some(i) => producer_index(ps@, id@) == Some(i as int) && i < ps.len(),
            None => producer_index(ps@, id@) is None && forall|j: int| 0 <= j < ps@.len() ==> #[trigger] ps@[j].producer_id@ != id@,
        },
{
    let mut i: usize = ps.len();
    while i > 0
        invariant
            i <= ps.len(),
            forall|j: int| i <= j < ps@.len() ==> #[trigger] ps@[j].producer_id@ != id@,
        decreases i,
    {
        i -= 1;
        if eq_str(ps[i].producer_id.as_str(), id) {
            proof {
                let c = choose|c: int| 0 <= c < ps@.len() && ps@[c].producer_id@ == id@ && forall|j: int| c < j < ps@.len() ==> #[trigger] ps@[j].producer_id@ != id@;
                if c < i {
                    assert(ps@[i as int].producer_id@ != id@);
                } else if c > i {
                    assert(ps@[c].producer_id@ != id@);
                }
            }
            return Some(i);
        }
    }
    None
}

pub open spec fn producer_deps(ps: Seq<Producer>, id: Seq<char>) -> Set<Seq<char>> {
    match producer_index(ps, id) {
        Some(k) => ps[k].dependencies.deep_view().to_set(),
        None => Set::empty(),
    }
}

/// A set holding every producer whose dependencies it holds.
pub open spec fn settled(t: Set<Seq<char>>, ps: Seq<Producer>, ids: Set<Seq<char>>) -> bool {
    forall|id: Seq<char>| #[trigger] ids.contains(id) && producer_deps(ps, id).subset_of(t) ==> t.contains(id)
}

/// Every producer is reached by settling its dependencies first.
pub open spec fn producers_acyclic(ps: Seq<Producer>, ids: Set<Seq<char>>) -> bool {
    forall|id: Seq<char>, t: Set<Seq<char>>| #[trigger] ids.contains(id) && #[trigger] settled(t, ps, ids) ==> t.contains(id)
}

/// Each dependency names another known producer that supports every tier
/// of its dependent.
pub open spec fn dependency_edges_ok(ps: Seq<Producer>, ids: Set<Seq<char>>) -> bool {
    forall|i: int, d: int| 0 <= i < ps.len() && 0 <= d < ps[i].dependencies@.len() ==> #[trigger] edge_ok(ps, ids, i, d)
}

/// Dependency `d` of producer `i` is another known producer supporting
/// every tier of producer `i`.
pub open spec fn edge_ok(ps: Seq<Producer>, ids: Set<Seq<char>>, i: int, d: int) -> bool {
    let dep = ps[i].dependencies@[d]@;
    &&& dep != ps[i].producer_id@
    &&& ids.contains(dep)
    &&& match producer_index(ps, dep) {
        Some(k) => ps[i].tiers.deep_view().to_set().subset_of(ps[k].tiers.deep_view().to_set()),
        None => false,
    }
}

pub open spec fn count_in_ids(ids: Seq<Seq<char>>, s: Set<Seq<char>>, n: int) -> nat
    decreases n,
{
    if n <= 0 {
        0
    } else {
        count_in_ids(ids, s, n - 1) + if s.contains(ids[n - 1]) {
            1nat
        } else {
            0nat
        }
    }
}

proof fn lemma_count_in_ids(ids: Seq<Seq<char>>, s1: Set<Seq<char>>, s2: Set<Seq<char>>, n: int)
    requires
        s1.subset_of(s2),
        0 <= n,
    ensures
        count_in_ids(ids, s1, n) <= count_in_ids(ids, s2, n),
        count_in_ids(ids, s2, n) <= n,
        (exists|i: int| 0 <= i < n && s2.contains(#[trigger] ids[i]) && !s1.contains(ids[i]))
            ==> count_in_ids(ids, s1, n) < count_in_ids(ids, s2, n),
    decreases n,
{
    if n > 0 {
        lemma_count_in_ids(ids, s1, s2, n - 1);
    }
}

fn check_acyclic(ps: &Vec<Producer>, ids: &Vec<String>) -> (r: Result<(), String>)
    ensures
        r is Ok <==> producers_acyclic(ps@, ids.deep_view().to_set()),
        r matches Err(e) ==> exists|x: Seq<char>| #[trigger] ids.deep_view().to_set().contains(x) && e@ == cycle_error(x),
{
    let ghost iv = ids.deep_view();
    let ghost is = iv.to_set();
    let mut marked: Vec<String> = Vec::new();
    loop
        invariant
            iv == ids.deep_view(),
            is == iv.to_set(),
            sorted(marked.deep_view()),
            forall|t: Set<Seq<char>>| settled(t, ps@, is) ==> marked.deep_view().to_set().subset_of(t),
        ensures
            forall|t: Set<Seq<char>>| settled(t, ps@, is) ==> marked.deep_view().to_set().subset_of(t),
            settled(marked.deep_view().to_set(), ps@, is),
        decreases iv.len() - count_in_ids(iv, marked.deep_view().to_set(), iv.len() as int),
    {
        let ghost m0 = marked.deep_view().to_set();
        let mut grew = false;
        let mut i: usize = 0;
        while i < ids.len()
            invariant
                iv == ids.deep_view(),
                is == iv.to_set(),
                i <= ids.len(),
                sorted(marked.deep_view()),
                m0.subset_of(marked.deep_view().to_set()),
                forall|t: Set<Seq<char>>| settled(t, ps@, is) ==> marked.deep_view().to_set().subset_of(t),
                !grew ==> marked.deep_view().to_set() == m0,
                grew ==> exists|j: int| 0 <= j < i && marked.deep_view().to_set().contains(#[trigger] iv[j]) && !m0.contains(iv[j]),
                !grew ==> forall|j: int| 0 <= j < i && producer_deps(ps@, #[trigger] iv[j]).subset_of(m0) ==> m0.contains(iv[j]),
            decreases ids.len() - i,
        {
            let id = ids[i].as_str();
            assert(iv[i as int] == id@);
            let ready = match find_producer(ps, id) {
                Some(k) => is_subset(&ps[k].dependencies, &marked),
                None => true,
            };
            assert(ready == producer_deps(ps@, id@).subset_of(marked.deep_view().to_set()));
            if ready {
                let ghost before = marked.deep_view().to_set();
                proof {
                    assert forall|t: Set<Seq<char>>| settled(t, ps@, is) implies t.contains(id@) by {
                        assert(before.subset_of(t));
                        assert(is.contains(id@));
                    }
                }
                if set_insert(&mut marked, ids[i].clone()) {
                    grew = true;
                    assert(marked.deep_view().to_set().contains(iv[i as int]));
                }
            }
            i += 1;
        }
        proof {
            lemma_count_in_ids(iv, m0, marked.deep_view().to_set(), iv.len() as int);
        }
        if !grew {
            proof {
                assert forall|x: Seq<char>| #[trigger] is.contains(x) && producer_deps(ps@, x).subset_of(m0) implies m0.contains(x) by {
                    let j = choose|j: int| 0 <= j < iv.len() && iv[j] == x;
                }
            }
            break;
        }
    }
    let mut i: usize = 0;
    while i < ids.len()
        invariant
            iv == ids.deep_view(),
            is == iv.to_set(),
            i <= ids.len(),
            forall|t: Set<Seq<char>>| settled(t, ps@, is) ==> marked.deep_view().to_set().subset_of(t),
            settled(marked.deep_view().to_set(), ps@, is),
            forall|j: int| 0 <= j < i ==> marked.deep_view().to_set().contains(#[trigger] iv[j]),
        decreases ids.len() - i,
    {
        assert(iv[i as int] == ids@[i as int]@);
        if !contains_str_in(&marked, ids[i].as_str()) {
            proof {
                let t = marked.deep_view().to_set();
                assert(is.contains(iv[i as int]));
                if producers_acyclic(ps@, is) {
                    assert(is.contains(iv[i as int]) && settled(t, ps@, is));
                    assert(t.contains(iv[i as int]));
                }
            }
            assert(is.contains(iv[i as int]));
            return Err(cat("acceptance producers: dependency cycle includes ", ids[i].as_str()));
        }
        i += 1;
    }
    proof {
        assert forall|id: Seq<char>, t: Set<Seq<char>>| #[trigger] is.contains(id) && #[trigger] settled(t, ps@, is) implies t.contains(id) by {
            let j = choose|j: int| 0 <= j < iv.len() && iv[j] == id;
            assert(marked.deep_view().to_set().contains(iv[j]));
        }
    }
    Ok(())
}

/// The refusal of a dependency cycle through producer `x`.
pub open spec fn cycle_error(x: Seq<char>) -> Seq<char> {
    "acceptance producers: dependency cycle includes "@ + x
}

/// Checks dependency edges and rejects cycles among the producers, given
/// the set of producer ids. Where every edge is sound and yet the producers
/// are not acyclic, the refusal names a producer of the set in a cycle's
/// reach.
pub fn validate_dependencies(registry: &ProducerRegistry, producer_ids: &Vec<String>) -> (r: Result<(), String>)
    ensures
        r is Ok <==> dependency_edges_ok(registry.producers@, producer_ids.deep_view().to_set()) && producers_acyclic(
            registry.producers@,
            producer_ids.deep_view().to_set(),
        ),
        r matches Err(e) ==> (dependency_edges_ok(registry.producers@, producer_ids.deep_view().to_set()) ==> exists|
            x: Seq<char>,
        | #[trigger] producer_ids.deep_view().to_set().contains(x) && e@ == cycle_error(x)),
{
    let ghost ps = registry.producers@;
    let mut i: usize = 0;
    while i < registry.producers.len()
        invariant
            ps == registry.producers@,
            i <= ps.len(),
            forall|q: int, d: int|
                0 <= q < i && 0 <= d < ps[q].dependencies@.len() ==> #[trigger] edge_ok(ps, producer_ids.deep_view().to_set(), q, d),
        decreases ps.len() - i,
    {
        let p = &registry.producers[i];
        let id = p.producer_id.as_str();
        let mut d: usize = 0;
        while d < p.dependencies.len()
            invariant
                ps == registry.producers@,
                i < ps.len(),
                *p == ps[i as int],
                id@ == ps[i as int].producer_id@,
                d <= p.dependencies.len(),
                forall|q: int, e: int|
                    0 <= q < i && 0 <= e < ps[q].dependencies@.len() ==> #[trigger] edge_ok(ps, producer_ids.deep_view().to_set(), q, e),
                forall|e: int| 0 <= e < d ==> #[trigger] edge_ok(ps, producer_ids.deep_view().to_set(), i as int, e),
            decreases p.dependencies.len() - d,
        {
            let dep = p.dependencies[d].as_str();
            assert(ps[i as int].dependencies@[d as int]@ == dep@);
            let ghost ok_here = edge_ok(ps, producer_ids.deep_view().to_set(), i as int, d as int);
            if eq_str(dep, id) {
                return Err(cat3("acceptance producers: ", id, " may not depend on itself"));
            }
            if !contains_str_in(producer_ids, dep) {
                let head = cat3("acceptance producers: ", id, " references unknown dependency ");
                return Err(cat(head.as_str(), dep));
            }
            let k = match find_producer(&registry.producers, dep) {
                Some(k) => k,
                None => {
                    return Err(cat("acceptance producers: unknown dependency ", dep));
                },
            };
            if !is_subset(&p.tiers, &registry.producers[k].tiers) {
                let head = cat3("acceptance producers: dependency ", dep, " must support every tier used by ");
                return Err(cat(head.as_str(), id));
            }
            assert(edge_ok(ps, producer_ids.deep_view().to_set(), i as int, d as int));
            d += 1;
        }
        i += 1;
    }
    check_acyclic(&registry.producers, producer_ids)
}

pub open spec fn executable_kind(k: Seq<char>) -> bool {
    k == "test"@ || k == "script"@ || k == "receipt"@
}

/// The rows with executable evidence, in order.
pub open spec fn executable_rows(rows: Seq<MatrixRow>) -> Seq<MatrixRow>
    decreases rows.len(),
{
    if rows.len() == 0 {
        Seq::empty()
    } else if executable_kind(rows.last().evidence_kind@) {
        executable_rows(rows.drop_last()).push(rows.last())
    } else {
        executable_rows(rows.drop_last())
    }
}

/// Two rows bind the same evidence the same way.
pub open spec fn rows_consistent(a: MatrixRow, b: MatrixRow) -> bool {
    a.evidence_kind@ == b.evidence_kind@ && a.evidence_ref@ == b.evidence_ref@ && a.surface@ == b.surface@ && a.mode@
        == b.mode@
}

/// Repeated executable evidence is declared consistently.
pub open spec fn executable_rows_consistent(er: Seq<MatrixRow>) -> bool {
    forall|i: int, j: int|
        0 <= i < j < er.len() && #[trigger] er[i].evidence_id@ == #[trigger] er[j].evidence_id@ ==> rows_consistent(er[i], er[j])
}

fn same_binding(a: &MatrixRow, b: &MatrixRow) -> (r: bool)
    ensures
        r == rows_consistent(*a, *b),
{
    eq_str(a.evidence_kind.as_str(), b.evidence_kind.as_str()) && eq_str(a.evidence_ref.as_str(), b.evidence_ref.as_str())
        && eq_str(a.surface.as_str(), b.surface.as_str()) && eq_str(a.mode.as_str(), b.mode.as_str())
}

/// The executable evidence rows, when repeated evidence is consistent.
pub fn matrix_executable_evidence(rows: &Vec<MatrixRow>) -> (r: Result<Vec<MatrixRow>, String>)
    ensures
        r is Ok <==> executable_rows_consistent(executable_rows(rows@)),
        r matches Ok(er) ==> er@ == executable_rows(rows@),
{
    let mut out: Vec<MatrixRow> = Vec::new();
    let mut i: usize = 0;
    while i < rows.len()
        invariant
            i <= rows.len(),
            out@ == executable_rows(rows@.take(i as int)),
            executable_rows_consistent(out@),
        decreases rows.len() - i,
    {
        assert(rows@.take(i + 1).drop_last() =~= rows@.take(i as int));
        assert(rows@.take(i + 1).last() == rows@[i as int]);
        let row = &rows[i];
        let k = row.evidence_kind.as_str();
        if eq_str(k, "test") || eq_str(k, "script") || eq_str(k, "receipt") {
            let mut j: usize = 0;
            while j < out.len()
                invariant
                    j <= out.len(),
                    i < rows.len(),
                    *row == rows@[i as int],
                    executable_kind(row.evidence_kind@),
                    out@ == executable_rows(rows@.take(i as int)),
                    rows@.take(i + 1).drop_last() == rows@.take(i as int),
                    rows@.take(i + 1).last() == rows@[i as int],
                    forall|q: int| 0 <= q < j && #[trigger] out@[q].evidence_id@ == row.evidence_id@ ==> rows_consistent(out@[q], *row),
                decreases out.len() - j,
            {
                if eq_str(out[j].evidence_id.as_str(), row.evidence_id.as_str()) && !same_binding(&out[j], row) {
                    proof {
                        lemma_executable_rows_prefix(rows@, i + 1);
                        let er = executable_rows(rows@);
                        let n = out@.len() as int;
                        assert(executable_rows(rows@.take(i + 1)) == out@.push(*row));
                        assert(er[j as int] == out@[j as int]);
                        assert(er[n] == *row);
                        assert(!executable_rows_consistent(er));
                    }
                    return Err(cat3("acceptance producers: repeated evidence ", row.evidence_id.as_str(), " has inconsistent fields"));
                }
                j += 1;
            }
            let ghost o0 = out@;
            out.push(row.duplicate());
            assert(out@ == o0.push(*row));
            assert forall|a: int, b: int|
                0 <= a < b < out@.len() && #[trigger] out@[a].evidence_id@ == #[trigger] out@[b].evidence_id@ implies rows_consistent(out@[a], out@[b]) by {
                if b == o0.len() {
                    assert(out@[a] == o0[a]);
                } else {
                    assert(out@[a] == o0[a] && out@[b] == o0[b]);
                }
            }
        }
        i += 1;
    }
    assert(rows@.take(rows.len() as int) =~= rows@);
    Ok(out)
}

proof fn lemma_executable_rows_prefix(rows: Seq<MatrixRow>, n: int)
    requires
        0 <= n <= rows.len(),
    ensures
        executable_rows(rows.take(n)).len() <= executable_rows(rows).len(),
        forall|q: int| 0 <= q < executable_rows(rows.take(n)).len() ==> #[trigger] executable_rows(rows)[q] == executable_rows(rows.take(n))[q],
    decreases rows.len(),
{
    if n == rows.len() {
        assert(rows.take(n) =~= rows);
    } else {
        assert(rows.drop_last().take(n) =~= rows.take(n));
        lemma_executable_rows_prefix(rows.drop_last(), n);
    }
}

} // verus!
