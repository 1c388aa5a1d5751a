//! The executable-evidence backlog: acceptance cases that only documents
//! cover, and cases that no executable evidence covers, grouped by family.
use crate::acceptance_matrix::model::MatrixRow;
use crate::strset::{contains_str_in, set_insert, sorted};
use crate::text::{eq_str, split_once_spec, split_once_str, to_string};
use vstd::prelude::*;

verus! {

/// The case ids the rows name (`none` names no case).
pub open spec fn named_cases(rows: Seq<MatrixRow>) -> Set<Seq<char>> {
    Set::new(|c: Seq<char>| c != "none"@ && exists|i: int| 0 <= i < rows.len() && (#[trigger] rows[i]).case_id@ == c)
}

/// Every row of the case is document evidence.
pub open spec fn document_only(rows: Seq<MatrixRow>, c: Seq<char>) -> bool {
    forall|i: int| 0 <= i < rows.len() && (#[trigger] rows[i]).case_id@ == c ==> rows[i].evidence_kind@ == "document"@
}

/// Some row of the case binds evidence that a producer executes.
pub open spec fn automated(rows: Seq<MatrixRow>, executable: Set<Seq<char>>, c: Seq<char>) -> bool {
    exists|i: int| 0 <= i < rows.len() && (#[trigger] rows[i]).case_id@ == c && executable.contains(rows[i].evidence_id@)
}

/// A case's family: its id up to the first `-`.
pub open spec fn family_of(c: Seq<char>) -> Seq<char> {
    match split_once_spec(c, '-') {
        Some(p) => p.0,
        None => c,
    }
}

/// The families of the cases.
pub open spec fn families(cases: Seq<Seq<char>>) -> Set<Seq<char>> {
    Set::new(|f: Seq<char>| exists|i: int| 0 <= i < cases.len() && family_of(#[trigger] cases[i]) == f)
}

pub open spec fn group_keys(groups: Seq<(String, Vec<String>)>) -> Seq<Seq<char>> {
    groups.map_values(|g: (String, Vec<String>)| g.0@)
}

/// The cases grouped by family: one group per family in family order, each
/// holding its cases in their order.
pub open spec fn grouped(groups: Seq<(String, Vec<String>)>, cases: Seq<Seq<char>>) -> bool {
    &&& sorted(group_keys(groups))
    &&& group_keys(groups).to_set() == families(cases)
    &&& forall|k: int|
        0 <= k < groups.len() ==> (#[trigger] groups[k]).1.deep_view() == cases.filter(
            |c: Seq<char>| family_of(c) == groups[k].0@,
        )
}

/// The backlog report's content.
#[derive(Debug)]
pub struct Backlog {
    pub document_only_total: usize,
    pub unautomated_total: usize,
    pub document_only_by_family: Vec<(String, Vec<String>)>,
    pub unautomated_by_family: Vec<(String, Vec<String>)>,
}

fn family(c: &str) -> (r: String)
    ensures
        r@ == family_of(c@),
{
    match split_once_str(c, '-') {
        Some((a, _)) => a,
        None => to_string(c),
    }
}

/// The cases whose rows are all documents, and the cases that no executable
/// evidence covers, each as an ordered set.
pub fn backlog_cases(rows: &Vec<MatrixRow>, executable: &Vec<String>) -> (r: (Vec<String>, Vec<String>))
    ensures
        sorted(r.0.deep_view()),
        r.0.deep_view().to_set() == Set::new(|c: Seq<char>| named_cases(rows@).contains(c) && document_only(rows@, c)),
        sorted(r.1.deep_view()),
        r.1.deep_view().to_set() == Set::new(
            |c: Seq<char>| named_cases(rows@).contains(c) && !automated(rows@, executable.deep_view().to_set(), c),
        ),
{
    let ghost rv = rows@;
    let ghost ev = executable.deep_view().to_set();
    let mut cases: Vec<String> = Vec::new();
    let mut i: usize = 0;
    while i < rows.len()
        invariant
            rv == rows@,
            i <= rv.len(),
            sorted(cases.deep_view()),
            cases.deep_view().to_set() == Set::new(
                |c: Seq<char>| c != "none"@ && exists|q: int| 0 <= q < i && (#[trigger] rv[q]).case_id@ == c,
            ),
        decreases rv.len() - i,
    {
        let ghost before = cases.deep_view().to_set();
        if !eq_str(rows[i].case_id.as_str(), "none") {
            set_insert(&mut cases, to_string(rows[i].case_id.as_str()));
        }
        assert(cases.deep_view().to_set() =~= Set::new(
            |c: Seq<char>| c != "none"@ && exists|q: int| 0 <= q < i + 1 && (#[trigger] rv[q]).case_id@ == c,
        )) by {
            assert forall|c: Seq<char>|
                (c != "none"@ && exists|q: int| 0 <= q < i + 1 && (#[trigger] rv[q]).case_id@ == c) implies #[trigger] cases.deep_view().to_set().contains(c) by {
                let q = choose|q: int| 0 <= q < i + 1 && (#[trigger] rv[q]).case_id@ == c;
                if q < i {
                    assert(before.contains(c));
                }
            }
        }
        i += 1;
    }
    assert(cases.deep_view().to_set() =~= named_cases(rv));
    let mut doc: Vec<String> = Vec::new();
    let mut open: Vec<String> = Vec::new();
    let mut k: usize = 0;
    while k < cases.len()
        invariant
            rv == rows@,
            ev == executable.deep_view().to_set(),
            k <= cases@.len(),
            cases.deep_view().to_set() == named_cases(rv),
            sorted(doc.deep_view()),
            sorted(open.deep_view()),
            doc.deep_view().to_set() == Set::new(
                |c: Seq<char>| (exists|q: int| 0 <= q < k && cases.deep_view()[q] == c) && document_only(rv, c),
            ),
            open.deep_view().to_set() == Set::new(
                |c: Seq<char>| (exists|q: int| 0 <= q < k && cases.deep_view()[q] == c) && !automated(rv, ev, c),
            ),
        decreases cases@.len() - k,
    {
        let c = cases[k].as_str();
        assert(cases.deep_view()[k as int] == c@);
        let mut only_docs = true;
        let mut covered = false;
        let mut j: usize = 0;
        while j < rows.len()
            invariant
                rv == rows@,
                ev == executable.deep_view().to_set(),
                j <= rv.len(),
                only_docs == forall|q: int| 0 <= q < j && (#[trigger] rv[q]).case_id@ == c@ ==> rv[q].evidence_kind@ == "document"@,
                covered == exists|q: int| 0 <= q < j && (#[trigger] rv[q]).case_id@ == c@ && ev.contains(rv[q].evidence_id@),
            decreases rv.len() - j,
        {
            if eq_str(rows[j].case_id.as_str(), c) {
                if !eq_str(rows[j].evidence_kind.as_str(), "document") {
                    only_docs = false;
                }
                if contains_str_in(executable, rows[j].evidence_id.as_str()) {
                    covered = true;
                }
            }
            j += 1;
        }
        let ghost d0 = doc.deep_view().to_set();
        let ghost o0 = open.deep_view().to_set();
        if only_docs {
            set_insert(&mut doc, to_string(c));
        }
        if !covered {
            set_insert(&mut open, to_string(c));
        }
        assert(doc.deep_view().to_set() =~= Set::new(
            |x: Seq<char>| (exists|q: int| 0 <= q < k + 1 && cases.deep_view()[q] == x) && document_only(rv, x),
        )) by {
            assert forall|x: Seq<char>|
                (exists|q: int| 0 <= q < k + 1 && cases.deep_view()[q] == x) && document_only(rv, x) implies #[trigger] doc.deep_view().to_set().contains(x) by {
                let q = choose|q: int| 0 <= q < k + 1 && cases.deep_view()[q] == x;
                if q < k {
                    assert(d0.contains(x));
                }
            }
        }
        assert(open.deep_view().to_set() =~= Set::new(
            |x: Seq<char>| (exists|q: int| 0 <= q < k + 1 && cases.deep_view()[q] == x) && !automated(rv, ev, x),
        )) by {
            assert forall|x: Seq<char>|
                (exists|q: int| 0 <= q < k + 1 && cases.deep_view()[q] == x) && !automated(rv, ev, x) implies #[trigger] open.deep_view().to_set().contains(x) by {
                let q = choose|q: int| 0 <= q < k + 1 && cases.deep_view()[q] == x;
                if q < k {
                    assert(o0.contains(x));
                }
            }
        }
        k += 1;
    }
    assert(doc.deep_view().to_set() =~= Set::new(|c: Seq<char>| named_cases(rows@).contains(c) && document_only(rows@, c)))
        by {
        assert forall|c: Seq<char>| named_cases(rows@).contains(c) && document_only(rows@, c) implies #[trigger] doc.deep_view().to_set().contains(c) by {
            assert(cases.deep_view().to_set().contains(c));
        }
    }
    assert(open.deep_view().to_set() =~= Set::new(
        |c: Seq<char>| named_cases(rows@).contains(c) && !automated(rows@, executable.deep_view().to_set(), c),
    )) by {
        assert forall|c: Seq<char>| named_cases(rows@).contains(c) && !automated(rows@, ev, c) implies #[trigger] open.deep_view().to_set().contains(c) by {
            assert(cases.deep_view().to_set().contains(c));
        }
    }
    (doc, open)
}

/// Groups ordered cases by family.
pub fn group_by_family(cases: &Vec<String>) -> (r: Vec<(String, Vec<String>)>)
    ensures
        grouped(r@, cases.deep_view()),
{
    let ghost cv = cases.deep_view();
    let mut fams: Vec<String> = Vec::new();
    let mut i: usize = 0;
    while i < cases.len()
        invariant
            cv == cases.deep_view(),
            i <= cv.len(),
            sorted(fams.deep_view()),
            fams.deep_view().to_set() == families(cv.take(i as int)),
        decreases cv.len() - i,
    {
        let ghost before = fams.deep_view().to_set();
        let f = family(cases[i].as_str());
        assert(cv[i as int] == cases@[i as int]@);
        set_insert(&mut fams, f);
        assert(fams.deep_view().to_set() =~= families(cv.take(i + 1))) by {
            assert forall|x: Seq<char>| #[trigger] families(cv.take(i + 1)).contains(x) implies fams.deep_view().to_set().contains(x) by {
                let q = choose|q: int| 0 <= q < cv.take(i + 1).len() && family_of(#[trigger] cv.take(i + 1)[q]) == x;
                if q < i {
                    assert(cv.take(i as int)[q] == cv.take(i + 1)[q]);
                    assert(before.contains(x));
                }
            }
            assert forall|x: Seq<char>| #[trigger] fams.deep_view().to_set().contains(x) implies families(cv.take(i + 1)).contains(x) by {
                if before.contains(x) {
                    let q = choose|q: int| 0 <= q < cv.take(i as int).len() && family_of(#[trigger] cv.take(i as int)[q]) == x;
                    assert(cv.take(i as int)[q] == cv.take(i + 1)[q]);
                } else {
                    assert(cv.take(i + 1)[i as int] == cv[i as int]);
                }
            }
        }
        i += 1;
    }
    assert(cv.take(cv.len() as int) =~= cv);
    let mut groups: Vec<(String, Vec<String>)> = Vec::new();
    let mut k: usize = 0;
    while k < fams.len()
        invariant
            cv == cases.deep_view(),
            k <= fams@.len(),
            sorted(fams.deep_view()),
            fams.deep_view().to_set() == families(cv),
            group_keys(groups@) == fams.deep_view().take(k as int),
            forall|g: int|
                0 <= g < groups@.len() ==> (#[trigger] groups@[g]).1.deep_view() == cv.filter(
                    |c: Seq<char>| family_of(c) == groups@[g].0@,
                ),
        decreases fams@.len() - k,
    {
        let f = fams[k].as_str();
        let mut members: Vec<String> = Vec::new();
        let mut j: usize = 0;
        while j < cases.len()
            invariant
                cv == cases.deep_view(),
                j <= cv.len(),
                members.deep_view() == cv.take(j as int).filter(|c: Seq<char>| family_of(c) == f@),
            decreases cv.len() - j,
        {
            let ghost prev = members.deep_view();
            assert(cv.take(j + 1).drop_last() =~= cv.take(j as int));
            assert(cv[j as int] == cases@[j as int]@);
            reveal(Seq::filter);
            let fj = family(cases[j].as_str());
            if eq_str(fj.as_str(), f) {
                members.push(to_string(cases[j].as_str()));
                assert(members.deep_view() =~= prev.push(cv[j as int]));
            }
            assert(members.deep_view() =~= cv.take(j + 1).filter(|c: Seq<char>| family_of(c) == f@));
            j += 1;
        }
        assert(cv.take(cv.len() as int) =~= cv);
        let ghost g0 = groups@;
        let name = to_string(f);
        let ghost entry = (name, members);
        groups.push((name, members));
        assert(groups@ == g0.push(entry));
        assert(group_keys(groups@) =~= group_keys(g0).push(entry.0@));
        assert(fams.deep_view()[k as int] == fams@[k as int]@);
        assert(fams.deep_view().take(k + 1) =~= fams.deep_view().take(k as int).push(fams.deep_view()[k as int]));
        k += 1;
    }
    assert(fams.deep_view().take(fams@.len() as int) =~= fams.deep_view());
    groups
}

/// The backlog of the matrix, given the evidence ids that producers
/// execute.
pub fn backlog(rows: &Vec<MatrixRow>, executable: &Vec<String>) -> (r: Backlog)
    ensures
        exists|doc: Seq<Seq<char>>, open: Seq<Seq<char>>|
            {
                &&& sorted(doc) && doc.to_set() == Set::new(
                    |c: Seq<char>| named_cases(rows@).contains(c) && document_only(rows@, c),
                )
                &&& sorted(open) && open.to_set() == Set::new(
                    |c: Seq<char>| named_cases(rows@).contains(c) && !automated(rows@, executable.deep_view().to_set(), c),
                )
                &&& r.document_only_total == doc.len() && r.unautomated_total == open.len()
                &&& grouped(r.document_only_by_family@, doc)
                &&& grouped(r.unautomated_by_family@, open)
            },
{
    let (doc, open) = backlog_cases(rows, executable);
    let document_only_by_family = group_by_family(&doc);
    let unautomated_by_family = group_by_family(&open);
    let r = Backlog {
        document_only_total: doc.len(),
        unautomated_total: open.len(),
        document_only_by_family,
        unautomated_by_family,
    };
    assert(r.document_only_total == doc.deep_view().len());
    assert(r.unautomated_total == open.deep_view().len());
    r
}

} // verus!
