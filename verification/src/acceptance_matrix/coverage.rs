//! The operation coverage table: which acceptance cases cover each flow.
use super::model::FlowCase;
use crate::acceptance_bindings::regex_compile_error;
use crate::strset::{lemma_lex_irreflexive, lemma_lex_total, lemma_lex_transitive, lex_lt, lex_lt_exec};
use crate::text::{cat3, chars_eq, chars_of, lines, lines_of, split_char, split_str, starts_with, starts_with_str, to_string};
use vstd::prelude::*;

verus! {

/// A character the flow pattern's class `[a-z0-9.-]` admits.
pub open spec fn flow_char(c: char) -> bool {
    ('a' <= c && c <= 'z') || ('0' <= c && c <= '9') || c == '.' || c == '-'
}

/// A match of the flow pattern can start at `i`: `flow.` and then a class
/// character.
pub open spec fn flow_match_at(t: Seq<char>, i: int) -> bool {
    0 <= i && i + 6 <= t.len() && t.subrange(i, i + 5) == "flow."@ && flow_char(t[i + 5])
}

/// Where the run of class characters from `j` ends.
pub open spec fn run_end(t: Seq<char>, j: int) -> int {
    choose|k: int| j <= k <= t.len() && (forall|m: int| j <= m < k ==> flow_char(#[trigger] t[m])) && (k == t.len() || !flow_char(t[k]))
}

/// The first match of `flow\.[a-z0-9.-]+` in the text: at the leftmost
/// position where one starts, as long as the class allows.
#[verifier::opaque]
pub open spec fn first_flow_match(t: Seq<char>) -> Option<Seq<char>> {
    if exists|i: int| #[trigger] flow_match_at(t, i) {
        let i = choose|i: int| #[trigger] flow_match_at(t, i) && forall|j: int| 0 <= j < i ==> !#[trigger] flow_match_at(t, j);
        Some(t.subrange(i, run_end(t, i + 5)))
    } else {
        None
    }
}

/// The successive non-overlapping matches of the pattern in the text, as
/// the regex crate's `find_iter` reports them.
pub uninterp spec fn regex_all(pattern: Seq<char>, text: Seq<char>) -> Seq<Seq<char>>;

/// The pattern of a flow id.
pub open spec fn flow_pattern() -> Seq<char> {
    "flow\\.[a-z0-9.-]+"@
}

/// The pattern of an acceptance case id.
pub open spec fn case_pattern() -> Seq<char> {
    "[A-Z][A-Z0-9]*(?:-[A-Z0-9]+)+"@
}

/// `regex::Regex::new` of the flow pattern, then `find` in `text`. Claimed:
/// compiling is a function of the pattern, and the match is the leftmost
/// one, extended as far as the class allows (`first_flow_match`), as the
/// crate's leftmost-first semantics with a greedy `+` give.
#[verifier::external_body]
fn regex_find(pattern: &str, text: &str) -> (r: Result<Option<String>, String>)
    requires
        pattern@ == flow_pattern(),
    ensures
        match r {
            Ok(m) => regex_compile_error(pattern@) is None && match m {
                Some(s) => first_flow_match(text@) == Some(s@),
                None => first_flow_match(text@) is None,
            },
            Err(e) => regex_compile_error(pattern@) == Some(e@),
        },
{
    match regex::Regex::new(pattern) {
        Ok(re) => Ok(re.find(text).map(|found| found.as_str().to_string())),
        Err(error) => Err(error.to_string()),
    }
}

/// `regex::Regex::new` of the case pattern, then `find_iter` over `text`.
/// Claims only that compiling is a function of the pattern and the matches a
/// function of the pattern and the text.
#[verifier::external_body]
fn regex_find_all(pattern: &str, text: &str) -> (r: Result<Vec<String>, String>)
    requires
        pattern@ == case_pattern(),
    ensures
        match r {
            Ok(v) => regex_compile_error(pattern@) is None && v.deep_view() == regex_all(pattern@, text@),
            Err(e) => regex_compile_error(pattern@) == Some(e@),
        },
{
    match regex::Regex::new(pattern) {
        Ok(re) => Ok(re.find_iter(text).map(|found| found.as_str().to_string()).collect()),
        Err(error) => Err(error.to_string()),
    }
}

pub open spec fn fc_view(f: FlowCase) -> (Seq<char>, Seq<char>) {
    (f.flow_id@, f.case_id@)
}

pub open spec fn fcs_view(v: Seq<FlowCase>) -> Seq<(Seq<char>, Seq<char>)> {
    v.map_values(|f: FlowCase| fc_view(f))
}

/// The order of (flow, case) pairs: by flow, then by case.
pub open spec fn pair_lt(a: (Seq<char>, Seq<char>), b: (Seq<char>, Seq<char>)) -> bool {
    lex_lt(a.0, b.0) || (a.0 == b.0 && lex_lt(a.1, b.1))
}

/// Strictly increasing pairs: an ordered set of relations.
pub open spec fn pairs_sorted(s: Seq<(Seq<char>, Seq<char>)>) -> bool {
    forall|i: int, j: int| 0 <= i < j < s.len() ==> pair_lt(#[trigger] s[i], #[trigger] s[j])
}

proof fn lemma_pair_order(a: (Seq<char>, Seq<char>), b: (Seq<char>, Seq<char>), c: (Seq<char>, Seq<char>))
    ensures
        !pair_lt(a, a),
        pair_lt(a, b) && pair_lt(b, c) ==> pair_lt(a, c),
        a != b ==> pair_lt(a, b) || pair_lt(b, a),
{
    lemma_lex_irreflexive(a.0);
    lemma_lex_irreflexive(a.1);
    lemma_lex_transitive(a.0, b.0, c.0);
    lemma_lex_transitive(a.1, b.1, c.1);
    lemma_lex_total(a.0, b.0);
    lemma_lex_total(a.1, b.1);
}

fn pair_lt_exec(a: &FlowCase, b: &FlowCase) -> (r: bool)
    ensures
        r == pair_lt(fc_view(*a), fc_view(*b)),
{
    let af = chars_of(a.flow_id.as_str());
    let bf = chars_of(b.flow_id.as_str());
    let ac = chars_of(a.case_id.as_str());
    let bc = chars_of(b.case_id.as_str());
    lex_lt_exec(&af, &bf) || (chars_eq(&af, &bf) && lex_lt_exec(&ac, &bc))
}

fn fc_eq(a: &FlowCase, b: &FlowCase) -> (r: bool)
    ensures
        r == (fc_view(*a) == fc_view(*b)),
{
    let af = chars_of(a.flow_id.as_str());
    let bf = chars_of(b.flow_id.as_str());
    let ac = chars_of(a.case_id.as_str());
    let bc = chars_of(b.case_id.as_str());
    chars_eq(&af, &bf) && chars_eq(&ac, &bc)
}

/// Inserts a relation into an ordered set of relations.
fn fc_insert(v: &mut Vec<FlowCase>, x: FlowCase)
    requires
        pairs_sorted(fcs_view(old(v)@)),
    ensures
        pairs_sorted(fcs_view(final(v)@)),
        fcs_view(final(v)@).to_set() == fcs_view(old(v)@).to_set().insert(fc_view(x)),
{
    let ghost s = fcs_view(v@);
    let ghost xv = fc_view(x);
    let mut i: usize = 0;
    while i < v.len()
        invariant
            i <= v@.len(),
            s == fcs_view(v@),
            pairs_sorted(s),
            xv == fc_view(x),
            forall|k: int| 0 <= k < i ==> pair_lt(#[trigger] s[k], xv),
        ensures
            i <= v@.len(),
            s == fcs_view(v@),
            forall|k: int| 0 <= k < i ==> pair_lt(#[trigger] s[k], xv),
            i < v@.len() ==> !pair_lt(s[i as int], xv),
        decreases v@.len() - i,
    {
        if !pair_lt_exec(&v[i], &x) {
            break;
        }
        i += 1;
    }
    if i < v.len() && fc_eq(&v[i], &x) {
        assert(s.contains(xv));
        assert(s.to_set().insert(xv) =~= s.to_set());
        return;
    }
    proof {
        if i < s.len() {
            lemma_pair_order(s[i as int], xv, xv);
        }
        assert forall|k: int| i <= k < s.len() implies pair_lt(xv, #[trigger] s[k]) by {
            lemma_pair_order(xv, s[i as int], s[k]);
        }
    }
    let ghost old_v = v@;
    v.insert(i, x);
    let ghost n = fcs_view(v@);
    assert(n =~= s.insert(i as int, xv));
    proof {
        assert forall|a: int, b: int| 0 <= a < b < n.len() implies pair_lt(#[trigger] n[a], #[trigger] n[b]) by {
            if a < i && b > i {
                lemma_pair_order(s[a], xv, s[b - 1]);
            }
        }
        assert(n.to_set() =~= s.to_set().insert(xv)) by {
            assert forall|y: (Seq<char>, Seq<char>)| n.to_set().contains(y) implies s.to_set().insert(xv).contains(y) by {
                let k = choose|k: int| 0 <= k < n.len() && n[k] == y;
                if k < i {
                    assert(s[k] == y);
                } else if k > i {
                    assert(s[k - 1] == y);
                }
            }
            assert forall|y: (Seq<char>, Seq<char>)| s.to_set().insert(xv).contains(y) implies n.to_set().contains(y) by {
                if y == xv {
                    assert(n[i as int] == y);
                } else {
                    let k = choose|k: int| 0 <= k < s.len() && s[k] == y;
                    if k < i {
                        assert(n[k] == y);
                    } else {
                        assert(n[k + 1] == y);
                    }
                }
            }
        }
    }
}

/// A line of the table that states a flow's coverage.
pub open spec fn coverage_row(line: Seq<char>) -> bool {
    starts_with(line, "| `flow."@)
}

/// A flow with each of the cases.
pub open spec fn flow_with_cases(flow: Seq<char>, cases: Seq<Seq<char>>) -> Set<(Seq<char>, Seq<char>)> {
    Set::new(|p: (Seq<char>, Seq<char>)| p.0 == flow && cases.contains(p.1))
}

/// The relations one coverage row states: its flow (the first flow id in
/// the row) with each case id in its third column; or the row's refusal.
pub open spec fn row_relations(line: Seq<char>) -> Result<Set<(Seq<char>, Seq<char>)>, Seq<char>> {
    match first_flow_match(line) {
        None => Err("acceptance-matrix: operation coverage row missing flow ID"@),
        Some(flow) => {
            let columns = split_char(line, '|');
            if columns.len() <= 3 {
                Err("acceptance-matrix: operation coverage row missing case column"@)
            } else {
                let cases = regex_all(case_pattern(), columns[3]);
                if cases.len() == 0 {
                    Err("acceptance-matrix: "@ + flow + " has no acceptance cases"@)
                } else {
                    Ok(flow_with_cases(flow, cases))
                }
            }
        },
    }
}

/// The relations of the first `n` lines, or the first failing row's refusal.
pub open spec fn relations_upto(ls: Seq<Seq<char>>, n: int) -> Result<Set<(Seq<char>, Seq<char>)>, Seq<char>>
    decreases n,
{
    if n <= 0 {
        Ok(Set::empty())
    } else {
        match relations_upto(ls, n - 1) {
            Err(e) => Err(e),
            Ok(s) => if !coverage_row(ls[n - 1]) {
                Ok(s)
            } else {
                match row_relations(ls[n - 1]) {
                    Err(e) => Err(e),
                    Ok(t) => Ok(s + t),
                }
            },
        }
    }
}

proof fn lemma_refusal_stays(ls: Seq<Seq<char>>, n: int, m: int)
    requires
        n <= m,
        relations_upto(ls, n) is Err,
    ensures
        relations_upto(ls, m) == relations_upto(ls, n),
    decreases m - n,
{
    if m > n {
        lemma_refusal_stays(ls, n, m - 1);
    }
}

/// The flow/case relations the operation coverage table states; a failure
/// to compile either pattern comes first, as both are compiled before any
/// row is read.
pub open spec fn flow_cases_spec(content: Seq<char>) -> Result<Set<(Seq<char>, Seq<char>)>, Seq<char>> {
    match regex_compile_error(flow_pattern()) {
        Some(e) => Err(e),
        None => match regex_compile_error(case_pattern()) {
            Some(e) => Err(e),
            None => relations_upto(lines(content), lines(content).len() as int),
        },
    }
}

/// Reads the flow/case relations of the operation coverage table, as an
/// ordered set.
pub fn collect_flow_cases(content: &str) -> (r: Result<Vec<FlowCase>, String>)
    ensures
        match flow_cases_spec(content@) {
            Ok(s) => r matches Ok(v) && pairs_sorted(fcs_view(v@)) && fcs_view(v@).to_set() == s,
            Err(e) => r matches Err(m) && m@ == e,
        },
{
    let fp = "flow\\.[a-z0-9.-]+";
    let cp = "[A-Z][A-Z0-9]*(?:-[A-Z0-9]+)+";
    regex_find(fp, "")?;
    regex_find_all(cp, "")?;
    let ls = lines_of(content);
    let ghost lv = ls.deep_view();
    let mut out: Vec<FlowCase> = Vec::new();
    assert(fcs_view(out@).to_set() =~= Set::empty());
    let mut i: usize = 0;
    while i < ls.len()
        invariant
            lv == ls.deep_view(),
            lv == lines(content@),
            fp@ == flow_pattern(),
            cp@ == case_pattern(),
            regex_compile_error(flow_pattern()) is None,
            regex_compile_error(case_pattern()) is None,
            i <= lv.len(),
            pairs_sorted(fcs_view(out@)),
            relations_upto(lv, i as int) == Ok::<Set<(Seq<char>, Seq<char>)>, Seq<char>>(fcs_view(out@).to_set()),
        decreases lv.len() - i,
    {
        let line = ls[i].as_str();
        assert(lv[i as int] == line@);
        if starts_with_str(line, "| `flow.") {
            let found = regex_find(fp, line);
            if found.is_err() {
                proof {
                    lemma_refusal_stays(lv, i + 1, lv.len() as int);
                }
            }
            let flow = match found? {
                Some(f) => f,
                None => {
                    proof {
                        lemma_refusal_stays(lv, i + 1, lv.len() as int);
                    }
                    return Err(to_string("acceptance-matrix: operation coverage row missing flow ID"));
                },
            };
            let columns = split_str(line, '|');
            if columns.len() <= 3 {
                proof {
                    lemma_refusal_stays(lv, i + 1, lv.len() as int);
                }
                return Err(to_string("acceptance-matrix: operation coverage row missing case column"));
            }
            assert(columns.deep_view()[3] == columns@[3]@);
            let found_cases = regex_find_all(cp, columns[3].as_str());
            if found_cases.is_err() {
                proof {
                    lemma_refusal_stays(lv, i + 1, lv.len() as int);
                }
            }
            let cases = found_cases?;
            if cases.len() == 0 {
                proof {
                    lemma_refusal_stays(lv, i + 1, lv.len() as int);
                }
                return Err(cat3("acceptance-matrix: ", flow.as_str(), " has no acceptance cases"));
            }
            let ghost before = fcs_view(out@).to_set();
            let ghost cv = cases.deep_view();
            let mut k: usize = 0;
            while k < cases.len()
                invariant
                    cv == cases.deep_view(),
                    k <= cv.len(),
                    pairs_sorted(fcs_view(out@)),
                    fcs_view(out@).to_set() == before + Set::new(
                        |p: (Seq<char>, Seq<char>)| p.0 == flow@ && exists|q: int| 0 <= q < k && cv[q] == p.1,
                    ),
                decreases cv.len() - k,
            {
                let ghost b2 = fcs_view(out@).to_set();
                assert(cv[k as int] == cases@[k as int]@);
                fc_insert(&mut out, FlowCase { flow_id: to_string(flow.as_str()), case_id: to_string(cases[k].as_str()) });
                assert(fcs_view(out@).to_set() =~= before + Set::new(
                    |p: (Seq<char>, Seq<char>)| p.0 == flow@ && exists|q: int| 0 <= q < k + 1 && cv[q] == p.1,
                )) by {
                    assert forall|p: (Seq<char>, Seq<char>)|
                        (p.0 == flow@ && exists|q: int| 0 <= q < k + 1 && cv[q] == p.1) implies #[trigger] b2.insert(
                        (flow@, cv[k as int]),
                    ).contains(p) || before.contains(p) by {
                        let q = choose|q: int| 0 <= q < k + 1 && cv[q] == p.1;
                        if q < k {
                            assert(b2.contains(p));
                        }
                    }
                }
                k += 1;
            }
            assert(fcs_view(out@).to_set() =~= before + flow_with_cases(flow@, cv)) by {
                assert forall|p: (Seq<char>, Seq<char>)| p.0 == flow@ && cv.contains(p.1) implies #[trigger] fcs_view(
                    out@,
                ).to_set().contains(p) by {
                    let q = choose|q: int| 0 <= q < cv.len() && cv[q] == p.1;
                }
            }
            proof {
                let t = flow_with_cases(flow@, cv);
                assert(first_flow_match(line@) == Some(flow@));
                assert(split_char(line@, '|') == columns.deep_view());
                assert(regex_all(case_pattern(), split_char(line@, '|')[3]) == cv);
                assert(split_char(line@, '|').len() > 3);
                assert(cv.len() > 0);
                assert(row_relations(line@) == Ok::<Set<(Seq<char>, Seq<char>)>, Seq<char>>(t));
                assert(relations_upto(lv, i + 1) == Ok::<Set<(Seq<char>, Seq<char>)>, Seq<char>>(before + t));
            }
        }
        i += 1;
    }
    assert(lv.take(lv.len() as int) =~= lv);
    Ok(out)
}

} // verus!
