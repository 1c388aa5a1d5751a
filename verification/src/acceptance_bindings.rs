//! Acceptance-case bindings: which cases are automated, walked through in
//! feature docs, bound manually, or unbound.
use crate::strset::{contains_str_in, lemma_lex_irreflexive, lemma_lex_total, lemma_lex_transitive, lex_lt, lex_lt_exec, set_insert, sorted};
use crate::text::{chars_of, find_from, lines, lines_of, occurs_at, eq_str, lemma_split_char_nonempty, split_char, split_str, starts_with, starts_with_str, to_string, trim, trim_str};
use vstd::prelude::*;

verus! {

/// One row of the manual bindings table.
#[derive(Debug)]
pub struct BindingRow {
    pub case_id: String,
    pub binding: String,
    pub evidence: String,
}

pub open spec fn part_or_empty(parts: Seq<Seq<char>>, i: int) -> Seq<char> {
    if i < parts.len() {
        parts[i]
    } else {
        Seq::empty()
    }
}

/// `case|binding|evidence|note`, trimmed; blank and `#` lines hold no row.
pub open spec fn binding_row_spec(line: Seq<char>) -> Option<(Seq<char>, Seq<char>, Seq<char>)> {
    let parts = split_char(line, '|');
    let case_id = trim(part_or_empty(parts, 0));
    if case_id.len() == 0 || starts_with(case_id, seq!['#']) {
        None
    } else {
        Some((case_id, trim(part_or_empty(parts, 1)), trim(part_or_empty(parts, 2))))
    }
}

pub fn parse_binding_row(line: &str) -> (r: Option<BindingRow>)
    ensures
        match r {
            Some(row) => binding_row_spec(line@) == Some((row.case_id@, row.binding@, row.evidence@)),
            None => binding_row_spec(line@) is None,
        },
{
    let parts = split_str(line, '|');
    proof {
        lemma_split_char_nonempty(line@, '|');
        reveal_strlit("#");
    }
    assert("#"@ =~= seq!['#']);
    let case_id = trim_str(parts[0].as_str());
    assert(parts.deep_view()[0] == parts@[0]@);
    let binding = if parts.len() > 1 {
        assert(parts.deep_view()[1] == parts@[1]@);
        trim_str(parts[1].as_str())
    } else {
        trim_str("")
    };
    let evidence = if parts.len() > 2 {
        assert(parts.deep_view()[2] == parts@[2]@);
        trim_str(parts[2].as_str())
    } else {
        trim_str("")
    };
    proof {
        reveal_strlit("");
    }
    if case_id.as_str().is_empty() || starts_with_str(case_id.as_str(), "#") {
        return None;
    }
    Some(BindingRow { case_id, binding, evidence })
}

/// Longer ids first, ties in string order.
pub open spec fn longer_first(a: Seq<char>, b: Seq<char>) -> bool {
    a.len() > b.len() || (a.len() == b.len() && lex_lt(a, b))
}

pub open spec fn longer_first_sorted(s: Seq<Seq<char>>) -> bool {
    forall|i: int, j: int| 0 <= i < j < s.len() ==> longer_first(#[trigger] s[i], #[trigger] s[j])
}

proof fn lemma_longer_first_total(a: Seq<char>, b: Seq<char>)
    requires
        a != b,
    ensures
        longer_first(a, b) || longer_first(b, a),
{
    if a.len() == b.len() {
        lemma_lex_total(a, b);
    }
}

proof fn lemma_longer_first_transitive(a: Seq<char>, b: Seq<char>, c: Seq<char>)
    requires
        longer_first(a, b),
        longer_first(b, c),
    ensures
        longer_first(a, c),
{
    if a.len() == b.len() && b.len() == c.len() {
        lemma_lex_transitive(a, b, c);
    }
}

fn longer_first_exec(a: &str, b: &str) -> (r: bool)
    ensures
        r == longer_first(a@, b@),
{
    let ac = chars_of(a);
    let bc = chars_of(b);
    ac.len() > bc.len() || (ac.len() == bc.len() && lex_lt_exec(&ac, &bc))
}

/// The case ids, longest first so that a longer id claims its text before
/// a shorter id that is its prefix.
pub fn ordered_case_ids(case_ids: &Vec<String>) -> (r: Vec<String>)
    requires
        sorted(case_ids.deep_view()),
    ensures
        longer_first_sorted(r.deep_view()),
        r.deep_view().to_set() == case_ids.deep_view().to_set(),
        r.len() == case_ids.len(),
{
    let ghost cv = case_ids.deep_view();
    let mut out: Vec<String> = Vec::new();
    let mut i: usize = 0;
    while i < case_ids.len()
        invariant
            cv == case_ids.deep_view(),
            sorted(cv),
            i <= case_ids.len(),
            longer_first_sorted(out.deep_view()),
            out.deep_view().to_set() == cv.take(i as int).to_set(),
            out.len() == i,
        decreases case_ids.len() - i,
    {
        let x = case_ids[i].as_str();
        assert(cv[i as int] == x@);
        let ghost s = out.deep_view();
        proof {
            assert forall|k: int| 0 <= k < s.len() implies s[k] != x@ by {
                assert(s.to_set().contains(s[k]));
                assert(cv.take(i as int).to_set().contains(s[k]));
                let q = choose|q: int| 0 <= q < i && #[trigger] cv.take(i as int)[q] == s[k];
                assert(lex_lt(cv[q], cv[i as int]));
                lemma_lex_irreflexive(x@);
            }
        }
        let mut pos: usize = 0;
        while pos < out.len()
            invariant
                out.deep_view() == s,
                pos <= out.len(),
                forall|k: int| 0 <= k < pos ==> longer_first(#[trigger] s[k], x@),
            ensures
                out.deep_view() == s,
                pos <= out.len(),
                forall|k: int| 0 <= k < pos ==> longer_first(#[trigger] s[k], x@),
                pos < out.len() ==> !longer_first(s[pos as int], x@),
            decreases out.len() - pos,
        {
            assert(s[pos as int] == out@[pos as int]@);
            if !longer_first_exec(out[pos].as_str(), x) {
                break;
            }
            pos += 1;
        }
        proof {
            if pos < s.len() {
                assert(s[pos as int] != x@);
                lemma_longer_first_total(s[pos as int], x@);
            }
        }
        let ghost old_v = out.deep_view();
        out.insert(pos, case_ids[i].clone());
        let ghost n = out.deep_view();
        assert(n =~= old_v.insert(pos as int, x@));
        proof {
            assert forall|a: int, b: int| 0 <= a < b < n.len() implies longer_first(#[trigger] n[a], #[trigger] n[b]) by {
                if b < pos {
                    assert(n[a] == s[a] && n[b] == s[b]);
                } else if a < pos && b == pos {
                    assert(n[a] == s[a]);
                } else if a < pos && b > pos {
                    assert(n[a] == s[a] && n[b] == s[b - 1]);
                    if pos < s.len() {
                        assert(longer_first(x@, s[pos as int]));
                        if b - 1 > pos {
                            lemma_longer_first_transitive(x@, s[pos as int], s[b - 1]);
                        }
                    }
                    lemma_longer_first_transitive(s[a], x@, s[b - 1]);
                } else if a == pos {
                    assert(n[b] == s[b - 1]);
                    assert(longer_first(x@, s[pos as int]));
                    if b - 1 > pos {
                        lemma_longer_first_transitive(x@, s[pos as int], s[b - 1]);
                    }
                } else {
                    assert(n[a] == s[a - 1] && n[b] == s[b - 1]);
                }
            }
            assert(cv.take(i + 1) =~= cv.take(i as int).push(x@));
            cv.take(i as int).lemma_push_to_set_commute(x@);
            assert(n.to_set() =~= cv.take(i + 1).to_set()) by {
                assert forall|y: Seq<char>| n.to_set().contains(y) implies cv.take(i + 1).to_set().contains(y) by {
                    let k = choose|k: int| 0 <= k < n.len() && n[k] == y;
                    if k < pos {
                        assert(s.to_set().contains(s[k]));
                    } else if k > pos {
                        assert(s.to_set().contains(s[k - 1]));
                    }
                }
                assert forall|y: Seq<char>| cv.take(i + 1).to_set().contains(y) implies n.to_set().contains(y) by {
                    if y == x@ {
                        assert(n[pos as int] == y);
                    } else {
                        assert(s.to_set().contains(y));
                        let k = choose|k: int| 0 <= k < s.len() && s[k] == y;
                        if k < pos {
                            assert(n[k] == y);
                        } else {
                            assert(n[k + 1] == y);
                        }
                    }
                }
            }
        }
        i += 1;
    }
    assert(cv.take(case_ids.len() as int) =~= cv);
    out
}

/// The leftmost occurrence of `p` in `s` at or after `from`.
pub open spec fn first_occurrence(s: Seq<char>, p: Seq<char>, from: int) -> Option<int> {
    if exists|k: int| from <= k && occurs_at(s, p, k) {
        Some(choose|k: int| from <= k && occurs_at(s, p, k) && forall|j: int| from <= j < k ==> !#[trigger] occurs_at(s, p, j))
    } else {
        None
    }
}

pub open spec fn range_free(occ: Seq<bool>, a: int, b: int) -> bool {
    forall|k: int| a <= k < b ==> !#[trigger] occ[k]
}

pub open spec fn mark(occ: Seq<bool>, a: int, b: int) -> Seq<bool> {
    Seq::new(occ.len(), |k: int| if a <= k < b { true } else { occ[k] })
}

/// Walks the non-overlapping occurrences of `p` (as `str::match_indices`
/// yields them) from `from`, claiming each one that no earlier id has
/// claimed; the new claims and whether any was made.
pub open spec fn claim_from(s: Seq<char>, p: Seq<char>, occ: Seq<bool>, from: int) -> (Seq<bool>, bool)
    decreases s.len() + 1 - from,
{
    if p.len() == 0 || from < 0 || from > s.len() {
        (occ, p.len() == 0)
    } else {
        match first_occurrence(s, p, from) {
            None => (occ, false),
            Some(i) => if i + p.len() > s.len() || i < from {
                (occ, false)
            } else if range_free(occ, i, i + p.len()) {
                let r = claim_from(s, p, mark(occ, i, i + p.len()), i + p.len());
                (r.0, true)
            } else {
                claim_from(s, p, occ, i + p.len())
            },
        }
    }
}

/// The ids referenced in `s` when ids are tried in order, each claiming
/// only text that earlier ids have not claimed; and the claims made.
pub open spec fn referenced(s: Seq<char>, ids: Seq<Seq<char>>) -> (Set<Seq<char>>, Seq<bool>)
    decreases ids.len(),
{
    if ids.len() == 0 {
        (Set::empty(), Seq::new(s.len(), |k: int| false))
    } else {
        let prev = referenced(s, ids.drop_last());
        let c = claim_from(s, ids.last(), prev.1, 0);
        (if c.1 { prev.0.insert(ids.last()) } else { prev.0 }, c.0)
    }
}

proof fn lemma_first_occurrence(s: Seq<char>, p: Seq<char>, from: int, i: int)
    requires
        from <= i,
        occurs_at(s, p, i),
        forall|j: int| from <= j < i ==> !#[trigger] occurs_at(s, p, j),
    ensures
        first_occurrence(s, p, from) == Some(i),
{
    let c = choose|k: int| from <= k && occurs_at(s, p, k) && forall|j: int| from <= j < k ==> !#[trigger] occurs_at(s, p, j);
    if c < i {
        assert(!occurs_at(s, p, c));
    } else if c > i {
        assert(!occurs_at(s, p, i));
    }
}

fn range_is_free(occ: &Vec<bool>, i: usize, end: usize) -> (r: bool)
    requires
        i <= end <= occ@.len(),
    ensures
        r == range_free(occ@, i as int, end as int),
{
    let mut k: usize = i;
    while k < end
        invariant
            i <= k <= end,
            end <= occ@.len(),
            range_free(occ@, i as int, k as int),
        decreases end - k,
    {
        if occ[k] {
            return false;
        }
        k += 1;
    }
    true
}

fn mark_range(occ: &mut Vec<bool>, i: usize, end: usize)
    requires
        i <= end <= old(occ)@.len(),
    ensures
        final(occ)@ == mark(old(occ)@, i as int, end as int),
{
    let ghost o0 = occ@;
    let mut k: usize = i;
    while k < end
        invariant
            i <= k <= end,
            end <= o0.len(),
            occ@ == Seq::new(o0.len(), |q: int| if i <= q < k { true } else { o0[q] }),
        decreases end - k,
    {
        occ.set(k, true);
        assert(occ@ =~= Seq::new(o0.len(), |q: int| if i <= q < k + 1 { true } else { o0[q] }));
        k += 1;
    }
    assert(occ@ =~= mark(o0, i as int, end as int));
}

fn claim(s: &Vec<char>, p: &Vec<char>, occ: &mut Vec<bool>) -> (found: bool)
    requires
        old(occ)@.len() == s@.len(),
    ensures
        (final(occ)@, found) == claim_from(s@, p@, old(occ)@, 0),
        final(occ)@.len() == s@.len(),
{
    if p.len() == 0 {
        return true;
    }
    let ghost target = claim_from(s@, p@, occ@, 0);
    let mut found = false;
    let mut from: usize = 0;
    while from <= s.len()
        invariant
            p@.len() > 0,
            target == claim_from(s@, p@, old(occ)@, 0),
            occ@.len() == s@.len(),
            from <= s.len() + 1,
            from <= s.len() ==> target == (claim_from(s@, p@, occ@, from as int).0, found || claim_from(s@, p@, occ@, from as int).1),
            from > s.len() ==> target == (occ@, found),
        decreases s.len() + 1 - from,
    {
        match find_from(s, p, from) {
            None => {
                assert(first_occurrence(s@, p@, from as int) is None);
                assert(claim_from(s@, p@, occ@, from as int) == (occ@, false));
                assert(target == (occ@, found));
                return found;
            },
            Some(i) => {
                proof {
                    lemma_first_occurrence(s@, p@, from as int, i as int);
                }
                let end = i + p.len();
                if range_is_free(occ, i, end) {
                    mark_range(occ, i, end);
                    found = true;
                }
                from = end;
            },
        }
    }
    found
}

/// The case ids, tried in the given order, that occur in `content`
/// without overlapping text already claimed by an earlier id.
pub fn case_ids_in_content(content: &str, case_ids: &Vec<String>) -> (r: Vec<String>)
    ensures
        sorted(r.deep_view()),
        r.deep_view().to_set() == referenced(content@, case_ids.deep_view()).0,
{
    let s = chars_of(content);
    let mut occ: Vec<bool> = Vec::new();
    let mut k: usize = 0;
    while k < s.len()
        invariant
            k <= s.len(),
            occ@ == Seq::new(k as nat, |q: int| false),
        decreases s.len() - k,
    {
        occ.push(false);
        assert(occ@ =~= Seq::new((k + 1) as nat, |q: int| false));
        k += 1;
    }
    let ghost cv = case_ids.deep_view();
    let mut refs: Vec<String> = Vec::new();
    let mut i: usize = 0;
    assert(cv.take(0) =~= Seq::<Seq<char>>::empty());
    while i < case_ids.len()
        invariant
            cv == case_ids.deep_view(),
            s@ == content@,
            i <= case_ids.len(),
            sorted(refs.deep_view()),
            occ@.len() == s@.len(),
            (refs.deep_view().to_set(), occ@) == referenced(s@, cv.take(i as int)),
        decreases case_ids.len() - i,
    {
        let p = chars_of(case_ids[i].as_str());
        assert(p@ == cv[i as int]);
        assert(cv.take(i + 1).drop_last() =~= cv.take(i as int));
        assert(cv.take(i + 1).last() == cv[i as int]);
        let found = claim(&s, &p, &mut occ);
        if found {
            set_insert(&mut refs, case_ids[i].clone());
        }
        i += 1;
    }
    assert(cv.take(case_ids.len() as int) =~= cv);
    refs
}

pub open spec fn valid_binding(b: Seq<char>) -> bool {
    b == "manual-chrome"@ || b == "manual-cli"@ || b == "manual-doc"@ || b == "manual-network"@ || b == "manual-security"@
}

pub open spec fn bound(pairs: Seq<(Seq<char>, Seq<char>)>, case_id: Seq<char>) -> bool {
    exists|k: int| 0 <= k < pairs.len() && #[trigger] pairs[k].0 == case_id
}

/// The manual bindings the table declares, in order, and the errors its
/// rows raise; `files` are the repository paths that are files.
pub open spec fn manual_bindings_spec(
    ls: Seq<Seq<char>>,
    cases: Set<Seq<char>>,
    files: Set<Seq<char>>,
) -> (Seq<(Seq<char>, Seq<char>)>, Seq<Seq<char>>)
    decreases ls.len(),
{
    if ls.len() == 0 {
        (Seq::empty(), Seq::empty())
    } else {
        let prev = manual_bindings_spec(ls.drop_last(), cases, files);
        match binding_row_spec(ls.last()) {
            None => prev,
            Some((case_id, binding, evidence)) => {
                let path = split_char(evidence, '#')[0];
                if !cases.contains(case_id) {
                    (prev.0, prev.1.push("acceptance binding references unknown case: "@ + case_id))
                } else if bound(prev.0, case_id) {
                    (prev.0, prev.1.push("duplicate acceptance binding: "@ + case_id))
                } else if !valid_binding(binding) {
                    (prev.0, prev.1.push("invalid acceptance binding type for "@ + case_id + ": "@ + binding))
                } else if path.len() == 0 || !files.contains(path) {
                    (prev.0, prev.1.push("acceptance binding evidence missing for "@ + case_id + ": "@ + evidence))
                } else {
                    (prev.0.push((case_id, binding)), prev.1)
                }
            },
        }
    }
}

pub open spec fn pairs_view(v: Seq<(String, String)>) -> Seq<(Seq<char>, Seq<char>)> {
    Seq::new(v.len(), |i: int| (v[i].0@, v[i].1@))
}

fn is_bound(pairs: &Vec<(String, String)>, case_id: &str) -> (r: bool)
    ensures
        r == bound(pairs_view(pairs@), case_id@),
{
    let mut k: usize = 0;
    while k < pairs.len()
        invariant
            k <= pairs.len(),
            forall|q: int| 0 <= q < k ==> #[trigger] pairs_view(pairs@)[q].0 != case_id@,
        decreases pairs.len() - k,
    {
        assert(pairs_view(pairs@)[k as int].0 == pairs@[k as int].0@);
        if eq_str(pairs[k].0.as_str(), case_id) {
            return true;
        }
        k += 1;
    }
    false
}

/// Reads the manual bindings table: the valid bindings, and an error for
/// each row that names an unknown or already-bound case, an unknown
/// binding type, or evidence that is not a repository file.
pub fn collect_manual_bindings(
    content: &str,
    case_ids: &Vec<String>,
    files: &Vec<String>,
) -> (r: (Vec<(String, String)>, Vec<String>))
    ensures
        (pairs_view(r.0@), r.1.deep_view()) == manual_bindings_spec(
            lines(content@),
            case_ids.deep_view().to_set(),
            files.deep_view().to_set(),
        ),
        forall|k: int|
            0 <= k < r.0@.len() ==> #[trigger] binding_backed(
                lines(content@),
                pairs_view(r.0@),
                k,
                case_ids.deep_view().to_set(),
                files.deep_view().to_set(),
            ),
{
    let ls = lines_of(content);
    let ghost lv = ls.deep_view();
    let ghost cs = case_ids.deep_view().to_set();
    let ghost fs = files.deep_view().to_set();
    let mut pairs: Vec<(String, String)> = Vec::new();
    let mut errors: Vec<String> = Vec::new();
    let mut i: usize = 0;
    assert(lv.take(0) =~= Seq::<Seq<char>>::empty());
    assert(pairs_view(pairs@) =~= Seq::<(Seq<char>, Seq<char>)>::empty());
    assert(errors.deep_view() =~= Seq::<Seq<char>>::empty());
    while i < ls.len()
        invariant
            lv == ls.deep_view(),
            lv == lines(content@),
            cs == case_ids.deep_view().to_set(),
            fs == files.deep_view().to_set(),
            i <= ls.len(),
            (pairs_view(pairs@), errors.deep_view()) == manual_bindings_spec(lv.take(i as int), cs, fs),
        decreases ls.len() - i,
    {
        assert(lv.take(i + 1).drop_last() =~= lv.take(i as int));
        assert(lv.take(i + 1).last() == lv[i as int]);
        assert(lv[i as int] == ls@[i as int]@);
        let ghost pv0 = pairs_view(pairs@);
        let ghost ev0 = errors.deep_view();
        match parse_binding_row(ls[i].as_str()) {
            None => {},
            Some(row) => {
                let parts = split_str(row.evidence.as_str(), '#');
                proof {
                    lemma_split_char_nonempty(row.evidence@, '#');
                }
                assert(parts.deep_view()[0] == parts@[0]@);
                let path = parts[0].as_str();
                let known = contains_str_in(case_ids, row.case_id.as_str());
                assert(known == cs.contains(row.case_id@));
                let dup = is_bound(&pairs, row.case_id.as_str());
                let valid = eq_str(row.binding.as_str(), "manual-chrome") || eq_str(row.binding.as_str(), "manual-cli")
                    || eq_str(row.binding.as_str(), "manual-doc") || eq_str(row.binding.as_str(), "manual-network")
                    || eq_str(row.binding.as_str(), "manual-security");
                assert(valid == valid_binding(row.binding@));
                let present = !path.is_empty() && contains_str_in(files, path);
                assert(present == (path@.len() > 0 && fs.contains(path@)));
                let msg: Option<String> = if !known {
                    Some(crate::text::cat("acceptance binding references unknown case: ", row.case_id.as_str()))
                } else if dup {
                    Some(crate::text::cat("duplicate acceptance binding: ", row.case_id.as_str()))
                } else if !valid {
                    let head = crate::text::cat3("invalid acceptance binding type for ", row.case_id.as_str(), ": ");
                    Some(crate::text::cat(head.as_str(), row.binding.as_str()))
                } else if !present {
                    let head = crate::text::cat3("acceptance binding evidence missing for ", row.case_id.as_str(), ": ");
                    Some(crate::text::cat(head.as_str(), row.evidence.as_str()))
                } else {
                    None
                };
                match msg {
                    Some(m) => {
                        errors.push(m);
                        assert(errors.deep_view() =~= ev0.push(m@));
                    },
                    None => {
                        let BindingRow { case_id, binding, evidence: _ } = row;
                        let ghost c = case_id@;
                        let ghost b = binding@;
                        pairs.push((case_id, binding));
                        assert(pairs_view(pairs@) =~= pv0.push((c, b)));
                    },
                }
            },
        }
        i += 1;
    }
    assert(lv.take(ls.len() as int) =~= lv);
    proof {
        assert(lv.take(lv.len() as int) =~= lv);
        lemma_bindings_have_evidence(lv, cs, fs);
        assert(pairs_view(pairs@) == manual_bindings_spec(lv, cs, fs).0);
        assert(pairs_view(pairs@).len() == pairs@.len());
    }
    (pairs, errors)
}

/// The pattern that declares a case id in an acceptance document.
pub open spec fn case_id_pattern() -> Seq<char> {
    "case_id: ([A-Z][A-Z0-9]*(?:-[A-Z0-9]+)*)"@
}

/// The pattern of a retired `dump --field` use.
pub open spec fn stale_field_pattern() -> Seq<char> {
    "--field (doc_id|last_op)"@
}

/// What `regex::Regex::new` gives for a pattern: `None` where it compiles,
/// else the text of its error.
pub uninterp spec fn regex_compile_error(pattern: Seq<char>) -> Option<Seq<char>>;

/// Group 1 of each match that `captures_iter` of the compiled pattern finds
/// in `content`, in the order the regex crate finds its leftmost-first,
/// non-overlapping matches.
pub uninterp spec fn regex_group1(pattern: Seq<char>, content: Seq<char>) -> Seq<Seq<char>>;

/// `regex::Regex::new` of the case-id pattern, then `captures_iter` over
/// `content`, taking group 1 of each match. Claims only that the outcome of
/// compiling is a function of the pattern, and the ids a function of the
/// pattern and the text.
#[verifier::external_body]
fn case_id_matches(pattern: &str, content: &str) -> (r: Result<Vec<String>, String>)
    requires
        pattern@ == case_id_pattern(),
    ensures
        match r {
            Ok(v) => regex_compile_error(pattern@) is None && v.deep_view() == regex_group1(pattern@, content@),
            Err(e) => regex_compile_error(pattern@) == Some(e@),
        },
{
    match regex::Regex::new(pattern) {
        Ok(re) => Ok(re.captures_iter(content).map(|capture| capture[1].to_string()).collect()),
        Err(error) => Err(error.to_string()),
    }
}

/// The case ids declared across the acceptance documents.
pub open spec fn declared_case_ids(contents: Seq<Seq<char>>) -> Set<Seq<char>> {
    Set::new(|id: Seq<char>| exists|f: int| 0 <= f < contents.len() && #[trigger] regex_group1(case_id_pattern(), contents[f]).contains(id))
}

/// The case ids declared by the acceptance documents, given their
/// contents in path order.
/// The case-id pattern is compiled before any document is read; where it
/// does not compile, that error is returned.
pub fn collect_case_ids(contents: &Vec<String>) -> (r: Result<Vec<String>, String>)
    ensures
        match r {
            Ok(v) => regex_compile_error(case_id_pattern()) is None && sorted(v.deep_view()) && v.deep_view().to_set()
                == declared_case_ids(contents.deep_view()),
            Err(e) => regex_compile_error(case_id_pattern()) == Some(e@),
        },
{
    let ghost cv = contents.deep_view();
    let pattern = "case_id: ([A-Z][A-Z0-9]*(?:-[A-Z0-9]+)*)";
    case_id_matches(pattern, "")?;
    let mut ids: Vec<String> = Vec::new();
    let mut f: usize = 0;
    while f < contents.len()
        invariant
            cv == contents.deep_view(),
            pattern@ == case_id_pattern(),
            regex_compile_error(case_id_pattern()) is None,
            f <= contents.len(),
            sorted(ids.deep_view()),
            ids.deep_view().to_set() == declared_case_ids(cv.take(f as int)),
        decreases contents.len() - f,
    {
        assert(cv[f as int] == contents@[f as int]@);
        let found = case_id_matches(pattern, contents[f].as_str())?;
        let ghost i0 = ids.deep_view().to_set();
        crate::strset::set_extend(&mut ids, &found);
        assert(ids.deep_view().to_set() =~= declared_case_ids(cv.take(f + 1))) by {
            assert forall|x: Seq<char>| #[trigger] declared_case_ids(cv.take(f + 1)).contains(x) implies ids.deep_view().to_set().contains(x) by {
                let g = choose|g: int| 0 <= g < f + 1 && #[trigger] regex_group1(case_id_pattern(), cv.take(f + 1)[g]).contains(x);
                if g < f {
                    assert(cv.take(f as int)[g] == cv.take(f + 1)[g]);
                    assert(declared_case_ids(cv.take(f as int)).contains(x));
                } else {
                    assert(found.deep_view().to_set().contains(x));
                }
            }
            assert forall|x: Seq<char>| #[trigger] ids.deep_view().to_set().contains(x) implies declared_case_ids(cv.take(f + 1)).contains(x) by {
                if i0.contains(x) {
                    let g = choose|g: int| 0 <= g < f && #[trigger] regex_group1(case_id_pattern(), cv.take(f as int)[g]).contains(x);
                    assert(cv.take(f as int)[g] == cv.take(f + 1)[g]);
                } else {
                    assert(found.deep_view().contains(x));
                    assert(cv.take(f + 1)[f as int] == cv[f as int]);
                }
            }
        }
        f += 1;
    }
    assert(cv.take(contents.len() as int) =~= cv);
    Ok(ids)
}

/// `regex::Regex::new` of the stale-field pattern, then `is_match`: the
/// text holds `--field doc_id` or `--field last_op`. An error is the
/// pattern failing to compile, as `regex_compile_error` names it.
#[verifier::external_body]
fn stale_field_command(pattern: &str, content: &str) -> (r: Result<bool, String>)
    requires
        pattern@ == stale_field_pattern(),
    ensures
        match r {
            Ok(b) => regex_compile_error(pattern@) is None && b == (crate::text::contains(content@, "--field doc_id"@)
                || crate::text::contains(content@, "--field last_op"@)),
            Err(e) => regex_compile_error(pattern@) == Some(e@),
        },
{
    match regex::Regex::new(pattern) {
        Ok(re) => Ok(re.is_match(content)),
        Err(error) => Err(error.to_string()),
    }
}

/// Retired commands that acceptance documents may no longer mention.
pub open spec fn stale_commands() -> Seq<Seq<char>> {
    seq![
        "deve dump --doc"@,
        "deve merge --peer"@,
        "deve auth decode-jwt"@,
        "deve api call"@,
        "cargo test -p deve_core path_normalize_structure -- --nocapture"@,
    ]
}

/// The errors one document raises: each retired command it mentions, in
/// order, then a retired `dump --field` use.
pub open spec fn stale_errors(content: Seq<char>) -> Seq<Seq<char>> {
    stale_command_errors(content, stale_commands().len() as int) + if crate::text::contains(content, "--field doc_id"@)
        || crate::text::contains(content, "--field last_op"@) {
        seq!["stale acceptance dump --field command remains"@]
    } else {
        Seq::empty()
    }
}

pub open spec fn stale_command_errors(content: Seq<char>, n: int) -> Seq<Seq<char>>
    decreases n,
{
    if n <= 0 {
        Seq::empty()
    } else {
        stale_command_errors(content, n - 1) + if crate::text::contains(content, stale_commands()[n - 1]) {
            seq!["stale acceptance command remains: "@ + stale_commands()[n - 1]]
        } else {
            Seq::empty()
        }
    }
}

pub open spec fn all_stale_errors(contents: Seq<Seq<char>>) -> Seq<Seq<char>>
    decreases contents.len(),
{
    if contents.len() == 0 {
        Seq::empty()
    } else {
        all_stale_errors(contents.drop_last()) + stale_errors(contents.last())
    }
}

/// The stale-command errors of the acceptance documents, given their
/// contents in path order.
/// The stale-field pattern is compiled before any document is read; where
/// it does not compile, that error is returned.
pub fn record_stale_commands(contents: &Vec<String>) -> (r: Result<Vec<String>, String>)
    ensures
        match r {
            Ok(v) => regex_compile_error(stale_field_pattern()) is None && v.deep_view() == all_stale_errors(
                contents.deep_view(),
            ),
            Err(e) => regex_compile_error(stale_field_pattern()) == Some(e@),
        },
{
    let ghost cv = contents.deep_view();
    let field_pattern = "--field (doc_id|last_op)";
    stale_field_command(field_pattern, "")?;
    let patterns = crate::strset::strings_of(
        &vec![
            "deve dump --doc",
            "deve merge --peer",
            "deve auth decode-jwt",
            "deve api call",
            "cargo test -p deve_core path_normalize_structure -- --nocapture",
        ],
    );
    assert(patterns.deep_view() =~= stale_commands());
    let mut errors: Vec<String> = Vec::new();
    let mut f: usize = 0;
    while f < contents.len()
        invariant
            cv == contents.deep_view(),
            field_pattern@ == stale_field_pattern(),
            regex_compile_error(stale_field_pattern()) is None,
            patterns.deep_view() == stale_commands(),
            f <= contents.len(),
            errors.deep_view() == all_stale_errors(cv.take(f as int)),
        decreases contents.len() - f,
    {
        let content = contents[f].as_str();
        assert(cv[f as int] == content@);
        assert(cv.take(f + 1).drop_last() =~= cv.take(f as int));
        assert(cv.take(f + 1).last() == content@);
        let ghost e0 = errors.deep_view();
        let mut k: usize = 0;
        while k < patterns.len()
            invariant
                patterns.deep_view() == stale_commands(),
                k <= patterns.len(),
                errors.deep_view() == e0 + stale_command_errors(content@, k as int),
            decreases patterns.len() - k,
        {
            assert(patterns.deep_view()[k as int] == patterns@[k as int]@);
            if crate::text::contains_str(content, patterns[k].as_str()) {
                let ghost x0 = errors.deep_view();
                errors.push(crate::text::cat("stale acceptance command remains: ", patterns[k].as_str()));
                assert(errors.deep_view() =~= x0.push("stale acceptance command remains: "@ + stale_commands()[k as int]));
            }
            assert(e0 + stale_command_errors(content@, k + 1) =~= e0 + stale_command_errors(content@, k as int) + (if crate::text::contains(content@, stale_commands()[k as int]) {
                seq!["stale acceptance command remains: "@ + stale_commands()[k as int]]
            } else {
                Seq::empty()
            }));
            k += 1;
        }
        let ghost e1 = errors.deep_view();
        if stale_field_command(field_pattern, content)? {
            errors.push(to_string("stale acceptance dump --field command remains"));
            assert(errors.deep_view() =~= e1.push("stale acceptance dump --field command remains"@));
        }
        assert(errors.deep_view() =~= e0 + stale_errors(content@));
        f += 1;
    }
    assert(cv.take(contents.len() as int) =~= cv);
    Ok(errors)
}

/// How the cases are bound, in order: automated by code, walked through in
/// feature docs, bound manually, or unbound (each case counted once, in that
/// precedence).
#[derive(Debug)]
pub struct BindingTally {
    pub automated: usize,
    pub feature: usize,
    pub manual: usize,
    pub unbound: Vec<String>,
}

pub open spec fn tally_spec(
    cases: Seq<Seq<char>>,
    automated: Set<Seq<char>>,
    feature: Set<Seq<char>>,
    manual: Set<Seq<char>>,
) -> (nat, nat, nat, Seq<Seq<char>>)
    decreases cases.len(),
{
    if cases.len() == 0 {
        (0, 0, 0, Seq::empty())
    } else {
        let t = tally_spec(cases.drop_last(), automated, feature, manual);
        let c = cases.last();
        if automated.contains(c) {
            (t.0 + 1, t.1, t.2, t.3)
        } else if feature.contains(c) {
            (t.0, t.1 + 1, t.2, t.3)
        } else if manual.contains(c) {
            (t.0, t.1, t.2 + 1, t.3)
        } else {
            (t.0, t.1, t.2, t.3.push(c))
        }
    }
}

/// Classifies every case by its strongest binding.
pub fn tally(
    case_ids: &Vec<String>,
    automated: &Vec<String>,
    feature: &Vec<String>,
    manual: &Vec<(String, String)>,
) -> (r: BindingTally)
    ensures
        ({
            let t = tally_spec(
                case_ids.deep_view(),
                automated.deep_view().to_set(),
                feature.deep_view().to_set(),
                Set::new(|c: Seq<char>| bound(pairs_view(manual@), c)),
            );
            r.automated == t.0 && r.feature == t.1 && r.manual == t.2 && r.unbound.deep_view() == t.3
        }),
{
    let ghost cv = case_ids.deep_view();
    let ghost ms = Set::new(|c: Seq<char>| bound(pairs_view(manual@), c));
    let mut out = BindingTally { automated: 0, feature: 0, manual: 0, unbound: Vec::new() };
    let mut i: usize = 0;
    assert(cv.take(0) =~= Seq::<Seq<char>>::empty());
    while i < case_ids.len()
        invariant
            cv == case_ids.deep_view(),
            ms == Set::new(|c: Seq<char>| bound(pairs_view(manual@), c)),
            i <= case_ids.len(),
            ({
                let t = tally_spec(cv.take(i as int), automated.deep_view().to_set(), feature.deep_view().to_set(), ms);
                out.automated == t.0 && out.feature == t.1 && out.manual == t.2 && out.unbound.deep_view() == t.3
            }),
            out.automated + out.feature + out.manual <= i,
        decreases case_ids.len() - i,
    {
        let c = case_ids[i].as_str();
        assert(cv[i as int] == c@);
        assert(cv.take(i + 1).drop_last() =~= cv.take(i as int));
        assert(cv.take(i + 1).last() == c@);
        if contains_str_in(automated, c) {
            out.automated = out.automated + 1;
        } else if contains_str_in(feature, c) {
            out.feature = out.feature + 1;
        } else if is_bound(manual, c) {
            out.manual = out.manual + 1;
        } else {
            let ghost u0 = out.unbound.deep_view();
            out.unbound.push(case_ids[i].clone());
            assert(out.unbound.deep_view() =~= u0.push(c@));
        }
        i += 1;
    }
    assert(cv.take(case_ids.len() as int) =~= cv);
    out
}

/// A table line that declares `case_id` bound as `binding`, for a declared
/// case, with an evidence path (the part before `#`) that is a nonempty
/// repository file.
pub open spec fn binds_with_evidence(
    line: Seq<char>,
    case_id: Seq<char>,
    binding: Seq<char>,
    cases: Set<Seq<char>>,
    files: Set<Seq<char>>,
) -> bool {
    match binding_row_spec(line) {
        Some((c, b, e)) => c == case_id && b == binding && cases.contains(c) && split_char(e, '#')[0].len() > 0
            && files.contains(split_char(e, '#')[0]),
        None => false,
    }
}

/// Some line of the table backs the `k`-th binding with evidence.
pub open spec fn binding_backed(
    ls: Seq<Seq<char>>,
    pairs: Seq<(Seq<char>, Seq<char>)>,
    k: int,
    cases: Set<Seq<char>>,
    files: Set<Seq<char>>,
) -> bool {
    exists|l: int| 0 <= l < ls.len() && #[trigger] binds_with_evidence(ls[l], pairs[k].0, pairs[k].1, cases, files)
}

/// Every manual binding the table yields comes from a line of the table
/// that names a declared case and whose evidence path is a nonempty
/// repository file: a row with missing evidence never binds.
pub proof fn lemma_bindings_have_evidence(ls: Seq<Seq<char>>, cases: Set<Seq<char>>, files: Set<Seq<char>>)
    ensures
        forall|k: int|
            0 <= k < manual_bindings_spec(ls, cases, files).0.len() ==> #[trigger] binding_backed(
                ls,
                manual_bindings_spec(ls, cases, files).0,
                k,
                cases,
                files,
            ),
    decreases ls.len(),
{
    if ls.len() > 0 {
        let prev_ls = ls.drop_last();
        lemma_bindings_have_evidence(prev_ls, cases, files);
        let prev = manual_bindings_spec(prev_ls, cases, files);
        let cur = manual_bindings_spec(ls, cases, files);
        assert forall|k: int| 0 <= k < cur.0.len() implies #[trigger] binding_backed(ls, cur.0, k, cases, files) by {
            if k < prev.0.len() {
                assert(binding_backed(prev_ls, prev.0, k, cases, files));
                assert(cur.0[k] == prev.0[k]);
                let l = choose|l: int|
                    0 <= l < prev_ls.len() && #[trigger] binds_with_evidence(prev_ls[l], prev.0[k].0, prev.0[k].1, cases, files);
                assert(prev_ls[l] == ls[l]);
                assert(binds_with_evidence(ls[l], cur.0[k].0, cur.0[k].1, cases, files));
            } else {
                let l = ls.len() - 1;
                assert(ls[l] == ls.last());
                assert(binds_with_evidence(ls[l], cur.0[k].0, cur.0[k].1, cases, files));
            }
        }
    }
}

} // verus!
