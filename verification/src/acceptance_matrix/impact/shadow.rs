//! Full-run observation report for the shadow-only PR selector.
use super::input::{option_value, single_option, valid_revision_spec, validate_revision};
use super::input::PlanArgs;
use super::model::{ImpactPlan, ImpactRegistry, ImpactShard, InputFingerprints};
use super::plan::{build, catalog_keys_unique, plan_matches, plan_succeeds, profile_index, selected_shards_known};
use crate::acceptance_matrix::model::MatrixRow;
use super::plan::shard_index;
use crate::strset::{contains_str_in, is_subset, set_difference, set_extend, set_insert, sorted};
use crate::text::{cat, cat3, chars_of, eq_str, split_once_spec, split_once_str, to_string};
use vstd::prelude::*;

verus! {

/// The arguments of a shadow observation: the revision range and the
/// status of every full CI job, keyed by job.
#[derive(Debug)]
pub struct ShadowArgs {
    pub base: String,
    pub head: String,
    pub results: Vec<(String, String)>,
}

pub open spec fn job_char(c: char) -> bool {
    ('a' <= c <= 'z') || ('0' <= c <= '9') || c == '-'
}

pub open spec fn job_status_ok(s: Seq<char>) -> bool {
    s == "success"@ || s == "failure"@ || s == "cancelled"@ || s == "skipped"@
}

/// A `job=status` result with a canonical job and a known status.
pub open spec fn result_ok(v: Seq<char>) -> bool {
    match split_once_spec(v, '=') {
        Some((job, status)) => job.len() > 0 && (forall|i: int| 0 <= i < job.len() ==> job_char(#[trigger] job[i]))
            && job_status_ok(status),
        None => false,
    }
}

pub open spec fn result_job(v: Seq<char>) -> Seq<char> {
    match split_once_spec(v, '=') {
        Some((job, _)) => job,
        None => Seq::empty(),
    }
}

pub open spec fn shadow_pair_ok(o: Seq<char>, v: Seq<char>) -> bool {
    ||| ((o == "--base"@ || o == "--head"@) && valid_revision_spec(v))
    ||| (o == "--result"@ && result_ok(v))
}

/// The `--result` values, in order.
pub open spec fn result_values(a: Seq<Seq<char>>) -> Seq<Seq<char>>
    decreases a.len(),
{
    if a.len() < 2 {
        Seq::empty()
    } else if a[0] == "--result"@ {
        seq![a[1]] + result_values(a.skip(2))
    } else {
        result_values(a.skip(2))
    }
}

/// Arguments that the shadow report accepts: pairs, each acceptable,
/// `--base` and `--head` once each, at least one result, no job twice.
pub open spec fn shadow_args_accepted(a: Seq<Seq<char>>) -> bool {
    let rs = result_values(a);
    &&& a.len() % 2 == 0
    &&& forall|k: int| 0 <= k < a.len() / 2 ==> shadow_pair_ok(#[trigger] a[2 * k], a[2 * k + 1])
    &&& forall|k1: int, k2: int|
        0 <= k1 < k2 < a.len() / 2 && single_option(#[trigger] a[2 * k1]) ==> a[2 * k1] != #[trigger] a[2 * k2]
    &&& option_value(a, "--base"@) is Some
    &&& option_value(a, "--head"@) is Some
    &&& rs.len() > 0
    &&& forall|x: int, y: int| 0 <= x < y < rs.len() ==> result_job(#[trigger] rs[x]) != result_job(#[trigger] rs[y])
}

proof fn lemma_result_values_step(a: Seq<Seq<char>>, idx: int)
    requires
        0 <= idx,
        idx + 2 <= a.len(),
    ensures
        result_values(a.skip(idx)) == (if a[idx] == "--result"@ {
            seq![a[idx + 1]]
        } else {
            Seq::empty()
        }) + result_values(a.skip(idx + 2)),
{
    let s = a.skip(idx);
    assert(s.skip(2) =~= a.skip(idx + 2));
    assert(s[0] == a[idx]);
    assert(s[1] == a[idx + 1]);
    if a[idx] != "--result"@ {
        assert(Seq::<Seq<char>>::empty() + result_values(a.skip(idx + 2)) =~= result_values(a.skip(idx + 2)));
    }
}

fn check_result(value: &str) -> (r: Option<(String, String)>)
    ensures
        r is Some <==> result_ok(value@),
        r matches Some((j, st)) ==> split_once_spec(value@, '=') == Some((j@, st@)),
{
    let (job, status) = match split_once_str(value, '=') {
        Some(p) => p,
        None => {
            return None;
        },
    };
    let cs = chars_of(job.as_str());
    if cs.len() == 0 {
        return None;
    }
    let mut i: usize = 0;
    while i < cs.len()
        invariant
            i <= cs.len(),
            cs@ == job@,
            split_once_spec(value@, '=') == Some((job@, status@)),
            forall|k: int| 0 <= k < i ==> job_char(#[trigger] cs@[k]),
        decreases cs.len() - i,
    {
        let c = cs[i];
        if !(('a' <= c && c <= 'z') || ('0' <= c && c <= '9') || c == '-') {
            assert(!job_char(cs@[i as int]));
            return None;
        }
        i += 1;
    }
    let st = status.as_str();
    if !(eq_str(st, "success") || eq_str(st, "failure") || eq_str(st, "cancelled") || eq_str(st, "skipped")) {
        return None;
    }
    Some((job, status))
}

proof fn lemma_option_unique(a: Seq<Seq<char>>, name: Seq<char>, k: int)
    requires
        a.len() % 2 == 0,
        forall|k1: int, k2: int|
            0 <= k1 < k2 < a.len() / 2 && single_option(#[trigger] a[2 * k1]) ==> a[2 * k1] != #[trigger] a[2 * k2],
        single_option(name),
        0 <= k < a.len() / 2,
        a[2 * k] == name,
    ensures
        option_value(a, name) == Some(a[2 * k + 1]),
{
    let c = choose|c: int| 0 <= c < a.len() / 2 && #[trigger] a[2 * c] == name;
    if c < k {
        assert(a[2 * c] != a[2 * k]);
    } else if c > k {
        assert(a[2 * k] != a[2 * c]);
    }
}

impl ShadowArgs {
    /// Parses `--base <rev> --head <rev>` and one or more `--result job=status`.
    pub fn parse(args: &Vec<String>) -> (r: Result<ShadowArgs, String>)
        ensures
            r is Ok <==> shadow_args_accepted(args.deep_view()),
            r matches Ok(p) ==> {
                &&& Some(p.base@) == option_value(args.deep_view(), "--base"@)
                &&& Some(p.head@) == option_value(args.deep_view(), "--head"@)
                &&& p.results@.len() == result_values(args.deep_view()).len()
                &&& forall|k: int|
                    #![trigger p.results@[k]]
                    0 <= k < p.results@.len() ==> split_once_spec(result_values(args.deep_view())[k], '=')
                        == Some((p.results@[k].0@, p.results@[k].1@))
            },
    {
        let ghost a = args.deep_view();
        let mut base: Option<String> = None;
        let mut head: Option<String> = None;
        let mut results: Vec<(String, String)> = Vec::new();
        let mut jobs: Vec<String> = Vec::new();
        let ghost mut rs: Seq<Seq<char>> = Seq::empty();
        let mut index: usize = 0;
        assert(a.skip(0) =~= a);
        while index < args.len()
            invariant
                a == args.deep_view(),
                index % 2 == 0,
                index <= args.len(),
                forall|k: int| 0 <= k < index / 2 ==> shadow_pair_ok(#[trigger] a[2 * k], a[2 * k + 1]),
                forall|k1: int, k2: int|
                    0 <= k1 < k2 < index / 2 && single_option(#[trigger] a[2 * k1]) ==> a[2 * k1]
                        != #[trigger] a[2 * k2],
                base is Some ==> exists|k: int|
                    0 <= k < index / 2 && #[trigger] a[2 * k] == "--base"@ && a[2 * k + 1] == base->0@,
                base is None ==> forall|k: int| 0 <= k < index / 2 ==> #[trigger] a[2 * k] != "--base"@,
                head is Some ==> exists|k: int|
                    0 <= k < index / 2 && #[trigger] a[2 * k] == "--head"@ && a[2 * k + 1] == head->0@,
                head is None ==> forall|k: int| 0 <= k < index / 2 ==> #[trigger] a[2 * k] != "--head"@,
                result_values(a) == rs + result_values(a.skip(index as int)),
                results@.len() == rs.len(),
                forall|k: int|
                    #![trigger results@[k]]
                    0 <= k < rs.len() ==> split_once_spec(rs[k], '=') == Some((results@[k].0@, results@[k].1@)),
                forall|x: int, y: int| 0 <= x < y < rs.len() ==> result_job(#[trigger] rs[x]) != result_job(#[trigger] rs[y]),
                sorted(jobs.deep_view()),
                jobs.deep_view().to_set() == Set::new(|j: Seq<char>| exists|x: int| 0 <= x < rs.len() && #[trigger] result_job(rs[x]) == j),
            decreases args.len() - index,
        {
            proof {
                reveal_strlit("--base");
                reveal_strlit("--head");
                reveal_strlit("--result");
                reveal_strlit("--profile");
            }
            assert("--base"@.len() == 6 && "--head"@.len() == 6 && "--result"@.len() == 8 && "--profile"@.len() == 9);
            assert("--base"@[2] == 'b' && "--head"@[2] == 'h');
            let option = args[index].as_str();
            let ghost i = index / 2;
            assert(a[2 * i] == option@);
            if index + 1 >= args.len() {
                return Err(cat3("acceptance-impact-shadow: ", option, " requires a value"));
            }
            let value = args[index + 1].as_str();
            assert(a[2 * i + 1] == value@);
            proof {
                lemma_result_values_step(a, index as int);
            }
            if eq_str(option, "--base") && base.is_none() {
                match validate_revision(value) {
                    Ok(v) => {
                        base = Some(v);
                    },
                    Err(e) => {
                        assert(!shadow_pair_ok(a[2 * i], a[2 * i + 1]));
                        return Err(e);
                    },
                }
                assert(rs + result_values(a.skip(index + 2)) =~= rs + (Seq::<Seq<char>>::empty() + result_values(a.skip(index + 2))));
            } else if eq_str(option, "--head") && head.is_none() {
                match validate_revision(value) {
                    Ok(v) => {
                        head = Some(v);
                    },
                    Err(e) => {
                        assert(!shadow_pair_ok(a[2 * i], a[2 * i + 1]));
                        return Err(e);
                    },
                }
                assert(rs + result_values(a.skip(index + 2)) =~= rs + (Seq::<Seq<char>>::empty() + result_values(a.skip(index + 2))));
            } else if eq_str(option, "--result") {
                let (job, status) = match check_result(value) {
                    Some(p) => p,
                    None => {
                        assert(!shadow_pair_ok(a[2 * i], a[2 * i + 1]));
                        return Err(to_string("acceptance-impact-shadow: invalid or duplicate full CI result"));
                    },
                };
                let ghost rs0 = rs;
                let ghost j0 = jobs.deep_view().to_set();
                let fresh = set_insert(&mut jobs, job.clone());
                if !fresh {
                    proof {
                        assert(j0.contains(job@));
                        let x = choose|x: int| 0 <= x < rs0.len() && #[trigger] result_job(rs0[x]) == job@;
                        let full = result_values(a);
                        assert(full[x] == rs0[x]);
                        assert(full[rs0.len() as int] == value@);
                        assert(result_job(value@) == job@);
                        assert(!shadow_args_accepted(a));
                    }
                    return Err(to_string("acceptance-impact-shadow: invalid or duplicate full CI result"));
                }
                let ghost ro = results@;
                results.push((job, status));
                proof {
                    rs = rs0.push(value@);
                    assert(result_job(value@) == job@);
                    assert(rs + result_values(a.skip(index + 2)) =~= rs0 + (seq![value@] + result_values(a.skip(index + 2))));
                    assert forall|k: int|
                        #![trigger results@[k]]
                        0 <= k < rs.len() implies split_once_spec(rs[k], '=') == Some((results@[k].0@, results@[k].1@)) by {
                        if k < rs0.len() {
                            assert(results@[k] == ro[k]);
                        }
                    }
                    assert forall|x: int, y: int| 0 <= x < y < rs.len() implies result_job(#[trigger] rs[x]) != result_job(#[trigger] rs[y]) by {
                        if y == rs0.len() {
                            assert(rs[x] == rs0[x]);
                            assert(!j0.contains(job@));
                        } else {
                            assert(rs[x] == rs0[x] && rs[y] == rs0[y]);
                        }
                    }
                    assert(jobs.deep_view().to_set() =~= Set::new(|j: Seq<char>| exists|x: int| 0 <= x < rs.len() && #[trigger] result_job(rs[x]) == j)) by {
                        assert forall|j: Seq<char>| #[trigger] jobs.deep_view().to_set().contains(j) implies exists|x: int| 0 <= x < rs.len() && #[trigger] result_job(rs[x]) == j by {
                            if j == job@ {
                                assert(result_job(rs[rs0.len() as int]) == j);
                            } else {
                                let x = choose|x: int| 0 <= x < rs0.len() && #[trigger] result_job(rs0[x]) == j;
                                assert(rs[x] == rs0[x]);
                            }
                        }
                        assert forall|j: Seq<char>| (exists|x: int| 0 <= x < rs.len() && #[trigger] result_job(rs[x]) == j) implies #[trigger] jobs.deep_view().to_set().contains(j) by {
                            let x = choose|x: int| 0 <= x < rs.len() && #[trigger] result_job(rs[x]) == j;
                            if x < rs0.len() {
                                assert(rs[x] == rs0[x]);
                                assert(j0.contains(j));
                            }
                        }
                    }
                }
            } else {
                proof {
                    if shadow_pair_ok(a[2 * i], a[2 * i + 1]) {
                        let k = choose|k: int| 0 <= k < i && #[trigger] a[2 * k] == option@;
                        assert(single_option(a[2 * k]));
                        assert(a[2 * k] == a[2 * i]);
                    }
                }
                return Err(cat("acceptance-impact-shadow: unknown or repeated option ", option));
            }
            index += 2;
        }
        assert(a.skip(index as int) =~= Seq::<Seq<char>>::empty());
        assert(rs + Seq::<Seq<char>>::empty() =~= rs);
        proof {
            if base is Some {
                let k = choose|k: int| 0 <= k < index / 2 && #[trigger] a[2 * k] == "--base"@ && a[2 * k + 1] == base->0@;
                lemma_option_unique(a, "--base"@, k);
            }
            if head is Some {
                let k = choose|k: int| 0 <= k < index / 2 && #[trigger] a[2 * k] == "--head"@ && a[2 * k + 1] == head->0@;
                lemma_option_unique(a, "--head"@, k);
            }
        }
        if results.len() == 0 {
            return Err(to_string("acceptance-impact-shadow: at least one full CI result is required"));
        }
        let base = match base {
            Some(b) => b,
            None => {
                return Err(to_string("acceptance-impact-shadow: --base is required"));
            },
        };
        let head = match head {
            Some(h) => h,
            None => {
                return Err(to_string("acceptance-impact-shadow: --head is required"));
            },
        };
        Ok(ShadowArgs { base, head, results })
    }
}

/// The supplied full CI results name exactly the required jobs.
pub fn validate_result_set(supplied: &Vec<String>, required: &Vec<String>) -> (r: Result<(), String>)
    ensures
        r is Ok <==> supplied.deep_view().to_set() == required.deep_view().to_set(),
{
    if !(is_subset(supplied, required) && is_subset(required, supplied)) {
        return Err(
            to_string("acceptance-impact-shadow: full CI result set is incomplete or contains an unknown job"),
        );
    }
    assert(supplied.deep_view().to_set() =~= required.deep_view().to_set());
    Ok(())
}

/// The jobs whose full CI status is not `success`.
pub open spec fn failures_spec(results: Seq<(String, String)>) -> Set<Seq<char>> {
    Set::new(|j: Seq<char>| exists|k: int| 0 <= k < results.len() && #[trigger] results[k].0@ == j && results[k].1@ != "success"@)
}

/// The failing jobs, and those of them the selection did not run.
pub fn classify_results(results: &Vec<(String, String)>, selected: &Vec<String>) -> (r: (Vec<String>, Vec<String>))
    ensures
        sorted(r.0.deep_view()),
        r.0.deep_view().to_set() == failures_spec(results@),
        sorted(r.1.deep_view()),
        r.1.deep_view().to_set() == failures_spec(results@).difference(selected.deep_view().to_set()),
{
    let mut failures: Vec<String> = Vec::new();
    let mut i: usize = 0;
    proof {
        reveal_strlit("success");
    }
    while i < results.len()
        invariant
            i <= results.len(),
            sorted(failures.deep_view()),
            failures.deep_view().to_set() == failures_spec(results@.take(i as int)),
        decreases results.len() - i,
    {
        let ghost f0 = failures.deep_view().to_set();
        let failed = !eq_str(results[i].1.as_str(), "success");
        if failed {
            set_insert(&mut failures, results[i].0.clone());
        }
        assert forall|k: int| 0 <= k < i implies results@.take(i + 1)[k] == #[trigger] results@.take(i as int)[k] by {}
        assert(results@.take(i + 1)[i as int] == results@[i as int]);
        assert(failures.deep_view().to_set() =~= failures_spec(results@.take(i + 1))) by {
            assert forall|j: Seq<char>| #[trigger] failures_spec(results@.take(i + 1)).contains(j) implies failures.deep_view().to_set().contains(j) by {
                let k = choose|k: int| 0 <= k < i + 1 && #[trigger] results@.take(i + 1)[k].0@ == j && results@.take(i + 1)[k].1@ != "success"@;
                if k < i {
                    assert(failures_spec(results@.take(i as int)).contains(j));
                }
            }
            assert forall|j: Seq<char>| #[trigger] failures.deep_view().to_set().contains(j) implies failures_spec(results@.take(i + 1)).contains(j) by {
                if f0.contains(j) {
                    let k = choose|k: int| 0 <= k < i && #[trigger] results@.take(i as int)[k].0@ == j && results@.take(i as int)[k].1@ != "success"@;
                    assert(results@.take(i + 1)[k] == results@.take(i as int)[k]);
                }
            }
        }
        i += 1;
    }
    assert(results@.take(results.len() as int) =~= results@);
    let misses = set_difference(&failures, selected);
    (failures, misses)
}

/// The observation report: never pass evidence, only a record of whether
/// the selector would have missed a failing full CI job.
#[derive(Debug)]
pub struct ShadowReport {
    pub schema: u8,
    pub status: String,
    pub selector_outcome: String,
    pub selection: ImpactPlan,
    pub full_job_results: Vec<(String, String)>,
    pub selected_ci_jobs: Vec<String>,
    pub full_failures: Vec<String>,
    pub observed_misses: Vec<String>,
}

/// The CI jobs of the source shards.
pub open spec fn source_jobs(ss: Seq<ImpactShard>) -> Set<Seq<char>> {
    Set::new(|j: Seq<char>| exists|i: int| 0 <= i < ss.len() && ss[i].layer@ == "source"@ && #[trigger] ss[i].ci_jobs.deep_view().contains(j))
}

pub open spec fn shard_lists_job(ss: Seq<ImpactShard>, s: Seq<char>, j: Seq<char>) -> bool {
    match shard_index(ss, s) {
        Some(k) => ss[k].ci_jobs.deep_view().contains(j),
        None => false,
    }
}

/// The CI jobs of the selected shards.
pub open spec fn selected_jobs_spec(ss: Seq<ImpactShard>, sel: Set<Seq<char>>) -> Set<Seq<char>> {
    Set::new(|j: Seq<char>| exists|s: Seq<char>| sel.contains(s) && #[trigger] shard_lists_job(ss, s, j))
}

pub open spec fn result_jobs(results: Seq<(String, String)>) -> Set<Seq<char>> {
    Set::new(|j: Seq<char>| exists|k: int| 0 <= k < results.len() && #[trigger] results[k].0@ == j)
}

fn source_job_set(ss: &Vec<ImpactShard>) -> (r: Vec<String>)
    ensures
        r.deep_view().to_set() == source_jobs(ss@),
{
    let mut r: Vec<String> = Vec::new();
    let mut i: usize = 0;
    while i < ss.len()
        invariant
            i <= ss.len(),
            sorted(r.deep_view()),
            r.deep_view().to_set() == source_jobs(ss@.take(i as int)),
        decreases ss.len() - i,
    {
        let ghost r0 = r.deep_view().to_set();
        let is_source = eq_str(ss[i].layer.as_str(), "source");
        if is_source {
            set_extend(&mut r, &ss[i].ci_jobs);
        }
        assert forall|k: int| 0 <= k < i implies ss@.take(i + 1)[k] == #[trigger] ss@.take(i as int)[k] by {}
        assert(ss@.take(i + 1)[i as int] == ss@[i as int]);
        assert(r.deep_view().to_set() =~= source_jobs(ss@.take(i + 1))) by {
            assert forall|j: Seq<char>| #[trigger] source_jobs(ss@.take(i + 1)).contains(j) implies r.deep_view().to_set().contains(j) by {
                let k = choose|k: int| 0 <= k < i + 1 && ss@.take(i + 1)[k].layer@ == "source"@ && #[trigger] ss@.take(i + 1)[k].ci_jobs.deep_view().contains(j);
                if k < i {
                    assert(source_jobs(ss@.take(i as int)).contains(j));
                } else {
                    assert(ss@[i as int].ci_jobs.deep_view().to_set().contains(j));
                }
            }
            assert forall|j: Seq<char>| #[trigger] r.deep_view().to_set().contains(j) implies source_jobs(ss@.take(i + 1)).contains(j) by {
                if r0.contains(j) {
                    let k = choose|k: int| 0 <= k < i && ss@.take(i as int)[k].layer@ == "source"@ && #[trigger] ss@.take(i as int)[k].ci_jobs.deep_view().contains(j);
                    assert(ss@.take(i + 1)[k] == ss@.take(i as int)[k]);
                } else {
                    assert(ss@[i as int].ci_jobs.deep_view().to_set().contains(j));
                    assert(ss@[i as int].ci_jobs.deep_view().contains(j));
                }
            }
        }
        i += 1;
    }
    assert(ss@.take(ss.len() as int) =~= ss@);
    r
}

fn selected_job_set(ss: &Vec<ImpactShard>, sel: &Vec<String>) -> (r: Vec<String>)
    ensures
        sorted(r.deep_view()),
        r.deep_view().to_set() == selected_jobs_spec(ss@, sel.deep_view().to_set()),
{
    let ghost sv = sel.deep_view();
    let mut r: Vec<String> = Vec::new();
    let mut i: usize = 0;
    assert(selected_jobs_spec(ss@, sv.take(0).to_set()) =~= Set::empty());
    while i < sel.len()
        invariant
            sv == sel.deep_view(),
            i <= sel.len(),
            sorted(r.deep_view()),
            r.deep_view().to_set() == selected_jobs_spec(ss@, sv.take(i as int).to_set()),
        decreases sel.len() - i,
    {
        let id = sel[i].as_str();
        assert(sv[i as int] == id@);
        assert(sv.take(i + 1) =~= sv.take(i as int).push(id@));
        proof {
            sv.take(i as int).lemma_push_to_set_commute(id@);
        }
        let ghost r0 = r.deep_view().to_set();
        match super::plan::find_shard(ss, id) {
            Some(k) => {
                set_extend(&mut r, &ss[k].ci_jobs);
                assert(r.deep_view().to_set() =~= selected_jobs_spec(ss@, sv.take(i + 1).to_set())) by {
                    assert forall|j: Seq<char>| #[trigger] selected_jobs_spec(ss@, sv.take(i + 1).to_set()).contains(j) implies r.deep_view().to_set().contains(j) by {
                        let s = choose|s: Seq<char>| sv.take(i + 1).to_set().contains(s) && #[trigger] shard_lists_job(ss@, s, j);
                        if s != id@ {
                            assert(sv.take(i as int).to_set().contains(s));
                        } else {
                            assert(ss@[k as int].ci_jobs.deep_view().to_set().contains(j));
                        }
                    }
                    assert forall|j: Seq<char>| #[trigger] r.deep_view().to_set().contains(j) implies selected_jobs_spec(ss@, sv.take(i + 1).to_set()).contains(j) by {
                        if r0.contains(j) {
                            let s = choose|s: Seq<char>| sv.take(i as int).to_set().contains(s) && #[trigger] shard_lists_job(ss@, s, j);
                            assert(sv.take(i + 1).to_set().contains(s));
                        } else {
                            assert(ss@[k as int].ci_jobs.deep_view().to_set().contains(j));
                            assert(shard_lists_job(ss@, id@, j));
                        }
                    }
                }
            },
            None => {
                assert(r.deep_view().to_set() =~= selected_jobs_spec(ss@, sv.take(i + 1).to_set())) by {
                    assert forall|j: Seq<char>| #[trigger] selected_jobs_spec(ss@, sv.take(i + 1).to_set()).contains(j) implies r.deep_view().to_set().contains(j) by {
                        let s = choose|s: Seq<char>| sv.take(i + 1).to_set().contains(s) && #[trigger] shard_lists_job(ss@, s, j);
                        if s != id@ {
                            assert(sv.take(i as int).to_set().contains(s));
                        }
                    }
                    assert forall|j: Seq<char>| #[trigger] r.deep_view().to_set().contains(j) implies selected_jobs_spec(ss@, sv.take(i + 1).to_set()).contains(j) by {
                        let s = choose|s: Seq<char>| sv.take(i as int).to_set().contains(s) && #[trigger] shard_lists_job(ss@, s, j);
                        assert(sv.take(i + 1).to_set().contains(s));
                    }
                }
            },
        }
        i += 1;
    }
    assert(sv.take(sel.len() as int) =~= sv);
    r
}

/// Builds the observation report for a revision range: the `pr-selective`
/// plan over `changed_files` (the change set of `base...head`), checked
/// against the complete set of full CI results.
pub fn render(
    registry: &ImpactRegistry,
    fingerprints: InputFingerprints,
    args: ShadowArgs,
    changed_files: Vec<String>,
    evidence_by_producer: &Vec<(String, Vec<String>)>,
    rows: &Vec<MatrixRow>,
) -> (r: Result<ShadowReport, String>)
    requires
        profile_index(registry.profiles@, "pr-selective"@) matches Some(i) ==> selected_shards_known(
            *registry,
            changed_files.deep_view().to_set(),
            registry.profiles@[i],
        ),
        catalog_keys_unique(evidence_by_producer@),
    ensures
        match profile_index(registry.profiles@, "pr-selective"@) {
            None => r is Err,
            Some(i) => {
                let p = registry.profiles@[i];
                let files = changed_files.deep_view().to_set();
                &&& (r is Ok <==> plan_succeeds(*registry, files, evidence_by_producer@, p) && result_jobs(args.results@)
                    == source_jobs(registry.shards@))
                &&& (r matches Ok(rep) ==> {
                    let sel = rep.selection.selected_shards.deep_view().to_set();
                    let jobs = selected_jobs_spec(registry.shards@, sel);
                    &&& plan_matches(
                        rep.selection,
                        *registry,
                        fingerprints,
                        Some(args.base@),
                        Some(args.head@),
                        files,
                        evidence_by_producer@,
                        rows@,
                        p,
                    )
                    &&& rep.schema == 1
                    &&& rep.status@ == "shadow-only-not-pass-evidence"@
                    &&& rep.full_job_results@ == args.results@
                    &&& sorted(rep.selected_ci_jobs.deep_view()) && rep.selected_ci_jobs.deep_view().to_set() == jobs
                    &&& sorted(rep.full_failures.deep_view()) && rep.full_failures.deep_view().to_set() == failures_spec(args.results@)
                    &&& sorted(rep.observed_misses.deep_view()) && rep.observed_misses.deep_view().to_set()
                        == failures_spec(args.results@).difference(jobs)
                    &&& rep.selector_outcome@ == (if failures_spec(args.results@).difference(jobs) == Set::<Seq<char>>::empty() {
                        "no-observed-miss"@
                    } else {
                        "observed-miss"@
                    })
                })
            },
        },
{
    let ShadowArgs { base, head, results } = args;
    let plan_args = PlanArgs {
        profile: to_string("pr-selective"),
        base: Some(base),
        head: Some(head),
        changed_files,
    };
    let selection = build(registry, fingerprints, plan_args, evidence_by_producer, rows)?;
    let required = source_job_set(&registry.shards);
    let mut supplied: Vec<String> = Vec::new();
    let mut i: usize = 0;
    while i < results.len()
        invariant
            i <= results.len(),
            supplied.deep_view() =~= Seq::new(i as nat, |k: int| results@[k].0@),
        decreases results.len() - i,
    {
        let ghost s0 = supplied.deep_view();
        supplied.push(results[i].0.clone());
        assert(supplied.deep_view() =~= s0.push(results@[i as int].0@));
        i += 1;
    }
    assert(supplied.deep_view().to_set() =~= result_jobs(results@)) by {
        assert forall|j: Seq<char>| #[trigger] result_jobs(results@).contains(j) implies supplied.deep_view().to_set().contains(j) by {
            let k = choose|k: int| 0 <= k < results@.len() && #[trigger] results@[k].0@ == j;
            assert(supplied.deep_view()[k] == j);
        }
    }
    validate_result_set(&supplied, &required)?;
    let selected = selected_job_set(&registry.shards, &selection.selected_shards);
    let (full_failures, observed_misses) = classify_results(&results, &selected);
    proof {
        crate::strset::lemma_to_set_empty(observed_misses.deep_view());
    }
    let outcome = if observed_misses.len() == 0 {
        "no-observed-miss"
    } else {
        "observed-miss"
    };
    Ok(ShadowReport {
        schema: 1,
        status: to_string("shadow-only-not-pass-evidence"),
        selector_outcome: to_string(outcome),
        selection,
        full_job_results: results,
        selected_ci_jobs: selected,
        full_failures,
        observed_misses,
    })
}

} // verus!
