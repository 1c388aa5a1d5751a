//! Fail-closed candidate workflow projection for receipt producers.
use super::model::{Producer, ProducerRegistry};
use super::receipt_artifacts::{required_field, string_field};
use super::release_command::{candidate_command_spec, parse_candidate_command, shell_view};
use super::receipt_artifacts::{upload_set_ok, workflow_uploads};
use super::structure::{candidate_ok, validate_candidate};
use super::yaml::{
    as_mapping, as_sequence, as_string, has_key, load_yaml, lookup, mapping_of, optional, positive_of, sequence_of,
    string_of, yaml_documents, YamlNode,
};
use crate::acceptance_matrix::model::MatrixRow;
use crate::strset::{set_difference, set_insert, sorted, sorted_set_of};
use crate::text::{cat, cat3, decimal_string, eq_str, join, to_string};
use vstd::prelude::*;

verus! {

/// Seconds a candidate producer job reserves beyond its producers' deadlines.
pub const PRODUCER_JOB_MARGIN_SECONDS: u64 = 900;

/// A job's `defaults` may only pin `run.shell` to bash.
#[verifier::opaque]
pub open spec fn defaults_ok(job: Seq<(YamlNode, YamlNode)>) -> bool {
    match lookup(job, "defaults"@) {
        None => true,
        Some(d) => match mapping_of(d) {
            None => false,
            Some(dh) => dh.len() == 1 && match lookup(dh, "run"@) {
                None => false,
                Some(rv) => match mapping_of(rv) {
                    None => false,
                    Some(rh) => rh.len() == 1 && string_field(rh, "shell"@) == Some("bash"@),
                },
            },
        },
    }
}

/// The step's `shell`, or an error (`None`) when it is not a string.
pub open spec fn shell_of(st: Seq<(YamlNode, YamlNode)>) -> Option<Option<Seq<char>>> {
    match lookup(st, "shell"@) {
        None => Some(None),
        Some(v) => match string_of(v) {
            Some(s) => Some(Some(s)),
            None => None,
        },
    }
}

/// A candidate producer step runs unconditionally, untolerated, outside a
/// matrix, with bash defaults at most, and without reinterpreted execution.
pub open spec fn candidate_step_settled(job: Seq<(YamlNode, YamlNode)>, st: Seq<(YamlNode, YamlNode)>) -> bool {
    &&& !has_key(st, "if"@) && !has_key(job, "if"@)
    &&& !has_key(st, "continue-on-error"@) && !has_key(job, "continue-on-error"@)
    &&& !has_key(job, "strategy"@)
    &&& defaults_ok(job)
    &&& !has_key(st, "working-directory"@) && !has_key(st, "timeout-minutes"@)
}

/// The producers one step invokes, or an error (`None`).
#[verifier::opaque]
pub open spec fn step_candidates(job: Seq<(YamlNode, YamlNode)>, step: YamlNode) -> Option<Seq<Seq<char>>> {
    match mapping_of(step) {
        None => None,
        Some(st) => match lookup(st, "run"@) {
            None => Some(Seq::empty()),
            Some(rv) => match string_of(rv) {
                None => None,
                Some(run) => match shell_of(st) {
                    None => None,
                    Some(shell) => match candidate_command_spec(run, shell) {
                        None => None,
                        Some(None) => Some(Seq::empty()),
                        Some(Some(ps)) => if candidate_step_settled(job, st) {
                            Some(ps)
                        } else {
                            None
                        },
                    },
                },
            },
        },
    }
}

/// The producers the first `n` steps of a job invoke.
pub open spec fn steps_candidates(job: Seq<(YamlNode, YamlNode)>, steps: Seq<YamlNode>, n: int) -> Option<Seq<Seq<char>>>
    decreases n,
{
    if n <= 0 {
        Some(Seq::empty())
    } else {
        match steps_candidates(job, steps, n - 1) {
            None => None,
            Some(acc) => match step_candidates(job, steps[n - 1]) {
                None => None,
                Some(ps) => Some(acc + ps),
            },
        }
    }
}

/// The deadline registered for a producer (the last entry wins).
pub open spec fn timeout_of(timeouts: Seq<(String, u64)>, id: Seq<char>) -> Option<u64> {
    if exists|i: int| 0 <= i < timeouts.len() && (#[trigger] timeouts[i]).0@ == id {
        Some(
            timeouts[choose|i: int|
                0 <= i < timeouts.len() && (#[trigger] timeouts[i]).0@ == id && forall|j: int|
                    i < j < timeouts.len() ==> (#[trigger] timeouts[j]).0@ != id].1,
        )
    } else {
        None
    }
}

/// The summed deadline of the first `n` producers.
pub open spec fn deadline_sum(timeouts: Seq<(String, u64)>, ps: Seq<Seq<char>>, n: int) -> int
    decreases n,
{
    if n <= 0 {
        0
    } else {
        deadline_sum(timeouts, ps, n - 1) + match timeout_of(timeouts, ps[n - 1]) {
            Some(t) => t as int,
            None => 0,
        }
    }
}

pub open spec fn all_known(timeouts: Seq<(String, u64)>, ps: Seq<Seq<char>>) -> bool {
    forall|k: int| 0 <= k < ps.len() ==> timeout_of(timeouts, #[trigger] ps[k]) is Some
}

/// The job's deadline covers its producers' deadlines plus the margin.
#[verifier::opaque]
pub open spec fn budget_ok(job: Seq<(YamlNode, YamlNode)>, ps: Seq<Seq<char>>, timeouts: Seq<(String, u64)>) -> bool {
    match lookup(job, "timeout-minutes"@) {
        None => false,
        Some(tv) => match positive_of(tv) {
            None => false,
            Some(minutes) => {
                &&& all_known(timeouts, ps)
                &&& deadline_sum(timeouts, ps, ps.len() as int) + PRODUCER_JOB_MARGIN_SECONDS <= u64::MAX
                &&& (if minutes * 60 > u64::MAX { u64::MAX as int } else { minutes * 60 }) >= deadline_sum(
                    timeouts,
                    ps,
                    ps.len() as int,
                ) + PRODUCER_JOB_MARGIN_SECONDS
            },
        },
    }
}

/// The producers one job invokes, or an error (`None`).
#[verifier::opaque]
pub open spec fn job_candidates(entry: (YamlNode, YamlNode), timeouts: Seq<(String, u64)>) -> Option<Seq<Seq<char>>> {
    if string_of(entry.0) is None {
        None
    } else {
        match mapping_of(entry.1) {
            None => None,
            Some(job) => match lookup(job, "steps"@) {
                None => Some(Seq::empty()),
                Some(sv) => match sequence_of(sv) {
                    None => None,
                    Some(steps) => match steps_candidates(job, steps, steps.len() as int) {
                        None => None,
                        Some(ps) => if ps.len() > 0 && !budget_ok(job, ps, timeouts) {
                            None
                        } else {
                            Some(ps)
                        },
                    },
                },
            },
        }
    }
}

/// The producers the first `n` jobs invoke.
pub open spec fn jobs_candidates(jobs: Seq<(YamlNode, YamlNode)>, timeouts: Seq<(String, u64)>, n: int) -> Option<
    Seq<Seq<char>>,
>
    decreases n,
{
    if n <= 0 {
        Some(Seq::empty())
    } else {
        match jobs_candidates(jobs, timeouts, n - 1) {
            None => None,
            Some(acc) => match job_candidates(jobs[n - 1], timeouts) {
                None => None,
                Some(ps) => Some(acc + ps),
            },
        }
    }
}

/// The producers a loaded candidate workflow invokes, in document order.
pub open spec fn workflow_candidates(docs: Seq<YamlNode>, timeouts: Seq<(String, u64)>) -> Option<Seq<Seq<char>>> {
    if docs.len() != 1 {
        None
    } else {
        match mapping_of(docs[0]) {
            None => None,
            Some(root) => if has_key(root, "defaults"@) {
                None
            } else {
                match lookup(root, "jobs"@) {
                    None => None,
                    Some(jv) => match mapping_of(jv) {
                        None => None,
                        Some(jobs) => jobs_candidates(jobs, timeouts, jobs.len() as int),
                    },
                }
            },
        }
    }
}


pub fn validate_defaults(job: &Vec<(YamlNode, YamlNode)>, job_path: &str) -> (r: Result<(), String>)
    ensures
        r is Ok <==> defaults_ok(job@),
{
    proof {
        reveal(defaults_ok);
    }
    let defaults = match optional(job, "defaults") {
        Some(d) => d,
        None => {
            return Ok(());
        },
    };
    let defaults_path = cat(job_path, ".defaults");
    let defaults = as_mapping(defaults, defaults_path.as_str())?;
    if defaults.len() != 1 {
        return Err(cat3("acceptance producers: ", job_path, ".defaults must contain only run.shell"));
    }
    let run_path = cat(defaults_path.as_str(), ".run");
    let run = as_mapping(required_field(defaults, "run", defaults_path.as_str())?, run_path.as_str())?;
    let bad = cat3("acceptance producers: ", job_path, ".defaults.run.shell must be exact bash");
    if run.len() != 1 {
        return Err(bad);
    }
    let shell = as_string(required_field(run, "shell", run_path.as_str())?, cat(run_path.as_str(), ".shell").as_str())?;
    if !eq_str(shell, "bash") {
        return Err(bad);
    }
    Ok(())
}

fn timeout_lookup(timeouts: &Vec<(String, u64)>, id: &str) -> (r: Option<u64>)
    ensures
        r == timeout_of(timeouts@, id@),
{
    let mut found: Option<usize> = None;
    let mut i: usize = 0;
    while i < timeouts.len()
        invariant
            i <= timeouts@.len(),
            match found {
                Some(f) => f < i && timeouts@[f as int].0@ == id@ && forall|j: int| f < j < i ==> (#[trigger] timeouts@[j]).0@ != id@,
                None => forall|j: int| 0 <= j < i ==> (#[trigger] timeouts@[j]).0@ != id@,
            },
        decreases timeouts@.len() - i,
    {
        if eq_str(timeouts[i].0.as_str(), id) {
            found = Some(i);
        }
        i += 1;
    }
    match found {
        Some(f) => {
            proof {
                assert((timeouts@[f as int]).0@ == id@);
                let c = choose|c: int|
                    0 <= c < timeouts@.len() && (#[trigger] timeouts@[c]).0@ == id@ && forall|j: int|
                        c < j < timeouts@.len() ==> (#[trigger] timeouts@[j]).0@ != id@;
                if c < f {
                    assert(timeouts@[f as int].0@ != id@);
                }
                if c > f {
                    assert(timeouts@[c].0@ != id@);
                }
            }
            Some(timeouts[f].1)
        },
        None => None,
    }
}

proof fn lemma_deadline_monotone(timeouts: Seq<(String, u64)>, ps: Seq<Seq<char>>, n: int, m: int)
    requires
        0 <= n <= m,
    ensures
        deadline_sum(timeouts, ps, n) <= deadline_sum(timeouts, ps, m),
    decreases m - n,
{
    if m > n {
        lemma_deadline_monotone(timeouts, ps, n, m - 1);
    }
}

#[verifier::rlimit(30)]
pub fn validate_budget(job_path: &str, job: &Vec<(YamlNode, YamlNode)>, producers: &Vec<String>, timeouts: &Vec<(String, u64)>) -> (r:
    Result<(), String>)
    ensures
        r is Ok <==> budget_ok(job@, producers.deep_view(), timeouts@),
{
    proof {
        reveal(budget_ok);
    }
    let positive = cat3("acceptance producers: ", job_path, ".timeout-minutes must be a positive integer");
    let minutes: u64 = match required_field(job, "timeout-minutes", job_path)? {
        YamlNode::Integer(v) => {
            if *v > 0 {
                *v as u64
            } else {
                return Err(positive);
            }
        },
        _ => {
            return Err(positive);
        },
    };
    let ghost ps = producers.deep_view();
    let mut total: u64 = 0;
    let mut k: usize = 0;
    while k < producers.len()
        invariant
            ps == producers.deep_view(),
            k <= ps.len(),
            total == deadline_sum(timeouts@, ps, k as int),
            forall|q: int| 0 <= q < k ==> timeout_of(timeouts@, #[trigger] ps[q]) is Some,
        decreases ps.len() - k,
    {
        let id = producers[k].as_str();
        assert(ps[k as int] == id@);
        let timeout = match timeout_lookup(timeouts, id) {
            Some(t) => t,
            None => {
                proof {
                    reveal(budget_ok);
                    assert(!all_known(timeouts@, ps));
                }
                return Err(cat("acceptance producers: unknown producer ", id));
            },
        };
        proof {
            lemma_deadline_monotone(timeouts@, ps, k + 1, ps.len() as int);
        }
        total = match total.checked_add(timeout) {
            Some(t) => t,
            None => {
                proof {
                    reveal(budget_ok);
                }
                return Err(to_string("acceptance producers: producer timeout sum overflow"));
            },
        };
        k += 1;
    }
    let needed = match total.checked_add(PRODUCER_JOB_MARGIN_SECONDS) {
        Some(t) => t,
        None => {
            return Err(to_string("acceptance producers: producer job budget overflow"));
        },
    };
    let budget: u64 = if minutes > u64::MAX / 60 { u64::MAX } else { minutes * 60 };
    if budget < needed {
        let head = cat3("acceptance producers: ", job_path, " timeout ");
        return Err(cat3(head.as_str(), decimal_string(minutes as u128).as_str(), "m is below producer deadlines plus 15m margin"));
    }
    Ok(())
}

fn check_settled(job: &Vec<(YamlNode, YamlNode)>, step: &Vec<(YamlNode, YamlNode)>, job_path: &str, step_path: &str) -> (r:
    Result<(), String>)
    ensures
        r is Ok <==> candidate_step_settled(job@, step@),
{
    let tolerated = cat3("acceptance producers: ", step_path, " candidate producer may not be conditional or tolerated");
    if optional(step, "if").is_some() || optional(job, "if").is_some() {
        return Err(tolerated);
    }
    if optional(step, "continue-on-error").is_some() || optional(job, "continue-on-error").is_some() {
        return Err(tolerated);
    }
    if optional(job, "strategy").is_some() {
        return Err(cat3("acceptance producers: ", job_path, " candidate producer may not use a matrix strategy"));
    }
    validate_defaults(job, job_path)?;
    if optional(step, "working-directory").is_some() || optional(step, "timeout-minutes").is_some() {
        return Err(cat3(
            "acceptance producers: ",
            step_path,
            " candidate producer may not reinterpret execution defaults",
        ));
    }
    Ok(())
}

fn step_candidates_exec(
    job: &Vec<(YamlNode, YamlNode)>,
    node: &YamlNode,
    job_path: &str,
    step_path: &str,
) -> (r: Result<Vec<String>, String>)
    ensures
        match step_candidates(job@, *node) {
            None => r is Err,
            Some(ps) => r matches Ok(v) && v.deep_view() == ps,
        },
{
    proof {
        reveal(step_candidates);
    }
    let step = as_mapping(node, step_path)?;
    let none: Vec<String> = Vec::new();
    assert(none.deep_view() =~= Seq::<Seq<char>>::empty());
    let run = match optional(step, "run") {
        Some(v) => v,
        None => {
            return Ok(none);
        },
    };
    let run = as_string(run, cat(step_path, ".run").as_str())?;
    let shell: Option<&str> = match optional(step, "shell") {
        Some(v) => Some(as_string(v, cat(step_path, ".shell").as_str())?),
        None => None,
    };
    assert(shell_of(step@) == Some(shell_view(shell)));
    let producers = match parse_candidate_command(run, shell, step_path)? {
        Some(ps) => ps,
        None => {
            return Ok(none);
        },
    };
    check_settled(job, step, job_path, step_path)?;
    Ok(producers)
}

proof fn lemma_steps_candidates_none(job: Seq<(YamlNode, YamlNode)>, steps: Seq<YamlNode>, n: int, m: int)
    requires
        0 <= n <= m,
        steps_candidates(job, steps, n) is None,
    ensures
        steps_candidates(job, steps, m) is None,
    decreases m - n,
{
    if m > n {
        lemma_steps_candidates_none(job, steps, n, m - 1);
    }
}

proof fn lemma_jobs_candidates_none(jobs: Seq<(YamlNode, YamlNode)>, timeouts: Seq<(String, u64)>, n: int, m: int)
    requires
        0 <= n <= m,
        jobs_candidates(jobs, timeouts, n) is None,
    ensures
        jobs_candidates(jobs, timeouts, m) is None,
    decreases m - n,
{
    if m > n {
        lemma_jobs_candidates_none(jobs, timeouts, n, m - 1);
    }
}

fn append_all(out: &mut Vec<String>, items: &Vec<String>)
    ensures
        final(out).deep_view() == old(out).deep_view() + items.deep_view(),
{
    let ghost start = out.deep_view();
    let mut q: usize = 0;
    while q < items.len()
        invariant
            q <= items@.len(),
            out.deep_view() == start + items.deep_view().take(q as int),
        decreases items@.len() - q,
    {
        let ghost b = out.deep_view();
        let item = to_string(items[q].as_str());
        out.push(item);
        assert(out.deep_view() =~= b.push(item@));
        assert(items.deep_view().take(q + 1) =~= items.deep_view().take(q as int).push(items@[q as int]@));
        q += 1;
    }
    assert(items.deep_view().take(items@.len() as int) =~= items.deep_view());
}

fn job_candidates_exec(entry: &(YamlNode, YamlNode), label: &str, timeouts: &Vec<(String, u64)>) -> (r: Result<
    Vec<String>,
    String,
>)
    ensures
        match job_candidates(*entry, timeouts@) {
            None => r is Err,
            Some(ps) => r matches Ok(v) && v.deep_view() == ps,
        },
{
    proof {
        reveal(job_candidates);
    }
    let job_id = as_string(&entry.0, cat(label, ".jobs key").as_str())?;
    let job_path = cat3(label, ".jobs.", job_id);
    let job = as_mapping(&entry.1, job_path.as_str())?;
    let mut out: Vec<String> = Vec::new();
    assert(out.deep_view() =~= Seq::<Seq<char>>::empty());
    let steps = match optional(job, "steps") {
        Some(v) => v,
        None => {
            return Ok(out);
        },
    };
    let steps = as_sequence(steps, cat(job_path.as_str(), ".steps").as_str())?;
    let ghost sv = steps@;
    let ghost whole = match steps_candidates(job@, sv, sv.len() as int) {
        None => None,
        Some(ps) => if ps.len() > 0 && !budget_ok(job@, ps, timeouts@) {
            None
        } else {
            Some(ps)
        },
    };
    assert(job_candidates(*entry, timeouts@) == whole);
    let mut index: usize = 0;
    while index < steps.len()
        invariant
            sv == steps@,
            index <= sv.len(),
            job_candidates(*entry, timeouts@) == whole,
            whole == match steps_candidates(job@, sv, sv.len() as int) {
                None => None,
                Some(ps) => if ps.len() > 0 && !budget_ok(job@, ps, timeouts@) {
                    None
                } else {
                    Some(ps)
                },
            },
            steps_candidates(job@, sv, index as int) == Some(out.deep_view()),
        decreases sv.len() - index,
    {
        let head = cat3(job_path.as_str(), ".steps[", decimal_string(index as u128).as_str());
        let step_path = cat(head.as_str(), "]");
        let found = step_candidates_exec(job, &steps[index], job_path.as_str(), step_path.as_str());
        if found.is_err() {
            proof {
                lemma_steps_candidates_none(job@, sv, index + 1, sv.len() as int);
            }
        }
        let ps = found?;
        append_all(&mut out, &ps);
        index += 1;
    }
    if out.len() > 0 {
        validate_budget(job_path.as_str(), job, &out, timeouts)?;
    }
    Ok(out)
}

/// The producers a loaded candidate workflow invokes, in document order.
pub fn document_candidates(label: &str, docs: &Vec<YamlNode>, timeouts: &Vec<(String, u64)>) -> (r: Result<
    Vec<String>,
    String,
>)
    ensures
        match workflow_candidates(docs@, timeouts@) {
            None => r is Err,
            Some(ps) => r matches Ok(v) && v.deep_view() == ps,
        },
{
    if docs.len() != 1 {
        return Err(cat3("acceptance producers: ", label, " must contain one YAML document"));
    }
    let root = as_mapping(&docs[0], label)?;
    if optional(root, "defaults").is_some() {
        return Err(cat3("acceptance producers: ", label, " may not override workflow run defaults"));
    }
    let jobs = as_mapping(required_field(root, "jobs", label)?, cat(label, ".jobs").as_str())?;
    let ghost jv = jobs@;
    let mut out: Vec<String> = Vec::new();
    assert(out.deep_view() =~= Seq::<Seq<char>>::empty());
    let mut k: usize = 0;
    while k < jobs.len()
        invariant
            jv == jobs@,
            k <= jv.len(),
            workflow_candidates(docs@, timeouts@) == jobs_candidates(jv, timeouts@, jv.len() as int),
            jobs_candidates(jv, timeouts@, k as int) == Some(out.deep_view()),
        decreases jv.len() - k,
    {
        let found = job_candidates_exec(&jobs[k], label, timeouts);
        if found.is_err() {
            proof {
                lemma_jobs_candidates_none(jv, timeouts@, k + 1, jv.len() as int);
            }
        }
        let ps = found?;
        append_all(&mut out, &ps);
        k += 1;
    }
    Ok(out)
}

/// The producers a candidate workflow text invokes (with `timeouts`, the
/// registered deadline of each producer); text that does not load as YAML is
/// refused.
pub fn collect_workflow(label: &str, content: &str, timeouts: &Vec<(String, u64)>) -> (r: Result<Vec<String>, String>)
    ensures
        match yaml_documents(content@) {
            None => r is Err,
            Some(d) => match workflow_candidates(d, timeouts@) {
                None => r is Err,
                Some(ps) => r matches Ok(v) && v.deep_view() == ps,
            },
        },
{
    match load_yaml(content) {
        Some(docs) => document_candidates(label, &docs, timeouts),
        None => Err(cat3("acceptance producers: ", label, " is not valid YAML")),
    }
}


/// How often `x` occurs in `v`.
pub open spec fn occurrence_count(v: Seq<Seq<char>>, x: Seq<char>) -> nat
    decreases v.len(),
{
    if v.len() == 0 {
        0
    } else {
        occurrence_count(v.drop_last(), x) + if v.last() == x {
            1nat
        } else {
            0nat
        }
    }
}

pub open spec fn tally_keys(t: Seq<(String, usize)>) -> Seq<Seq<char>> {
    t.map_values(|e: (String, usize)| e.0@)
}

/// Counts each invoked producer: one entry per distinct producer, in order,
/// with the number of times it is invoked.
pub fn tally(invocations: &Vec<String>) -> (r: Vec<(String, usize)>)
    ensures
        sorted(tally_keys(r@)),
        tally_keys(r@).to_set() == invocations.deep_view().to_set(),
        forall|i: int| 0 <= i < r@.len() ==> (#[trigger] r@[i]).1 == occurrence_count(invocations.deep_view(), r@[i].0@),
{
    let keys = sorted_set_of(invocations);
    let mut out: Vec<(String, usize)> = Vec::new();
    let mut k: usize = 0;
    while k < keys.len()
        invariant
            k <= keys@.len(),
            tally_keys(out@) == keys.deep_view().take(k as int),
            forall|i: int| 0 <= i < out@.len() ==> (#[trigger] out@[i]).1 == occurrence_count(invocations.deep_view(), out@[i].0@),
        decreases keys@.len() - k,
    {
        let key = keys[k].as_str();
        let mut c: usize = 0;
        let mut j: usize = 0;
        while j < invocations.len()
            invariant
                j <= invocations@.len(),
                c == occurrence_count(invocations.deep_view().take(j as int), key@),
                c <= j,
            decreases invocations@.len() - j,
        {
            assert(invocations.deep_view().take(j + 1).drop_last() =~= invocations.deep_view().take(j as int));
            if eq_str(invocations[j].as_str(), key) {
                c += 1;
            }
            j += 1;
        }
        assert(invocations.deep_view().take(invocations@.len() as int) =~= invocations.deep_view());
        let ghost before = out@;
        out.push((to_string(key), c));
        assert(tally_keys(out@) =~= tally_keys(before).push(key@));
        assert(keys.deep_view().take(k + 1) =~= keys.deep_view().take(k as int).push(keys@[k as int]@));
        k += 1;
    }
    assert(keys.deep_view().take(keys@.len() as int) =~= keys.deep_view());
    out
}

pub open spec fn known_producer(ps: Seq<Producer>, id: Seq<char>) -> bool {
    exists|j: int| 0 <= j < ps.len() && (#[trigger] ps[j]).producer_id@ == id
}

/// The producers whose evidence is only valid against a release candidate.
pub open spec fn candidate_ids(ps: Seq<Producer>) -> Set<Seq<char>> {
    Set::new(|id: Seq<char>| exists|j: int| 0 <= j < ps.len() && (#[trigger] ps[j]).candidate_required && ps[j].producer_id@ == id)
}

/// Every invoked producer is registered and invoked exactly once, and the
/// invoked producers are exactly the candidate-required ones.
pub open spec fn counts_ok(ps: Seq<Producer>, actual: Seq<(String, usize)>) -> bool {
    &&& forall|i: int| 0 <= i < actual.len() ==> known_producer(ps, (#[trigger] actual[i]).0@) && actual[i].1 == 1
    &&& tally_keys(actual).to_set() == candidate_ids(ps)
}

fn is_known(ps: &Vec<Producer>, id: &str) -> (r: bool)
    ensures
        r == known_producer(ps@, id@),
{
    let mut j: usize = 0;
    while j < ps.len()
        invariant
            j <= ps@.len(),
            forall|q: int| 0 <= q < j ==> (#[trigger] ps@[q]).producer_id@ != id@,
        decreases ps@.len() - j,
    {
        if eq_str(ps[j].producer_id.as_str(), id) {
            return true;
        }
        j += 1;
    }
    false
}

/// Checks the candidate workflows' producer invocation counts against the
/// registry. The counts are a map: one entry per producer, in name order.
pub fn validate_counts(registry: &ProducerRegistry, actual: &Vec<(String, usize)>) -> (r: Result<(), String>)
    requires
        sorted(tally_keys(actual@)),
    ensures
        r is Ok <==> counts_ok(registry.producers@, actual@),
{
    let ps = &registry.producers;
    let mut i: usize = 0;
    while i < actual.len()
        invariant
            ps@ == registry.producers@,
            i <= actual@.len(),
            forall|q: int| 0 <= q < i ==> known_producer(ps@, (#[trigger] actual@[q]).0@) && actual@[q].1 == 1,
        decreases actual@.len() - i,
    {
        let name = actual[i].0.as_str();
        assert(actual@[i as int].0@ == name@);
        if !is_known(ps, name) {
            return Err(cat("acceptance producers: candidate workflows invoke unknown producer ", name));
        }
        if actual[i].1 != 1 {
            let head = cat3("acceptance producers: candidate producer ", name, " must be invoked exactly once, found ");
            return Err(cat(head.as_str(), decimal_string(actual[i].1 as u128).as_str()));
        }
        i += 1;
    }
    let mut wanted: Vec<String> = Vec::new();
    let mut j: usize = 0;
    while j < ps.len()
        invariant
            j <= ps@.len(),
            wanted.deep_view().to_set() == Set::new(
                |id: Seq<char>| exists|q: int| 0 <= q < j && (#[trigger] ps@[q]).candidate_required && ps@[q].producer_id@ == id,
            ),
        decreases ps@.len() - j,
    {
        let ghost before = wanted.deep_view();
        if ps[j].candidate_required {
            let item = to_string(ps[j].producer_id.as_str());
            wanted.push(item);
            assert(wanted.deep_view() =~= before.push(item@));
            proof {
                before.lemma_push_to_set_commute(item@);
            }
        }
        proof {
            let next = Set::new(|id: Seq<char>| exists|q: int| 0 <= q < j + 1 && (#[trigger] ps@[q]).candidate_required && ps@[q].producer_id@ == id);
            assert forall|id: Seq<char>| next.contains(id) <==> wanted.deep_view().to_set().contains(id) by {
                if next.contains(id) {
                    let q = choose|q: int| 0 <= q < j + 1 && (#[trigger] ps@[q]).candidate_required && ps@[q].producer_id@ == id;
                    if q < j {
                        assert(before.to_set().contains(id));
                    }
                }
                if wanted.deep_view().to_set().contains(id) && !(ps@[j as int].candidate_required && ps@[j as int].producer_id@ == id) {
                    assert(before.to_set().contains(id));
                    let q = choose|q: int| 0 <= q < j && (#[trigger] ps@[q]).candidate_required && ps@[q].producer_id@ == id;
                    assert(0 <= q < j + 1);
                }
            }
            assert(wanted.deep_view().to_set() =~= next);
        }
        j += 1;
    }
    assert(wanted.deep_view().to_set() =~= candidate_ids(ps@));
    let mut keys: Vec<String> = Vec::new();
    let mut k: usize = 0;
    while k < actual.len()
        invariant
            k <= actual@.len(),
            keys.deep_view() == tally_keys(actual@.take(k as int)),
        decreases actual@.len() - k,
    {
        let ghost before = keys.deep_view();
        let item = to_string(actual[k].0.as_str());
        keys.push(item);
        assert(keys.deep_view() =~= before.push(item@));
        assert(tally_keys(actual@.take(k + 1)) =~= tally_keys(actual@.take(k as int)).push(actual@[k as int].0@));
        k += 1;
    }
    assert(actual@.take(actual@.len() as int) =~= actual@);
    let expected = sorted_set_of(&wanted);
    let observed = sorted_set_of(&keys);
    let missing = set_difference(&expected, &observed);
    let extra = set_difference(&observed, &expected);
    proof {
        crate::strset::lemma_to_set_empty(missing.deep_view());
        crate::strset::lemma_to_set_empty(extra.deep_view());
    }
    if missing.len() > 0 || extra.len() > 0 {
        proof {
            if tally_keys(actual@).to_set() == candidate_ids(ps@) {
                assert(missing.deep_view().to_set() =~= Set::<Seq<char>>::empty());
                assert(extra.deep_view().to_set() =~= Set::<Seq<char>>::empty());
            }
        }
        let head = cat(
            "acceptance producers: candidate workflow projection mismatch; missing=[",
            join(&missing, ",").as_str(),
        );
        let mid = cat3(head.as_str(), "] extra=[", join(&extra, ",").as_str());
        return Err(cat(mid.as_str(), "]"));
    }
    proof {
        let a = tally_keys(actual@).to_set();
        let b = candidate_ids(ps@);
        assert(b.difference(a) =~= Set::<Seq<char>>::empty());
        assert(a.difference(b) =~= Set::<Seq<char>>::empty());
        assert forall|x: Seq<char>| a.contains(x) <==> b.contains(x) by {
            if a.contains(x) && !b.contains(x) {
                assert(a.difference(b).contains(x));
            }
            if b.contains(x) && !a.contains(x) {
                assert(b.difference(a).contains(x));
            }
        }
        assert(a =~= b);
    }
    Ok(())
}


pub open spec fn owns(p: Producer, evidence_id: Seq<char>) -> bool {
    exists|k: int| 0 <= k < p.evidence_ids@.len() && (#[trigger] p.evidence_ids@[k])@ == evidence_id
}

/// The producer that owns an evidence ID (the last one listing it).
pub open spec fn owner_index(ps: Seq<Producer>, evidence_id: Seq<char>) -> Option<int> {
    if exists|j: int| 0 <= j < ps.len() && owns(#[trigger] ps[j], evidence_id) {
        Some(choose|j: int| 0 <= j < ps.len() && owns(#[trigger] ps[j], evidence_id) && forall|q: int| j < q < ps.len() ==> !owns(#[trigger] ps[q], evidence_id))
    } else {
        None
    }
}

pub open spec fn tag_ready_receipt(r: MatrixRow) -> bool {
    r.gate@ == "tag-ready"@ && r.requirement@ == "required"@ && r.evidence_kind@ == "receipt"@
}

/// Every required tag-ready receipt is owned by a candidate-required producer.
pub open spec fn tag_ready_bindings_ok(rows: Seq<MatrixRow>, ps: Seq<Producer>) -> bool {
    forall|i: int| 0 <= i < rows.len() && tag_ready_receipt(#[trigger] rows[i]) ==> (owner_index(ps, rows[i].evidence_id@) matches Some(
        j,
    ) && ps[j].candidate_required)
}

fn owns_exec(p: &Producer, evidence_id: &str) -> (r: bool)
    ensures
        r == owns(*p, evidence_id@),
{
    let mut k: usize = 0;
    while k < p.evidence_ids.len()
        invariant
            k <= p.evidence_ids@.len(),
            forall|q: int| 0 <= q < k ==> (#[trigger] p.evidence_ids@[q])@ != evidence_id@,
        decreases p.evidence_ids@.len() - k,
    {
        if eq_str(p.evidence_ids[k].as_str(), evidence_id) {
            return true;
        }
        k += 1;
    }
    false
}

fn owner_exec(ps: &Vec<Producer>, evidence_id: &str) -> (r: Option<usize>)
    ensures
        r is None <==> owner_index(ps@, evidence_id@) is None,
        r matches Some(x) ==> x < ps@.len() && owner_index(ps@, evidence_id@) == Some(x as int),
{
    let mut found: Option<usize> = None;
    let mut j: usize = 0;
    while j < ps.len()
        invariant
            j <= ps@.len(),
            match found {
                Some(f) => f < j && owns(ps@[f as int], evidence_id@) && forall|q: int| f < q < j ==> !owns(#[trigger] ps@[q], evidence_id@),
                None => forall|q: int| 0 <= q < j ==> !owns(#[trigger] ps@[q], evidence_id@),
            },
        decreases ps@.len() - j,
    {
        if owns_exec(&ps[j], evidence_id) {
            found = Some(j);
        }
        j += 1;
    }
    match found {
        Some(f) => {
            proof {
                let c = choose|c: int| 0 <= c < ps@.len() && owns(#[trigger] ps@[c], evidence_id@) && forall|q: int| c < q < ps@.len() ==> !owns(#[trigger] ps@[q], evidence_id@);
                if c < f {
                    assert(!owns(ps@[f as int], evidence_id@));
                }
                if c > f {
                    assert(!owns(ps@[c], evidence_id@));
                }
            }
        },
        None => {},
    }
    found
}

/// Checks that every required tag-ready receipt row is owned by a
/// candidate-required producer.
pub fn validate_tag_ready_bindings(rows: &Vec<MatrixRow>, registry: &ProducerRegistry) -> (r: Result<(), String>)
    ensures
        r is Ok <==> tag_ready_bindings_ok(rows@, registry.producers@),
{
    let mut i: usize = 0;
    while i < rows.len()
        invariant
            i <= rows@.len(),
            forall|q: int| 0 <= q < i && tag_ready_receipt(#[trigger] rows@[q]) ==> (owner_index(registry.producers@, rows@[q].evidence_id@) matches Some(
                j,
            ) && registry.producers@[j].candidate_required),
        decreases rows@.len() - i,
    {
        let row = &rows[i];
        if eq_str(row.gate.as_str(), "tag-ready") && eq_str(row.requirement.as_str(), "required") && eq_str(
            row.evidence_kind.as_str(),
            "receipt",
        ) {
            match owner_exec(&registry.producers, row.evidence_id.as_str()) {
                None => {
                    return Err(cat3("acceptance producers: tag-ready receipt ", row.evidence_id.as_str(), " has no producer"));
                },
                Some(j) => {
                    let owner = &registry.producers[j];
                    if !owner.candidate_required {
                        let head = cat3("acceptance producers: tag-ready receipt ", row.evidence_id.as_str(), " owner ");
                        return Err(cat3(head.as_str(), owner.producer_id.as_str(), " must be candidate_required"));
                    }
                },
            }
        }
        i += 1;
    }
    Ok(())
}

/// Each producer's registered deadline, by id.
pub open spec fn registry_timeouts(ps: Seq<Producer>) -> Seq<(String, u64)> {
    ps.map_values(|p: Producer| (p.producer_id, p.timeout_seconds))
}

fn registry_timeouts_exec(ps: &Vec<Producer>) -> (r: Vec<(String, u64)>)
    ensures
        r@ == registry_timeouts(ps@),
{
    let mut out: Vec<(String, u64)> = Vec::new();
    let mut k: usize = 0;
    while k < ps.len()
        invariant
            k <= ps@.len(),
            out@ == registry_timeouts(ps@.take(k as int)),
        decreases ps@.len() - k,
    {
        out.push((ps[k].producer_id.clone(), ps[k].timeout_seconds));
        assert(registry_timeouts(ps@.take(k + 1)) =~= registry_timeouts(ps@.take(k as int)).push(
            (ps@[k as int].producer_id, ps@[k as int].timeout_seconds),
        ));
        k += 1;
    }
    assert(ps@.take(ps@.len() as int) =~= ps@);
    out
}

/// The candidate workflows invoke each registered producer at most once, and
/// exactly the candidate-required producers.
pub open spec fn invocations_ok(ps: Seq<Producer>, inv: Seq<Seq<char>>) -> bool {
    &&& forall|x: Seq<char>| inv.contains(x) ==> known_producer(ps, x) && occurrence_count(inv, x) == 1
    &&& inv.to_set() == candidate_ids(ps)
}

/// Tallying the invocations and checking the tally accepts exactly when every
/// invoked producer is registered and invoked once and the invoked producers
/// are exactly the candidate-required ones.
pub proof fn lemma_tally_counts(ps: Seq<Producer>, inv: Seq<Seq<char>>, t: Seq<(String, usize)>)
    requires
        tally_keys(t).to_set() == inv.to_set(),
        forall|i: int| 0 <= i < t.len() ==> (#[trigger] t[i]).1 == occurrence_count(inv, t[i].0@),
    ensures
        counts_ok(ps, t) <==> invocations_ok(ps, inv),
{
    if counts_ok(ps, t) {
        assert forall|x: Seq<char>| inv.contains(x) implies known_producer(ps, x) && occurrence_count(inv, x) == 1 by {
            assert(inv.to_set().contains(x));
            assert(tally_keys(t).to_set().contains(x));
            let i = choose|i: int| 0 <= i < tally_keys(t).len() && tally_keys(t)[i] == x;
            assert(t[i].0@ == x);
        }
    }
    if invocations_ok(ps, inv) {
        assert forall|i: int| 0 <= i < t.len() implies known_producer(ps, (#[trigger] t[i]).0@) && t[i].1 == 1 by {
            assert(tally_keys(t)[i] == t[i].0@);
            assert(tally_keys(t).to_set().contains(t[i].0@));
            assert(inv.to_set().contains(t[i].0@));
        }
    }
}

/// The release workflows hold together: every required tag-ready receipt
/// has a candidate-required owner, the candidate workflow reaches the native
/// workflow and delivers its contract receipts, the two upload exactly the
/// expected receipt artifacts, and they invoke exactly the candidate-required
/// producers, each once.
pub open spec fn release_workflows_ok(rows: Seq<MatrixRow>, ps: Seq<Producer>, candidate: Seq<char>, native: Seq<char>) -> bool {
    &&& tag_ready_bindings_ok(rows, ps)
    &&& match yaml_documents(candidate) {
        None => false,
        Some(c) => match yaml_documents(native) {
            None => false,
            Some(n) => {
                &&& candidate_ok(c)
                &&& match (workflow_uploads(c), workflow_uploads(n)) {
                    (Some(cu), Some(nu)) => upload_set_ok(cu + nu),
                    _ => false,
                }
                &&& match (workflow_candidates(c, registry_timeouts(ps)), workflow_candidates(n, registry_timeouts(ps))) {
                    (Some(cp), Some(np)) => invocations_ok(ps, cp + np),
                    _ => false,
                }
            },
        },
    }
}

/// Checks the release candidate and native workflow texts against the
/// matrix rows and the producer registry.
pub fn validate(rows: &Vec<MatrixRow>, registry: &ProducerRegistry, candidate: &str, native: &str) -> (r: Result<(), String>)
    ensures
        r is Ok <==> release_workflows_ok(rows@, registry.producers@, candidate@, native@),
{
    validate_tag_ready_bindings(rows, registry)?;
    let timeouts = registry_timeouts_exec(&registry.producers);
    validate_candidate(candidate)?;
    super::receipt_artifacts::validate(candidate, native)?;
    let mut invocations = collect_workflow(".github/workflows/release-candidate.yml", candidate, &timeouts)?;
    let native_invocations = collect_workflow(".github/workflows/release-native.yml", native, &timeouts)?;
    let ghost first = invocations.deep_view();
    let mut q: usize = 0;
    while q < native_invocations.len()
        invariant
            q <= native_invocations@.len(),
            invocations.deep_view() == first + native_invocations.deep_view().take(q as int),
        decreases native_invocations@.len() - q,
    {
        let ghost b = invocations.deep_view();
        let item = to_string(native_invocations[q].as_str());
        invocations.push(item);
        assert(invocations.deep_view() =~= b.push(item@));
        assert(native_invocations.deep_view().take(q + 1) =~= native_invocations.deep_view().take(q as int).push(
            native_invocations@[q as int]@,
        ));
        q += 1;
    }
    assert(native_invocations.deep_view().take(native_invocations@.len() as int) =~= native_invocations.deep_view());
    let counts = tally(&invocations);
    proof {
        lemma_tally_counts(registry.producers@, invocations.deep_view(), counts@);
    }
    validate_counts(registry, &counts)
}

} // verus!
