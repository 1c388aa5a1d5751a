//! Fail-closed projection from CI producer authority to compatible workflow
//! shards.
use super::ci_command::{
    all_sorted, opt_int, JobCommands, job_commands, job_commands_spec, job_modified, node_installed, reject_job_execution_modifiers,
    reject_step_execution_modifiers, reject_tolerated_or_conditional, require_node_24, require_rust_toolchain,
    rust_installed, sets_of, step_modified,
    tolerated_or_conditional,
};
use super::model::{Producer, ProducerRegistry};
use super::yaml::{
    as_mapping, as_sequence, as_string, as_u64, has_key, load_yaml, lookup, mapping_of, optional, positive_of,
    required, sequence_of, string_of, yaml_documents, YamlNode,
};
use crate::strset::{lemma_sorted_unique, set_insert, sorted};
use crate::text::{cat, cat3, decimal, decimal_string, eq_str, join, joined, to_string};
use vstd::prelude::*;

verus! {

/// How long each cleanup step of a producer may run.
pub const FINALLY_STEP_TIMEOUT_SECONDS: u64 = 60;

/// Minutes a CI producer job reserves for building the runner.
pub const BUILD_MARGIN_MINUTES: u64 = 15;

pub open spec fn is_ci_producer(p: Producer) -> bool {
    exists|t: int| 0 <= t < p.tiers@.len() && (#[trigger] p.tiers@[t])@ == "ci"@
}

pub open spec fn ci_match(ps: Seq<Producer>, i: int, id: Seq<char>) -> bool {
    0 <= i < ps.len() && is_ci_producer(ps[i]) && ps[i].producer_id@ == id
}

/// The CI producer registered under `id`; where several are, the last wins.
pub open spec fn ci_index(ps: Seq<Producer>, id: Seq<char>) -> Option<int> {
    if exists|i: int| #[trigger] ci_match(ps, i, id) {
        Some(choose|i: int| #[trigger] ci_match(ps, i, id) && forall|j: int| i < j < ps.len() ==> !#[trigger] ci_match(ps, j, id))
    } else {
        None
    }
}

/// The host a fixed `runs-on` label names.
pub open spec fn canonical_host_spec(runs_on: Seq<char>) -> Option<Seq<char>> {
    if runs_on == "ubuntu-latest"@ {
        Some("linux"@)
    } else if runs_on == "windows-latest"@ {
        Some("windows"@)
    } else if runs_on == "macos-latest"@ {
        Some("macos"@)
    } else {
        None
    }
}

/// The producer may run on `host` inside a shard that selects `selected`.
pub open spec fn producer_fits(p: Producer, selected: Set<Seq<char>>, host: Seq<char>) -> bool {
    &&& exists|h: int| 0 <= h < p.host_os@.len() && (#[trigger] p.host_os@[h])@ == host
    &&& forall|d: int| 0 <= d < p.dependencies@.len() ==> selected.contains((#[trigger] p.dependencies@[d])@)
}

/// Seconds a producer may take, its cleanup steps included.
pub open spec fn producer_cost(p: Producer) -> int {
    p.timeout_seconds + p.finally_steps@.len() * FINALLY_STEP_TIMEOUT_SECONDS
}

pub open spec fn uses_node(p: Producer) -> bool {
    exists|s: int| 0 <= s < p.steps@.len() && (#[trigger] p.steps@[s]).program@ == "node"@
}

/// The sorted listing of a set of IDs.
pub open spec fn ordered(s: Set<Seq<char>>) -> Seq<Seq<char>> {
    choose|q: Seq<Seq<char>>| sorted(q) && q.to_set() == s
}

/// The summed cost of the first `n` producers of `q`.
pub open spec fn cost_sum(ps: Seq<Producer>, q: Seq<Seq<char>>, n: int) -> int
    decreases n,
{
    if n <= 0 {
        0
    } else {
        cost_sum(ps, q, n - 1) + match ci_index(ps, q[n - 1]) {
            Some(i) => producer_cost(ps[i]),
            None => 0,
        }
    }
}

/// Every selected ID is a CI producer that fits the shard, and their summed
/// deadline fits in 64 bits.
pub open spec fn selection_ok(ps: Seq<Producer>, selected: Set<Seq<char>>, host: Seq<char>) -> bool {
    let q = ordered(selected);
    &&& forall|k: int|
        0 <= k < q.len() ==> (ci_index(ps, #[trigger] q[k]) matches Some(i) && producer_fits(ps[i], selected, host))
    &&& cost_sum(ps, q, q.len() as int) <= u64::MAX
}

/// Some selected producer runs Node.js.
pub open spec fn selection_uses_node(ps: Seq<Producer>, selected: Set<Seq<char>>) -> bool {
    exists|id: Seq<char>| #[trigger] selected.contains(id) && (ci_index(ps, id) matches Some(i) && uses_node(ps[i]))
}

/// A job that executes producers runs one filtered plan and execution pair
/// for the same set, on a fixed host, with the toolchains installed first and
/// a deadline covering every selected producer plus the build margin.
pub open spec fn execution_job_ok(
    ps: Seq<Producer>,
    job: Seq<(YamlNode, YamlNode)>,
    c: (Seq<Set<Seq<char>>>, Seq<Set<Seq<char>>>, Option<int>),
) -> bool {
    &&& !tolerated_or_conditional(job) && !job_modified(job)
    &&& c.1.len() == 1 && c.0.len() == 1 && c.0[0] == c.1[0]
    &&& match lookup(job, "runs-on"@) {
        Some(ro) => match string_of(ro) {
            Some(ros) => match canonical_host_spec(ros) {
                Some(host) => match lookup(job, "timeout-minutes"@) {
                    Some(tm) => match positive_of(tm) {
                        Some(minutes) => match lookup(job, "steps"@) {
                            Some(st) => match sequence_of(st) {
                                Some(steps) => match c.2 {
                                    Some(first) => {
                                        &&& rust_installed(steps, first) == Some(true)
                                        &&& selection_ok(ps, c.1[0], host)
                                        &&& minutes >= (cost_sum(ps, ordered(c.1[0]), ordered(c.1[0]).len() as int) + 59) / 60
                                            + BUILD_MARGIN_MINUTES
                                        &&& selection_uses_node(ps, c.1[0]) ==> node_installed(steps, first) == Some(true)
                                    },
                                    None => false,
                                },
                                None => false,
                            },
                            None => false,
                        },
                        None => false,
                    },
                    None => false,
                },
                None => false,
            },
            None => false,
        },
        None => false,
    }
}

/// For a job that meets every rule before its deadline (one plan and
/// execution pair for one set, a fixed host, the Rust toolchain first, a
/// sound selection): its `timeout-minutes` and the minutes its producers
/// need, their deadlines rounded up plus the build margin.
pub open spec fn job_minutes(
    ps: Seq<Producer>,
    job: Seq<(YamlNode, YamlNode)>,
    c: (Seq<Set<Seq<char>>>, Seq<Set<Seq<char>>>, Option<int>),
) -> Option<(int, int)> {
    if tolerated_or_conditional(job) || job_modified(job) || !(c.1.len() == 1 && c.0.len() == 1 && c.0[0] == c.1[0]) {
        None
    } else {
        match lookup(job, "runs-on"@) {
            Some(ro) => match string_of(ro) {
                Some(ros) => match canonical_host_spec(ros) {
                    Some(host) => match lookup(job, "timeout-minutes"@) {
                        Some(tm) => match positive_of(tm) {
                            Some(minutes) => match lookup(job, "steps"@) {
                                Some(st) => match sequence_of(st) {
                                    Some(steps) => match c.2 {
                                        Some(first) => if rust_installed(steps, first) == Some(true) && selection_ok(
                                            ps,
                                            c.1[0],
                                            host,
                                        ) {
                                            Some(
                                                (
                                                    minutes as int,
                                                    (cost_sum(ps, ordered(c.1[0]), ordered(c.1[0]).len() as int) + 59) / 60
                                                        + BUILD_MARGIN_MINUTES,
                                                ),
                                            )
                                        } else {
                                            None
                                        },
                                        None => None,
                                    },
                                    None => None,
                                },
                                None => None,
                            },
                            None => None,
                        },
                        None => None,
                    },
                    None => None,
                },
                None => None,
            },
            None => None,
        }
    }
}

/// The refusal of a producer that does not fit its shard: the host where it
/// cannot run there, else a dependency the shard leaves out.
pub open spec fn fit_refusal(job_path: Seq<char>, p: Producer, selected: Set<Seq<char>>, host: Seq<char>, e: Seq<char>) -> bool {
    if !p.host_os.deep_view().contains(host) {
        e == "acceptance producers: "@ + job_path + " runs "@ + p.producer_id@ + " on incompatible host "@ + host
    } else {
        exists|d: int|
            0 <= d < p.dependencies@.len() && !selected.contains((#[trigger] p.dependencies@[d])@) && e == "acceptance producers: "@
                + job_path + " splits dependency "@ + p.dependencies@[d]@ + " from "@ + p.producer_id@
    }
}

/// The refusals of a summed deadline that does not fit in 64 bits.
pub open spec fn overflow_refusal(job_path: Seq<char>, e: Seq<char>) -> bool {
    ||| e == "acceptance producers: "@ + job_path + " cumulative producer timeout overflow"@
    ||| e == "acceptance producers: producer cleanup timeout overflow"@
    ||| e == "acceptance producers: cumulative cleanup timeout overflow"@
}

/// The refusal of a shard's selection, at the first producer (in order)
/// that fails: an unknown CI producer, one that does not fit, or a deadline
/// sum that overflows there.
pub open spec fn selection_refusal(ps: Seq<Producer>, q: Seq<Seq<char>>, host: Seq<char>, job_path: Seq<char>, e: Seq<char>) -> bool {
    exists|k: int|
        0 <= k < q.len() && (forall|j: int|
            0 <= j < k ==> (ci_index(ps, #[trigger] q[j]) matches Some(i) && producer_fits(ps[i], q.to_set(), host)))
            && match ci_index(ps, #[trigger] q[k]) {
            None => e == "acceptance producers: "@ + job_path + " executes unknown CI producer "@ + q[k],
            Some(i) => if producer_fits(ps[i], q.to_set(), host) {
                overflow_refusal(job_path, e)
            } else {
                fit_refusal(job_path, ps[i], q.to_set(), host, e)
            },
        }
}

/// For a job that meets every rule before its producers are checked (one
/// plan and execution pair for one set, a fixed host, a positive timeout,
/// the Rust toolchain first): its host and the set it executes.
pub open spec fn selection_stage(
    ps: Seq<Producer>,
    job: Seq<(YamlNode, YamlNode)>,
    c: (Seq<Set<Seq<char>>>, Seq<Set<Seq<char>>>, Option<int>),
) -> Option<(Seq<char>, Set<Seq<char>>)> {
    if tolerated_or_conditional(job) || job_modified(job) || !(c.1.len() == 1 && c.0.len() == 1 && c.0[0] == c.1[0]) {
        None
    } else {
        match lookup(job, "runs-on"@) {
            Some(ro) => match string_of(ro) {
                Some(ros) => match canonical_host_spec(ros) {
                    Some(host) => match lookup(job, "timeout-minutes"@) {
                        Some(tm) => match positive_of(tm) {
                            Some(minutes) => match lookup(job, "steps"@) {
                                Some(st) => match sequence_of(st) {
                                    Some(steps) => match c.2 {
                                        Some(first) => if rust_installed(steps, first) == Some(true) {
                                            Some((host, c.1[0]))
                                        } else {
                                            None
                                        },
                                        None => None,
                                    },
                                    None => None,
                                },
                                None => None,
                            },
                            None => None,
                        },
                        None => None,
                    },
                    None => None,
                },
                None => None,
            },
            None => None,
        }
    }
}

/// What an executing job's refusal says where the job fails at its
/// producers: the selection's refusal, or the deadline's.
pub open spec fn execution_refusal(
    ps: Seq<Producer>,
    job: Seq<(YamlNode, YamlNode)>,
    c: (Seq<Set<Seq<char>>>, Seq<Set<Seq<char>>>, Option<int>),
    job_path: Seq<char>,
    e: Seq<char>,
) -> bool {
    &&& match selection_stage(ps, job, c) {
        Some((h, sel)) => !selection_ok(ps, sel, h) ==> selection_refusal(ps, ordered(sel), h, job_path, e),
        None => true,
    }
    &&& match job_minutes(ps, job, c) {
        Some((m, need)) => m < need ==> e == deadline_refusal(job_path, m, need),
        None => true,
    }
}

/// What a job's refusal says where the job executes producers and fails at
/// them; its path is `check.yml.jobs.` and its name.
pub open spec fn job_refusal(ps: Seq<Producer>, entry: (YamlNode, YamlNode), e: Seq<char>) -> bool {
    match string_of(entry.0) {
        Some(id) => match mapping_of(entry.1) {
            Some(job) => match job_commands_spec(job) {
                Some(c) => c.1.len() > 0 ==> execution_refusal(ps, job, c, "check.yml.jobs."@ + id, e),
                None => true,
            },
            None => true,
        },
        None => true,
    }
}

/// The refusal is that of the first job (in order) that is not well formed.
pub open spec fn first_job_refusal(ps: Seq<Producer>, jobs: Seq<(YamlNode, YamlNode)>, e: Seq<char>) -> bool {
    exists|k: int|
        0 <= k < jobs.len() && (forall|q: int| 0 <= q < k ==> job_entry_ok(ps, #[trigger] jobs[q])) && !job_entry_ok(
            ps,
            jobs[k],
        ) && job_refusal(ps, #[trigger] jobs[k], e)
}

/// The refusal of a job whose timeout falls short of what its producers need.
pub open spec fn deadline_refusal(job_path: Seq<char>, minutes: int, needed: int) -> Seq<char> {
    "acceptance producers: "@ + job_path + " timeout "@ + decimal(minutes as nat)
        + "m is below producer deadline plus build margin "@ + decimal(needed as nat) + "m"@
}

/// The producer set a job executes; empty for a job that executes none.
#[verifier::opaque]
pub open spec fn job_selection(entry: (YamlNode, YamlNode)) -> Set<Seq<char>> {
    match mapping_of(entry.1) {
        Some(job) => match job_commands_spec(job) {
            Some(c) => if c.1.len() > 0 {
                c.1[0]
            } else {
                Set::empty()
            },
            None => Set::empty(),
        },
        None => Set::empty(),
    }
}

/// A job executes producers.
#[verifier::opaque]
pub open spec fn is_execution_job(entry: (YamlNode, YamlNode)) -> bool {
    match mapping_of(entry.1) {
        Some(job) => match job_commands_spec(job) {
            Some(c) => c.1.len() > 0,
            None => false,
        },
        None => false,
    }
}

/// One job of the workflow is well formed, and checked in full where it
/// executes producers.
#[verifier::opaque]
pub open spec fn job_entry_ok(ps: Seq<Producer>, entry: (YamlNode, YamlNode)) -> bool {
    &&& string_of(entry.0) is Some
    &&& match mapping_of(entry.1) {
        Some(job) => match job_commands_spec(job) {
            Some(c) => c.1.len() > 0 ==> execution_job_ok(ps, job, c),
            None => false,
        },
        None => false,
    }
}

/// How many of the first `n` jobs execute `id`.
pub open spec fn executions_of(jobs: Seq<(YamlNode, YamlNode)>, id: Seq<char>, n: int) -> nat
    decreases n,
{
    if n <= 0 {
        0
    } else {
        executions_of(jobs, id, n - 1) + if job_selection(jobs[n - 1]).contains(id) {
            1nat
        } else {
            0nat
        }
    }
}

/// Every CI producer is executed by exactly one job.
pub open spec fn exactly_once(ps: Seq<Producer>, jobs: Seq<(YamlNode, YamlNode)>) -> bool {
    forall|i: int| 0 <= i < ps.len() && is_ci_producer(#[trigger] ps[i]) ==> executions_of(jobs, ps[i].producer_id@, jobs.len() as int) == 1
}

/// The names of the jobs that execute producers.
pub open spec fn execution_job_names(jobs: Seq<(YamlNode, YamlNode)>) -> Set<Seq<char>> {
    Set::new(
        |name: Seq<char>|
            exists|k: int|
                0 <= k < jobs.len() && is_execution_job(#[trigger] jobs[k]) && string_of(jobs[k].0) == Some(name),
    )
}


fn is_ci(p: &Producer) -> (r: bool)
    ensures
        r == is_ci_producer(*p),
{
    let mut t: usize = 0;
    while t < p.tiers.len()
        invariant
            t <= p.tiers@.len(),
            forall|u: int| 0 <= u < t ==> (#[trigger] p.tiers@[u])@ != "ci"@,
        decreases p.tiers@.len() - t,
    {
        if eq_str(p.tiers[t].as_str(), "ci") {
            return true;
        }
        t += 1;
    }
    false
}

/// The position of the CI producer registered under `id`.
fn ci_producer_index(ps: &Vec<Producer>, id: &str) -> (r: Option<usize>)
    ensures
        match r {
            Some(i) => ci_index(ps@, id@) == Some(i as int) && i < ps@.len(),
            None => ci_index(ps@, id@) is None,
        },
{
    let mut found: Option<usize> = None;
    let mut i: usize = 0;
    while i < ps.len()
        invariant
            i <= ps@.len(),
            match found {
                Some(f) => f < i && ci_match(ps@, f as int, id@) && forall|j: int| f < j < i ==> !#[trigger] ci_match(ps@, j, id@),
                None => forall|j: int| 0 <= j < i ==> !#[trigger] ci_match(ps@, j, id@),
            },
        decreases ps@.len() - i,
    {
        if is_ci(&ps[i]) && eq_str(ps[i].producer_id.as_str(), id) {
            found = Some(i);
        }
        i += 1;
    }
    match found {
        Some(f) => {
            let ghost c = choose|c: int| #[trigger] ci_match(ps@, c, id@) && forall|j: int| c < j < ps@.len() ==> !#[trigger] ci_match(ps@, j, id@);
            assert(ci_match(ps@, f as int, id@));
            assert(ci_match(ps@, c, id@) && forall|j: int| c < j < ps@.len() ==> !#[trigger] ci_match(ps@, j, id@));
            proof {
                if c < f {
                    assert(!ci_match(ps@, f as int, id@));
                }
                if c > f {
                    assert(!ci_match(ps@, c, id@));
                }
            }
        },
        None => {},
    }
    found
}

pub fn canonical_host(runs_on: &str) -> (r: Result<&'static str, String>)
    ensures
        match canonical_host_spec(runs_on@) {
            Some(h) => r matches Ok(x) && x@ == h,
            None => r is Err,
        },
{
    if eq_str(runs_on, "ubuntu-latest") {
        Ok("linux")
    } else if eq_str(runs_on, "windows-latest") {
        Ok("windows")
    } else if eq_str(runs_on, "macos-latest") {
        Ok("macos")
    } else {
        Err(cat(
            "acceptance producers: CI producer shard requires a fixed supported runs-on host, found ",
            runs_on,
        ))
    }
}

fn validate_selected_producer(p: &Producer, selected: &Vec<String>, host: &str, job_path: &str) -> (r: Result<
    (),
    String,
>)
    ensures
        r is Ok <==> producer_fits(*p, selected.deep_view().to_set(), host@),
        r matches Err(e) ==> fit_refusal(job_path@, *p, selected.deep_view().to_set(), host@, e@),
{
    let mut h: usize = 0;
    let mut hosted = false;
    while h < p.host_os.len()
        invariant
            h <= p.host_os@.len(),
            hosted == exists|u: int| 0 <= u < h && (#[trigger] p.host_os@[u])@ == host@,
        decreases p.host_os@.len() - h,
    {
        if eq_str(p.host_os[h].as_str(), host) {
            hosted = true;
        }
        h += 1;
    }
    if !hosted {
        proof {
            if p.host_os.deep_view().contains(host@) {
                let u = choose|u: int| 0 <= u < p.host_os.deep_view().len() && p.host_os.deep_view()[u] == host@;
                assert(p.host_os@[u]@ == host@);
            }
        }
        let head = cat3("acceptance producers: ", job_path, " runs ");
        let mid = cat3(head.as_str(), p.producer_id.as_str(), " on incompatible host ");
        return Err(cat(mid.as_str(), host));
    }
    assert(p.host_os.deep_view().contains(host@)) by {
        let u = choose|u: int| 0 <= u < h && (#[trigger] p.host_os@[u])@ == host@;
        assert(p.host_os.deep_view()[u] == host@);
    }
    let mut d: usize = 0;
    while d < p.dependencies.len()
        invariant
            d <= p.dependencies@.len(),
            p.host_os.deep_view().contains(host@),
            forall|u: int| 0 <= u < d ==> selected.deep_view().to_set().contains((#[trigger] p.dependencies@[u])@),
        decreases p.dependencies@.len() - d,
    {
        if !crate::strset::contains_str_in(selected, p.dependencies[d].as_str()) {
            let head = cat3("acceptance producers: ", job_path, " splits dependency ");
            let mid = cat3(head.as_str(), p.dependencies[d].as_str(), " from ");
            return Err(cat(mid.as_str(), p.producer_id.as_str()));
        }
        d += 1;
    }
    Ok(())
}

fn producer_uses_node(p: &Producer) -> (r: bool)
    ensures
        r == uses_node(*p),
{
    let mut s: usize = 0;
    while s < p.steps.len()
        invariant
            s <= p.steps@.len(),
            forall|u: int| 0 <= u < s ==> (#[trigger] p.steps@[u]).program@ != "node"@,
        decreases p.steps@.len() - s,
    {
        if eq_str(p.steps[s].program.as_str(), "node") {
            return true;
        }
        s += 1;
    }
    false
}

proof fn lemma_ordered(q: Seq<Seq<char>>)
    requires
        sorted(q),
    ensures
        ordered(q.to_set()) == q,
{
    assert(sorted(q) && q.to_set() == q.to_set());
    let o = ordered(q.to_set());
    lemma_sorted_unique(o, q);
}

proof fn lemma_cost_monotone(ps: Seq<Producer>, q: Seq<Seq<char>>, n: int, m: int)
    requires
        0 <= n <= m,
    ensures
        cost_sum(ps, q, n) <= cost_sum(ps, q, m),
    decreases m - n,
{
    if m > n {
        lemma_cost_monotone(ps, q, n, m - 1);
    }
}

/// Checks a shard's selected producers and returns their summed deadline in
/// seconds and whether any of them runs Node.js.
fn check_selection(ps: &Vec<Producer>, selected: &Vec<String>, host: &str, job_path: &str) -> (r: Result<
    (u64, bool),
    String,
>)
    requires
        sorted(selected.deep_view()),
    ensures
        r is Ok <==> selection_ok(ps@, selected.deep_view().to_set(), host@),
        r matches Ok((total, node)) ==> total == cost_sum(ps@, selected.deep_view(), selected.deep_view().len() as int)
            && node == selection_uses_node(ps@, selected.deep_view().to_set()),
        r matches Err(e) ==> selection_refusal(ps@, selected.deep_view(), host@, job_path@, e@),
{
    let ghost q = selected.deep_view();
    let ghost set = q.to_set();
    proof {
        lemma_ordered(q);
    }
    let mut total: u64 = 0;
    let mut needs_node = false;
    let mut k: usize = 0;
    while k < selected.len()
        invariant
            q == selected.deep_view(),
            set == q.to_set(),
            ordered(set) == q,
            k <= q.len(),
            total == cost_sum(ps@, q, k as int),
            forall|j: int| 0 <= j < k ==> (ci_index(ps@, #[trigger] q[j]) matches Some(i) && producer_fits(ps@[i], set, host@)),
            needs_node == exists|j: int| 0 <= j < k && (ci_index(ps@, #[trigger] q[j]) matches Some(i) && uses_node(ps@[i])),
        decreases q.len() - k,
    {
        let id = selected[k].as_str();
        assert(q[k as int] == id@);
        let idx = match ci_producer_index(ps, id) {
            Some(i) => i,
            None => {
                let head = cat3("acceptance producers: ", job_path, " executes unknown CI producer ");
                let e = cat(head.as_str(), id);
                assert(selection_refusal(ps@, q, host@, job_path@, e@)) by {
                    assert(ci_index(ps@, q[k as int]) is None);
                }
                return Err(e);
            },
        };
        let p = &ps[idx];
        let fit = validate_selected_producer(p, selected, host, job_path);
        if let Err(e) = fit {
            assert(selection_refusal(ps@, q, host@, job_path@, e@)) by {
                assert(ci_index(ps@, q[k as int]) == Some(idx as int));
                assert(!producer_fits(ps@[idx as int], set, host@));
            }
            return Err(e);
        }
        let ghost before = total;
        assert(cost_sum(ps@, q, k + 1) == before + producer_cost(ps@[idx as int]));
        proof {
            lemma_cost_monotone(ps@, q, k + 1, q.len() as int);
        }
        total = match total.checked_add(p.timeout_seconds) {
            Some(t) => t,
            None => {
                let e = cat3("acceptance producers: ", job_path, " cumulative producer timeout overflow");
                assert(selection_refusal(ps@, q, host@, job_path@, e@)) by {
                    assert(ci_index(ps@, q[k as int]) == Some(idx as int));
                    assert(producer_fits(ps@[idx as int], set, host@));
                }
                return Err(e);
            },
        };
        let cleanup = match (p.finally_steps.len() as u64).checked_mul(FINALLY_STEP_TIMEOUT_SECONDS) {
            Some(c) => c,
            None => {
                let e = to_string("acceptance producers: producer cleanup timeout overflow");
                assert(selection_refusal(ps@, q, host@, job_path@, e@)) by {
                    assert(ci_index(ps@, q[k as int]) == Some(idx as int));
                    assert(producer_fits(ps@[idx as int], set, host@));
                }
                return Err(e);
            },
        };
        total = match total.checked_add(cleanup) {
            Some(t) => t,
            None => {
                let e = to_string("acceptance producers: cumulative cleanup timeout overflow");
                assert(selection_refusal(ps@, q, host@, job_path@, e@)) by {
                    assert(ci_index(ps@, q[k as int]) == Some(idx as int));
                    assert(producer_fits(ps@[idx as int], set, host@));
                }
                return Err(e);
            },
        };
        if producer_uses_node(p) {
            needs_node = true;
        }
        k += 1;
    }
    proof {
        if needs_node {
            let j = choose|j: int| 0 <= j < q.len() && (ci_index(ps@, #[trigger] q[j]) matches Some(i) && uses_node(ps@[i]));
            assert(set.contains(q[j]));
        } else {
            assert forall|id: Seq<char>| #[trigger] set.contains(id) implies !(ci_index(ps@, id) matches Some(i) && uses_node(ps@[i])) by {
                let j = choose|j: int| 0 <= j < q.len() && q[j] == id;
                assert(!(ci_index(ps@, q[j]) matches Some(i) && uses_node(ps@[i])));
            }
        }
    }
    Ok((total, needs_node))
}


pub open spec fn commands_view(c: JobCommands) -> (Seq<Set<Seq<char>>>, Seq<Set<Seq<char>>>, Option<int>) {
    (sets_of(c.plans@), sets_of(c.executions@), opt_int(c.first_command_step))
}

fn execution_job(
    ps: &Vec<Producer>,
    job: &Vec<(YamlNode, YamlNode)>,
    c: &JobCommands,
    job_path: &str,
) -> (r: Result<(), String>)
    requires
        all_sorted(c.plans@),
        all_sorted(c.executions@),
    ensures
        r is Ok <==> execution_job_ok(ps@, job@, commands_view(*c)),
        match job_minutes(ps@, job@, commands_view(*c)) {
            Some((m, need)) => m < need ==> (r matches Err(e) && e@ == deadline_refusal(job_path@, m, need)),
            None => true,
        },
        match selection_stage(ps@, job@, commands_view(*c)) {
            Some((h, sel)) => !selection_ok(ps@, sel, h) ==> (r matches Err(e) && selection_refusal(
                ps@,
                ordered(sel),
                h,
                job_path@,
                e@,
            )),
            None => true,
        },
        r matches Err(e) ==> execution_refusal(ps@, job@, commands_view(*c), job_path@, e@),
{
    reject_tolerated_or_conditional(job, job_path)?;
    reject_job_execution_modifiers(job, job_path)?;
    if c.executions.len() != 1 || c.plans.len() != 1 {
        return Err(cat3(
            "acceptance producers: ",
            job_path,
            " must contain exactly one filtered CI plan and one execution command",
        ));
    }
    let selected = &c.executions[0];
    let plan = &c.plans[0];
    assert(sets_of(c.executions@)[0] == selected.deep_view().to_set());
    assert(sets_of(c.plans@)[0] == plan.deep_view().to_set());
    assert(sorted(selected.deep_view()) && sorted(plan.deep_view()));
    if !crate::strset::strs_eq(plan, selected) {
        proof {
            if plan.deep_view().to_set() == selected.deep_view().to_set() {
                lemma_sorted_unique(plan.deep_view(), selected.deep_view());
            }
        }
        return Err(cat3("acceptance producers: ", job_path, " CI plan and execution producer sets differ"));
    }
    let runs_on = as_string(required(job, "runs-on", job_path)?, cat(job_path, ".runs-on").as_str())?;
    let host = canonical_host(runs_on)?;
    let timeout_minutes = as_u64(
        required(job, "timeout-minutes", job_path)?,
        cat(job_path, ".timeout-minutes").as_str(),
    )?;
    let steps = as_sequence(required(job, "steps", job_path)?, cat(job_path, ".steps").as_str())?;
    let first = match c.first_command_step {
        Some(f) => f,
        None => {
            return Err(cat3("acceptance producers: ", job_path, " has no CI command step"));
        },
    };
    require_rust_toolchain(steps, first, job_path)?;
    proof {
        lemma_ordered(selected.deep_view());
    }
    let (total, needs_node) = check_selection(ps, selected, host, job_path)?;
    let ceil: u64 = if total % 60 == 0 { total / 60 } else { total / 60 + 1 };
    assert(ceil == (total + 59) / 60);
    let required_minutes: u64 = ceil + BUILD_MARGIN_MINUTES;
    if timeout_minutes < required_minutes {
        let head = cat3("acceptance producers: ", job_path, " timeout ");
        let mid = cat3(head.as_str(), decimal_string(timeout_minutes as u128).as_str(), "m is below producer deadline plus build margin ");
        let e = cat3(mid.as_str(), decimal_string(required_minutes as u128).as_str(), "m");
        assert(e@ =~= deadline_refusal(job_path@, timeout_minutes as int, required_minutes as int));
        return Err(e);
    }
    if needs_node {
        require_node_24(steps, first, job_path)?;
    }
    Ok(())
}

/// The CI producer IDs of the registry.
pub open spec fn ci_ids(ps: Seq<Producer>) -> Set<Seq<char>> {
    Set::new(|id: Seq<char>| exists|i: int| 0 <= i < ps.len() && is_ci_producer(#[trigger] ps[i]) && ps[i].producer_id@ == id)
}

fn collect_ci_ids(ps: &Vec<Producer>) -> (r: Vec<String>)
    ensures
        sorted(r.deep_view()),
        r.deep_view().to_set() == ci_ids(ps@),
        r.deep_view().no_duplicates(),
{
    let mut ids: Vec<String> = Vec::new();
    let mut i: usize = 0;
    while i < ps.len()
        invariant
            i <= ps@.len(),
            sorted(ids.deep_view()),
            ids.deep_view().to_set() == Set::new(
                |id: Seq<char>| exists|j: int| 0 <= j < i && is_ci_producer(#[trigger] ps@[j]) && ps@[j].producer_id@ == id,
            ),
        decreases ps@.len() - i,
    {
        if is_ci(&ps[i]) {
            set_insert(&mut ids, to_string(ps[i].producer_id.as_str()));
        }
        proof {
            let next = Set::new(
                |id: Seq<char>| exists|j: int| 0 <= j < i + 1 && is_ci_producer(#[trigger] ps@[j]) && ps@[j].producer_id@ == id,
            );
            assert forall|id: Seq<char>| next.contains(id) <==> ids.deep_view().to_set().contains(id) by {
                if next.contains(id) {
                    let j = choose|j: int| 0 <= j < i + 1 && is_ci_producer(#[trigger] ps@[j]) && ps@[j].producer_id@ == id;
                    if j < i {
                        assert(is_ci_producer(ps@[j]) && ps@[j].producer_id@ == id);
                    }
                }
            }
            assert(ids.deep_view().to_set() =~= next);
        }
        i += 1;
    }
    assert(ids.deep_view().to_set() =~= ci_ids(ps@));
    proof {
        crate::strset::lemma_sorted_no_duplicates(ids.deep_view());
    }
    ids
}


/// The names of the first `n` jobs that execute producers.
pub open spec fn execution_names_upto(jobs: Seq<(YamlNode, YamlNode)>, n: int) -> Set<Seq<char>> {
    Set::new(
        |name: Seq<char>|
            exists|k: int| 0 <= k < n && is_execution_job(#[trigger] jobs[k]) && string_of(jobs[k].0) == Some(name),
    )
}

fn bump_counts(ids: &Vec<String>, counts: &mut Vec<usize>, selected: &Vec<String>, bound: usize)
    requires
        old(counts)@.len() == ids@.len(),
        forall|i: int| 0 <= i < old(counts)@.len() ==> #[trigger] old(counts)@[i] < bound,
    ensures
        final(counts)@.len() == ids@.len(),
        forall|i: int|
            0 <= i < ids@.len() ==> #[trigger] final(counts)@[i] == old(counts)@[i] + if selected.deep_view().to_set().contains(
                ids.deep_view()[i],
            ) {
                1int
            } else {
                0int
            },
{
    let ghost c0 = counts@;
    let mut i: usize = 0;
    while i < ids.len()
        invariant
            i <= ids@.len(),
            counts@.len() == ids@.len(),
            c0.len() == ids@.len(),
            forall|q: int| 0 <= q < c0.len() ==> #[trigger] c0[q] < bound,
            forall|q: int|
                0 <= q < ids@.len() ==> #[trigger] counts@[q] == c0[q] + if q < i && selected.deep_view().to_set().contains(
                    ids.deep_view()[q],
                ) {
                    1int
                } else {
                    0int
                },
        decreases ids@.len() - i,
    {
        if crate::strset::contains_str_in(selected, ids[i].as_str()) {
            assert(ids.deep_view()[i as int] == ids@[i as int]@);
            let v = counts[i] + 1;
            counts.set(i, v);
        } else {
            assert(ids.deep_view()[i as int] == ids@[i as int]@);
        }
        i += 1;
    }
}

proof fn lemma_names_step(jobs: Seq<(YamlNode, YamlNode)>, k: int)
    requires
        0 <= k < jobs.len(),
    ensures
        execution_names_upto(jobs, k + 1) == if is_execution_job(jobs[k]) && string_of(jobs[k].0) is Some {
            execution_names_upto(jobs, k).insert(string_of(jobs[k].0)->0)
        } else {
            execution_names_upto(jobs, k)
        },
{
    let next = execution_names_upto(jobs, k + 1);
    let prev = execution_names_upto(jobs, k);
    let target = if is_execution_job(jobs[k]) && string_of(jobs[k].0) is Some {
        prev.insert(string_of(jobs[k].0)->0)
    } else {
        prev
    };
    assert forall|name: Seq<char>| next.contains(name) <==> target.contains(name) by {
        if next.contains(name) {
            let q = choose|q: int| 0 <= q < k + 1 && is_execution_job(#[trigger] jobs[q]) && string_of(jobs[q].0) == Some(name);
            if q < k {
                assert(prev.contains(name));
            }
        }
        if prev.contains(name) {
            let q = choose|q: int| 0 <= q < k && is_execution_job(#[trigger] jobs[q]) && string_of(jobs[q].0) == Some(name);
            assert(0 <= q < k + 1);
        }
        if is_execution_job(jobs[k]) && string_of(jobs[k].0) == Some(name) {
            assert(next.contains(name));
        }
    }
    assert(next =~= target);
}

/// Checks one job; for a job that executes producers, returns its name and
/// the producer set it executes.
fn check_job<'a>(ps: &Vec<Producer>, entry: &'a (YamlNode, YamlNode)) -> (r: Result<Option<(&'a str, Vec<String>)>, String>)
    ensures
        r is Ok <==> job_entry_ok(ps@, *entry),
        r matches Ok(None) ==> !is_execution_job(*entry) && job_selection(*entry) == Set::<Seq<char>>::empty(),
        r matches Ok(Some((name, sel))) ==> is_execution_job(*entry) && string_of(entry.0) == Some(name@)
            && job_selection(*entry) == sel.deep_view().to_set(),
        r matches Err(e) ==> job_refusal(ps@, *entry, e@),
{
    proof {
        reveal(job_entry_ok);
        reveal(is_execution_job);
        reveal(job_selection);
    }
    let job_id = as_string(&entry.0, "check.yml.jobs key")?;
    let job_path = cat("check.yml.jobs.", job_id);
    let job = as_mapping(&entry.1, job_path.as_str())?;
    let commands = job_commands(job, job_path.as_str())?;
    if commands.executions.len() == 0 {
        return Ok(None);
    }
    execution_job(ps, job, &commands, job_path.as_str())?;
    let sel = super::ci_command::clone_set(&commands.executions[0]);
    Ok(Some((job_id, sel)))
}

fn validate_jobs(ps: &Vec<Producer>, jobs: &Vec<(YamlNode, YamlNode)>, ids: &Vec<String>) -> (r: Result<
    (Vec<usize>, Vec<String>),
    String,
>)
    ensures
        r is Ok <==> forall|k: int| 0 <= k < jobs@.len() ==> job_entry_ok(ps@, #[trigger] jobs@[k]),
        r matches Ok((counts, names)) ==> {
            &&& counts@.len() == ids@.len()
            &&& forall|i: int| 0 <= i < ids@.len() ==> #[trigger] counts@[i] == executions_of(jobs@, ids.deep_view()[i], jobs@.len() as int)
            &&& sorted(names.deep_view())
            &&& names.deep_view().to_set() == execution_job_names(jobs@)
        },
        r matches Err(e) ==> first_job_refusal(ps@, jobs@, e@),
{
    let mut counts: Vec<usize> = Vec::new();
    let mut z: usize = 0;
    while z < ids.len()
        invariant
            z <= ids@.len(),
            counts@.len() == z,
            forall|i: int| 0 <= i < z ==> #[trigger] counts@[i] == 0,
        decreases ids@.len() - z,
    {
        counts.push(0);
        z += 1;
    }
    let mut names: Vec<String> = Vec::new();
    let mut k: usize = 0;
    assert(names.deep_view().to_set() =~= execution_names_upto(jobs@, 0));
    while k < jobs.len()
        invariant
            k <= jobs@.len(),
            counts@.len() == ids@.len(),
            forall|i: int| 0 <= i < ids@.len() ==> #[trigger] counts@[i] == executions_of(jobs@, ids.deep_view()[i], k as int),
            forall|i: int| 0 <= i < ids@.len() ==> #[trigger] counts@[i] <= k,
            forall|q: int| 0 <= q < k ==> job_entry_ok(ps@, #[trigger] jobs@[q]),
            sorted(names.deep_view()),
            names.deep_view().to_set() == execution_names_upto(jobs@, k as int),
        decreases jobs@.len() - k,
    {
        proof {
            lemma_names_step(jobs@, k as int);
        }
        let checked = check_job(ps, &jobs[k]);
        if let Err(e) = checked {
            assert(first_job_refusal(ps@, jobs@, e@)) by {
                assert(!job_entry_ok(ps@, jobs@[k as int]) && job_refusal(ps@, jobs@[k as int], e@));
            }
            return Err(e);
        }
        match checked? {
            None => {},
            Some((name, sel)) => {
                bump_counts(ids, &mut counts, &sel, k + 1);
                set_insert(&mut names, to_string(name));
            },
        }
        k += 1;
    }
    assert(execution_names_upto(jobs@, jobs@.len() as int) =~= execution_job_names(jobs@));
    Ok((counts, names))
}

fn validate_exactly_once(ids: &Vec<String>, counts: &Vec<usize>) -> (r: Result<(), String>)
    requires
        counts@.len() == ids@.len(),
    ensures
        r is Ok <==> forall|i: int| 0 <= i < counts@.len() ==> #[trigger] counts@[i] == 1,
        r matches Err(e) ==> crate::text::starts_with(e@, exactly_once_refusal()),
{
    let mut missing: Vec<String> = Vec::new();
    let mut duplicate: Vec<String> = Vec::new();
    let mut i: usize = 0;
    while i < ids.len()
        invariant
            i <= ids@.len(),
            counts@.len() == ids@.len(),
            (missing@.len() == 0 && duplicate@.len() == 0) <==> forall|q: int| 0 <= q < i ==> #[trigger] counts@[q] == 1,
        decreases ids@.len() - i,
    {
        if counts[i] == 0 {
            missing.push(to_string(ids[i].as_str()));
        } else if counts[i] > 1 {
            let head = cat3(ids[i].as_str(), " (", decimal_string(counts[i] as u128).as_str());
            duplicate.push(cat(head.as_str(), ")"));
        }
        i += 1;
    }
    if missing.len() > 0 || duplicate.len() > 0 {
        let lead = "acceptance producers: check.yml must execute every CI producer exactly once; missing=[";
        let head = cat(lead, join(&missing, ", ").as_str());
        let mid = cat3(head.as_str(), "] duplicate=[", join(&duplicate, ", ").as_str());
        let e = cat(mid.as_str(), "]");
        assert(e@.take(lead@.len() as int) =~= lead@);
        return Err(e);
    }
    Ok(())
}


/// How the refusal of a workflow that does not run each CI producer exactly
/// once begins; the missing and duplicated producers follow.
pub open spec fn exactly_once_refusal() -> Seq<char> {
    "acceptance producers: check.yml must execute every CI producer exactly once; missing=["@
}

/// The stable fan-in job.
pub const FAN_IN_JOB: &'static str = "check";

/// The fan-in job's required condition.
pub const FAN_IN_IF: &'static str = "${{ always() }}";

/// The jobs the fan-in waits for, in order: the core checks, every producer
/// job, then the native watcher job.
pub open spec fn ordered_needs(names: Set<Seq<char>>) -> Seq<Seq<char>> {
    seq!["core-checks"@] + ordered(names) + seq!["watcher-native-fs"@]
}

pub open spec fn failure_clause(d: Seq<char>) -> Seq<char> {
    "needs."@ + d + ".result != 'success'"@
}

/// The fan-in step's condition: any awaited job that did not succeed.
pub open spec fn expected_failure_if(names: Set<Seq<char>>) -> Seq<char> {
    "${{ "@ + joined(ordered_needs(names).map_values(|d: Seq<char>| failure_clause(d)), " || "@) + " }}"@
}

/// The strings of a `needs` list.
pub open spec fn needs_set(needs: Seq<YamlNode>) -> Set<Seq<char>> {
    Set::new(|x: Seq<char>| exists|k: int| 0 <= k < needs.len() && string_of(#[trigger] needs[k]) == Some(x))
}

/// A step of an awaited job: a mapping whose command, if any, is neither
/// conditional, tolerated nor reinterpreted.
pub open spec fn dependency_step_ok(step: YamlNode) -> bool {
    match mapping_of(step) {
        Some(h) => has_key(h, "run"@) ==> !tolerated_or_conditional(h) && !step_modified(h),
        None => false,
    }
}

pub open spec fn all_dependency_steps_ok(steps: Seq<YamlNode>) -> bool {
    forall|k: int| 0 <= k < steps.len() ==> dependency_step_ok(#[trigger] steps[k])
}

/// Every step of an awaited job is well formed.
pub open spec fn dependency_steps_ok(job: Seq<(YamlNode, YamlNode)>) -> bool {
    match lookup(job, "steps"@) {
        Some(sv) => match sequence_of(sv) {
            Some(steps) => all_dependency_steps_ok(steps),
            None => false,
        },
        None => false,
    }
}

/// An awaited job cannot tolerate failure or change how its commands run.
#[verifier::opaque]
pub open spec fn dependency_ok(jobs: Seq<(YamlNode, YamlNode)>, d: Seq<char>) -> bool {
    match lookup(jobs, d) {
        Some(jv) => match mapping_of(jv) {
            Some(job) => !has_key(job, "continue-on-error"@) && !has_key(job, "defaults"@) && !has_key(job, "env"@)
                && !has_key(job, "container"@) && !has_key(job, "services"@) && dependency_steps_ok(job),
            None => false,
        },
        None => false,
    }
}

/// The fan-in's one step fails exactly when an awaited job did not succeed.
#[verifier::opaque]
pub open spec fn fan_in_step_ok(steps: Seq<YamlNode>, names: Set<Seq<char>>) -> bool {
    &&& steps.len() == 1
    &&& match mapping_of(steps[0]) {
        Some(st) => {
            &&& !step_modified(st)
            &&& match lookup(st, "if"@) {
                Some(iv) => string_of(iv) == Some(expected_failure_if(names)),
                None => false,
            }
            &&& match lookup(st, "run"@) {
                Some(rv) => match string_of(rv) {
                    Some(run) => crate::text::trim(run) == "exit 1"@,
                    None => false,
                },
                None => false,
            }
            &&& !has_key(st, "continue-on-error"@)
        },
        None => false,
    }
}

/// Every awaited job is a string, and together they are exactly the core
/// checks, the producer jobs and the watcher job.
#[verifier::opaque]
pub open spec fn needs_ok(needs: Seq<YamlNode>, names: Set<Seq<char>>) -> bool {
    &&& forall|k: int| 0 <= k < needs.len() ==> string_of(#[trigger] needs[k]) is Some
    &&& needs_set(needs) == ordered_needs(names).to_set()
}

#[verifier::opaque]
pub open spec fn dependencies_ok(jobs: Seq<(YamlNode, YamlNode)>, names: Set<Seq<char>>) -> bool {
    forall|d: Seq<char>| #[trigger] ordered_needs(names).to_set().contains(d) ==> dependency_ok(jobs, d)
}

/// The fan-in job's own fields, apart from what it awaits and its step.
#[verifier::opaque]
pub open spec fn fan_in_job_ok(job: Seq<(YamlNode, YamlNode)>) -> bool {
    &&& !job_modified(job)
    &&& lookup(job, "if"@) is Some && string_of(lookup(job, "if"@)->0) == Some(FAN_IN_IF@)
    &&& !has_key(job, "continue-on-error"@)
    &&& lookup(job, "runs-on"@) is Some && string_of(lookup(job, "runs-on"@)->0) == Some("ubuntu-latest"@)
}

/// The stable `check` job exists as a mapping, executes no producers, and
/// keeps its own fields.
pub open spec fn fan_in_shaped(jobs: Seq<(YamlNode, YamlNode)>, names: Set<Seq<char>>) -> bool {
    &&& !names.contains(FAN_IN_JOB@)
    &&& lookup(jobs, FAN_IN_JOB@) is Some && mapping_of(lookup(jobs, FAN_IN_JOB@)->0) is Some
    &&& fan_in_job_ok(fan_in_job(jobs))
}

/// What the fan-in's refusal says: where it awaits named jobs but not
/// exactly the ones it must, the needs mismatch; where it awaits the right
/// jobs but its step's condition is another string, that the step does not
/// reject every non-success result.
pub open spec fn fan_in_refusal(jobs: Seq<(YamlNode, YamlNode)>, names: Set<Seq<char>>, e: Seq<char>) -> bool {
    &&& fan_in_shaped(jobs, names) && needs_mismatched(fan_in_job(jobs), names) ==> crate::text::starts_with(
        e,
        "acceptance producers: "@ + "check.yml.jobs.check"@ + " needs mismatch; expected="@,
    )
    &&& fan_in_shaped(jobs, names) && field_seq(fan_in_job(jobs), "needs"@) is Some && needs_ok(
        field_seq(fan_in_job(jobs), "needs"@)->0,
        names,
    ) && dependencies_ok(jobs, names) && field_seq(fan_in_job(jobs), "steps"@) is Some && failure_condition_weak(
        field_seq(fan_in_job(jobs), "steps"@)->0,
        names,
    ) ==> e == "acceptance producers: "@ + "check.yml.jobs.check"@ + ".steps[0]"@ + " does not reject every non-success result"@
}

/// The fan-in awaits only named jobs, yet not exactly the ones it must.
pub open spec fn needs_mismatched(job: Seq<(YamlNode, YamlNode)>, names: Set<Seq<char>>) -> bool {
    match field_seq(job, "needs"@) {
        Some(ns) => (forall|k: int| 0 <= k < ns.len() ==> string_of(#[trigger] ns[k]) is Some) && !needs_ok(ns, names),
        None => false,
    }
}

/// The fan-in has one plain step whose condition is a string other than the
/// one that fails on every non-success result.
pub open spec fn failure_condition_weak(steps: Seq<YamlNode>, names: Set<Seq<char>>) -> bool {
    &&& steps.len() == 1
    &&& match mapping_of(steps[0]) {
        Some(st) => !step_modified(st) && match lookup(st, "if"@) {
            Some(iv) => match string_of(iv) {
                Some(cond) => cond != expected_failure_if(names),
                None => false,
            },
            None => false,
        },
        None => false,
    }
}

/// The `check` job's mapping.
pub open spec fn fan_in_job(jobs: Seq<(YamlNode, YamlNode)>) -> Seq<(YamlNode, YamlNode)> {
    mapping_of(lookup(jobs, FAN_IN_JOB@)->0)->0
}

/// The sequence under `name`, where there is one.
pub open spec fn field_seq(h: Seq<(YamlNode, YamlNode)>, name: Seq<char>) -> Option<Seq<YamlNode>> {
    match lookup(h, name) {
        Some(v) => sequence_of(v),
        None => None,
    }
}

/// The stable `check` job runs always, on Ubuntu, awaits exactly the core
/// checks, every producer job and the watcher job, none of which can hide a
/// failure, and fails when any of them did not succeed.
pub open spec fn fan_in_ok(jobs: Seq<(YamlNode, YamlNode)>, names: Set<Seq<char>>) -> bool {
    &&& !names.contains(FAN_IN_JOB@)
    &&& lookup(jobs, FAN_IN_JOB@) is Some && mapping_of(lookup(jobs, FAN_IN_JOB@)->0) is Some
    &&& fan_in_job_ok(fan_in_job(jobs))
    &&& field_seq(fan_in_job(jobs), "needs"@) is Some && needs_ok(field_seq(fan_in_job(jobs), "needs"@)->0, names)
    &&& dependencies_ok(jobs, names)
    &&& field_seq(fan_in_job(jobs), "steps"@) is Some && fan_in_step_ok(field_seq(fan_in_job(jobs), "steps"@)->0, names)
}


fn check_dependency(jobs: &Vec<(YamlNode, YamlNode)>, d: &str) -> (r: Result<(), String>)
    ensures
        r is Ok <==> dependency_ok(jobs@, d@),
{
    proof {
        reveal(dependency_ok);
    }
    let dependency_path = cat("check.yml.jobs.", d);
    let path = dependency_path.as_str();
    let job = as_mapping(required(jobs, d, "check.yml.jobs")?, path)?;
    if optional(job, "continue-on-error").is_some() {
        return Err(cat3("acceptance producers: ", path, " may not tolerate a required fan-in dependency failure"));
    }
    let tail = "; required fan-in dependencies must retain canonical execution semantics";
    let head = cat3("acceptance producers: ", path, " may not declare ");
    if optional(job, "defaults").is_some() {
        return Err(cat3(head.as_str(), "defaults", tail));
    }
    if optional(job, "env").is_some() {
        return Err(cat3(head.as_str(), "env", tail));
    }
    if optional(job, "container").is_some() {
        return Err(cat3(head.as_str(), "container", tail));
    }
    if optional(job, "services").is_some() {
        return Err(cat3(head.as_str(), "services", tail));
    }
    let ghost jv = lookup(jobs@, d@)->0;
    let steps_node = required(job, "steps", path)?;
    let ghost sv = *steps_node;
    let steps = as_sequence(steps_node, cat(path, ".steps").as_str())?;
    let mut i: usize = 0;
    while i < steps.len()
        invariant
            i <= steps@.len(),
            lookup(jobs@, d@) == Some(jv),
            mapping_of(jv) == Some(job@),
            !has_key(job@, "continue-on-error"@) && !has_key(job@, "defaults"@) && !has_key(job@, "env"@)
                && !has_key(job@, "container"@) && !has_key(job@, "services"@),
            lookup(job@, "steps"@) == Some(sv),
            sequence_of(sv) == Some(steps@),
            forall|u: int| 0 <= u < i ==> dependency_step_ok(#[trigger] steps@[u]),
        decreases steps@.len() - i,
    {
        let step_path = cat3(path, ".steps[", decimal_string(i as u128).as_str());
        let step_path = cat(step_path.as_str(), "]");
        let mapped = as_mapping(&steps[i], step_path.as_str());
        if mapped.is_err() {
            assert(!dependency_step_ok(steps@[i as int]));
            assert(!all_dependency_steps_ok(steps@));
            proof {
                reveal(dependency_ok);
            }
        }
        let step = mapped?;
        if optional(step, "run").is_some() {
            let checked = reject_tolerated_or_conditional(step, step_path.as_str());
            if checked.is_err() {
                assert(!dependency_step_ok(steps@[i as int]));
                assert(!all_dependency_steps_ok(steps@));
                proof {
                    reveal(dependency_ok);
                }
            }
            checked?;
            let checked = reject_step_execution_modifiers(step, step_path.as_str());
            if checked.is_err() {
                assert(!dependency_step_ok(steps@[i as int]));
                assert(!all_dependency_steps_ok(steps@));
                proof {
                    reveal(dependency_ok);
                }
            }
            checked?;
        }
        i += 1;
    }
    Ok(())
}

/// The awaited jobs in fan-in order.
fn ordered_needs_exec(names: &Vec<String>) -> (r: Vec<String>)
    requires
        sorted(names.deep_view()),
    ensures
        r.deep_view() == ordered_needs(names.deep_view().to_set()),
{
    proof {
        lemma_ordered(names.deep_view());
    }
    let mut r: Vec<String> = Vec::new();
    r.push(to_string("core-checks"));
    let mut i: usize = 0;
    while i < names.len()
        invariant
            i <= names@.len(),
            r.deep_view() == seq!["core-checks"@] + names.deep_view().take(i as int),
        decreases names@.len() - i,
    {
        let ghost before = r.deep_view();
        r.push(to_string(names[i].as_str()));
        assert(r.deep_view() =~= before.push(names@[i as int]@));
        assert(names.deep_view().take(i + 1) =~= names.deep_view().take(i as int).push(names@[i as int]@));
        assert(r.deep_view() =~= seq!["core-checks"@] + names.deep_view().take(i + 1));
        i += 1;
    }
    let ghost before = r.deep_view();
    r.push(to_string("watcher-native-fs"));
    assert(names.deep_view().take(names@.len() as int) =~= names.deep_view());
    assert(r.deep_view() =~= before.push("watcher-native-fs"@));
    assert(r.deep_view() =~= ordered_needs(names.deep_view().to_set()));
    r
}

fn failure_if(needs: &Vec<String>) -> (r: String)
    ensures
        r@ == "${{ "@ + joined(needs.deep_view().map_values(|d: Seq<char>| failure_clause(d)), " || "@) + " }}"@,
{
    let mut clauses: Vec<String> = Vec::new();
    let mut i: usize = 0;
    while i < needs.len()
        invariant
            i <= needs@.len(),
            clauses.deep_view() == needs.deep_view().take(i as int).map_values(|d: Seq<char>| failure_clause(d)),
        decreases needs@.len() - i,
    {
        let c = cat3("needs.", needs[i].as_str(), ".result != 'success'");
        let ghost before = clauses.deep_view();
        clauses.push(c);
        assert(clauses.deep_view() =~= before.push(c@));
        assert(needs.deep_view().take(i + 1) =~= needs.deep_view().take(i as int).push(needs@[i as int]@));
        assert(clauses.deep_view() =~= needs.deep_view().take(i + 1).map_values(|d: Seq<char>| failure_clause(d)));
        i += 1;
    }
    assert(needs.deep_view().take(needs@.len() as int) =~= needs.deep_view());
    cat3("${{ ", join(&clauses, " || ").as_str(), " }}")
}

/// `{"a", "b"}`: how a set of names is rendered in a diagnostic.
fn debug_set(v: &Vec<String>) -> (r: String)
    ensures
        r@ == "{"@ + joined(v.deep_view().map_values(|s: Seq<char>| crate::text::debug_quoted(s)), ", "@) + "}"@,
{
    let mut parts: Vec<String> = Vec::new();
    let mut i: usize = 0;
    while i < v.len()
        invariant
            i <= v@.len(),
            parts.deep_view() == v.deep_view().take(i as int).map_values(|s: Seq<char>| crate::text::debug_quoted(s)),
        decreases v@.len() - i,
    {
        let q = crate::text::quoted(v[i].as_str());
        let ghost before = parts.deep_view();
        parts.push(q);
        assert(parts.deep_view() =~= before.push(q@));
        assert(v.deep_view().take(i + 1) =~= v.deep_view().take(i as int).push(v@[i as int]@));
        assert(parts.deep_view() =~= v.deep_view().take(i + 1).map_values(|s: Seq<char>| crate::text::debug_quoted(s)));
        i += 1;
    }
    assert(v.deep_view().take(v@.len() as int) =~= v.deep_view());
    cat3("{", join(&parts, ", ").as_str(), "}")
}

#[verifier::rlimit(40)]
fn fan_in_step(steps: &Vec<YamlNode>, names: &Vec<String>, path: &str) -> (r: Result<(), String>)
    requires
        sorted(names.deep_view()),
    ensures
        r is Ok <==> fan_in_step_ok(steps@, names.deep_view().to_set()),
        failure_condition_weak(steps@, names.deep_view().to_set()) ==> (r matches Err(e) && e@ == "acceptance producers: "@
            + path@ + ".steps[0]"@ + " does not reject every non-success result"@),
{
    proof {
        reveal(fan_in_step_ok);
    }
    if steps.len() != 1 {
        return Err(cat3("acceptance producers: ", path, " must contain one exact failure step"));
    }
    let step_path = cat(path, ".steps[0]");
    let sp = step_path.as_str();
    let step = as_mapping(&steps[0], sp)?;
    reject_step_execution_modifiers(step, sp)?;
    let needs = ordered_needs_exec(names);
    let expected = failure_if(&needs);
    let condition = as_string(required(step, "if", sp)?, cat(sp, ".if").as_str())?;
    if !eq_str(condition, expected.as_str()) {
        let e = cat3("acceptance producers: ", sp, " does not reject every non-success result");
        assert(e@ =~= "acceptance producers: "@ + path@ + ".steps[0]"@ + " does not reject every non-success result"@);
        return Err(e);
    }
    let run = as_string(required(step, "run", sp)?, cat(sp, ".run").as_str())?;
    if !eq_str(crate::text::trim_str(run).as_str(), "exit 1") {
        return Err(cat3("acceptance producers: ", sp, " must fail with exact `exit 1`"));
    }
    if optional(step, "continue-on-error").is_some() {
        return Err(cat3("acceptance producers: ", sp, " may not tolerate fan-in failure"));
    }
    Ok(())
}


fn needs_strings(needs: &Vec<YamlNode>, path: &str) -> (r: Result<Vec<String>, String>)
    ensures
        r is Ok <==> forall|k: int| 0 <= k < needs@.len() ==> string_of(#[trigger] needs@[k]) is Some,
        r matches Ok(v) ==> sorted(v.deep_view()) && v.deep_view().to_set() == needs_set(needs@),
{
    let mut set: Vec<String> = Vec::new();
    let mut k: usize = 0;
    while k < needs.len()
        invariant
            k <= needs@.len(),
            forall|q: int| 0 <= q < k ==> string_of(#[trigger] needs@[q]) is Some,
            sorted(set.deep_view()),
            set.deep_view().to_set() == Set::new(
                |x: Seq<char>| exists|q: int| 0 <= q < k && string_of(#[trigger] needs@[q]) == Some(x),
            ),
        decreases needs@.len() - k,
    {
        let value = as_string(&needs[k], path)?;
        set_insert(&mut set, to_string(value));
        proof {
            let next = Set::new(|x: Seq<char>| exists|q: int| 0 <= q < k + 1 && string_of(#[trigger] needs@[q]) == Some(x));
            assert forall|x: Seq<char>| next.contains(x) <==> set.deep_view().to_set().contains(x) by {
                if next.contains(x) {
                    let q = choose|q: int| 0 <= q < k + 1 && string_of(#[trigger] needs@[q]) == Some(x);
                    if q < k {
                        assert(string_of(needs@[q]) == Some(x));
                    }
                }
                if set.deep_view().to_set().contains(x) && x != value@ {
                    let q = choose|q: int| 0 <= q < k && string_of(#[trigger] needs@[q]) == Some(x);
                    assert(0 <= q < k + 1);
                }
                if x == value@ {
                    assert(string_of(needs@[k as int]) == Some(x));
                }
            }
            assert(set.deep_view().to_set() =~= next);
        }
        k += 1;
    }
    assert(set.deep_view().to_set() =~= needs_set(needs@));
    Ok(set)
}

fn check_dependencies(jobs: &Vec<(YamlNode, YamlNode)>, actual: &Vec<String>) -> (r: Result<(), String>)
    ensures
        r is Ok <==> forall|u: int| 0 <= u < actual@.len() ==> dependency_ok(jobs@, #[trigger] actual.deep_view()[u]),
{
    let mut i: usize = 0;
    while i < actual.len()
        invariant
            i <= actual@.len(),
            forall|u: int| 0 <= u < i ==> dependency_ok(jobs@, #[trigger] actual.deep_view()[u]),
        decreases actual@.len() - i,
    {
        let d = actual[i].as_str();
        assert(actual.deep_view()[i as int] == d@);
        check_dependency(jobs, d)?;
        i += 1;
    }
    Ok(())
}

fn fan_in_fields(job: &Vec<(YamlNode, YamlNode)>, path: &str) -> (r: Result<(), String>)
    ensures
        r is Ok <==> fan_in_job_ok(job@),
{
    proof {
        reveal(fan_in_job_ok);
    }
    reject_job_execution_modifiers(job, path)?;
    let condition = as_string(required(job, "if", path)?, cat(path, ".if").as_str())?;
    if !eq_str(condition, FAN_IN_IF) {
        return Err(cat3("acceptance producers: ", path, " must run under exact always() fan-in policy"));
    }
    if optional(job, "continue-on-error").is_some() {
        return Err(cat3("acceptance producers: ", path, " may not tolerate fan-in failure"));
    }
    let host = as_string(required(job, "runs-on", path)?, cat(path, ".runs-on").as_str())?;
    if !eq_str(host, "ubuntu-latest") {
        return Err(cat3("acceptance producers: ", path, " must use the fixed Ubuntu host"));
    }
    Ok(())
}

fn fan_in_needs(job: &Vec<(YamlNode, YamlNode)>, names: &Vec<String>, path: &str) -> (r: Result<Vec<String>, String>)
    requires
        sorted(names.deep_view()),
    ensures
        r is Ok <==> field_seq(job@, "needs"@) is Some && needs_ok(field_seq(job@, "needs"@)->0, names.deep_view().to_set()),
        r matches Ok(v) ==> v.deep_view().to_set() == ordered_needs(names.deep_view().to_set()).to_set(),
        needs_mismatched(job@, names.deep_view().to_set()) ==> (r matches Err(e) && crate::text::starts_with(
            e@,
            "acceptance producers: "@ + path@ + " needs mismatch; expected="@,
        )),
{
    proof {
        reveal(needs_ok);
    }
    let ordered = ordered_needs_exec(names);
    let expected = crate::strset::sorted_set_of(&ordered);
    let needs_path = cat(path, ".needs");
    let needs = as_sequence(required(job, "needs", path)?, needs_path.as_str())?;
    let actual = needs_strings(needs, needs_path.as_str())?;
    if !crate::strset::strs_eq(&actual, &expected) {
        proof {
            if actual.deep_view().to_set() == expected.deep_view().to_set() {
                lemma_sorted_unique(actual.deep_view(), expected.deep_view());
            }
        }
        let head = cat3("acceptance producers: ", path, " needs mismatch; expected=");
        let mid = cat3(head.as_str(), debug_set(&expected).as_str(), " actual=");
        let e = cat(mid.as_str(), debug_set(&actual).as_str());
        assert(e@.take(head@.len() as int) =~= head@);
        return Err(e);
    }
    Ok(actual)
}

proof fn lemma_dependencies_miss(jobs: Seq<(YamlNode, YamlNode)>, actual: Seq<Seq<char>>, names: Set<Seq<char>>, u: int)
    requires
        actual.to_set() == ordered_needs(names).to_set(),
        0 <= u < actual.len(),
        !dependency_ok(jobs, actual[u]),
    ensures
        !dependencies_ok(jobs, names),
{
    reveal(dependencies_ok);
    assert(actual.to_set().contains(actual[u]));
}

proof fn lemma_dependencies_cover(jobs: Seq<(YamlNode, YamlNode)>, actual: Seq<Seq<char>>, names: Set<Seq<char>>)
    requires
        actual.to_set() == ordered_needs(names).to_set(),
        forall|u: int| 0 <= u < actual.len() ==> dependency_ok(jobs, #[trigger] actual[u]),
    ensures
        dependencies_ok(jobs, names),
{
    reveal(dependencies_ok);
    assert forall|d: Seq<char>| #[trigger] ordered_needs(names).to_set().contains(d) implies dependency_ok(jobs, d) by {
        assert(actual.to_set().contains(d));
        let u = choose|u: int| 0 <= u < actual.len() && actual[u] == d;
        assert(dependency_ok(jobs, actual[u]));
    }
}

/// Checks the stable fan-in job against the jobs that execute producers
/// (`names`, an ordered set).
#[verifier::rlimit(40)]
pub fn validate_fan_in(jobs: &Vec<(YamlNode, YamlNode)>, names: &Vec<String>) -> (r: Result<(), String>)
    requires
        sorted(names.deep_view()),
    ensures
        r is Ok <==> fan_in_ok(jobs@, names.deep_view().to_set()),
        r matches Err(e) ==> fan_in_refusal(jobs@, names.deep_view().to_set(), e@),
{
    let path = "check.yml.jobs.check";
    if crate::strset::contains_str_in(names, FAN_IN_JOB) {
        return Err(to_string("acceptance producers: stable check fan-in may not execute producers"));
    }
    let job = as_mapping(required(jobs, FAN_IN_JOB, "check.yml.jobs")?, path)?;
    assert(job@ == fan_in_job(jobs@));
    fan_in_fields(job, path)?;
    let actual = fan_in_needs(job, names, path)?;
    let checked = check_dependencies(jobs, &actual);
    if checked.is_err() {
        proof {
            let u = choose|u: int| 0 <= u < actual@.len() && !dependency_ok(jobs@, #[trigger] actual.deep_view()[u]);
            lemma_dependencies_miss(jobs@, actual.deep_view(), names.deep_view().to_set(), u);
        }
    }
    checked?;
    proof {
        lemma_dependencies_cover(jobs@, actual.deep_view(), names.deep_view().to_set());
    }
    let steps = as_sequence(required(job, "steps", path)?, cat(path, ".steps").as_str())?;
    fan_in_step(steps, names, path)
}


pub open spec fn all_jobs_ok(ps: Seq<Producer>, jobs: Seq<(YamlNode, YamlNode)>) -> bool {
    forall|k: int| 0 <= k < jobs.len() ==> job_entry_ok(ps, #[trigger] jobs[k])
}

/// The workflow's root mapping.
pub open spec fn workflow_root(docs: Seq<YamlNode>) -> Seq<(YamlNode, YamlNode)> {
    mapping_of(docs[0])->0
}

/// The workflow's jobs.
pub open spec fn workflow_jobs(docs: Seq<YamlNode>) -> Seq<(YamlNode, YamlNode)> {
    mapping_of(lookup(workflow_root(docs), "jobs"@)->0)->0
}

/// The CI workflow is one document whose root keeps no workflow-wide
/// defaults or environment, every job is well formed, every CI producer runs
/// in exactly one compatible shard, and the stable fan-in observes them all.
pub open spec fn workflow_ok(docs: Seq<YamlNode>, ps: Seq<Producer>) -> bool {
    &&& docs.len() == 1
    &&& mapping_of(docs[0]) is Some
    &&& !has_key(workflow_root(docs), "defaults"@) && !has_key(workflow_root(docs), "env"@)
    &&& lookup(workflow_root(docs), "jobs"@) is Some && mapping_of(lookup(workflow_root(docs), "jobs"@)->0) is Some
    &&& all_jobs_ok(ps, workflow_jobs(docs))
    &&& exactly_once(ps, workflow_jobs(docs))
    &&& fan_in_ok(workflow_jobs(docs), execution_job_names(workflow_jobs(docs)))
}

proof fn lemma_exactly_once(ps: Seq<Producer>, jobs: Seq<(YamlNode, YamlNode)>, ids: Seq<Seq<char>>, counts: Seq<usize>)
    requires
        ids.to_set() == ci_ids(ps),
        counts.len() == ids.len(),
        forall|i: int| 0 <= i < ids.len() ==> #[trigger] counts[i] == executions_of(jobs, ids[i], jobs.len() as int),
    ensures
        exactly_once(ps, jobs) <==> forall|i: int| 0 <= i < counts.len() ==> #[trigger] counts[i] == 1,
{
    if exactly_once(ps, jobs) {
        assert forall|i: int| 0 <= i < counts.len() implies #[trigger] counts[i] == 1 by {
            assert(ids.to_set().contains(ids[i]));
            assert(ci_ids(ps).contains(ids[i]));
            let j = choose|j: int| 0 <= j < ps.len() && is_ci_producer(#[trigger] ps[j]) && ps[j].producer_id@ == ids[i];
            assert(executions_of(jobs, ps[j].producer_id@, jobs.len() as int) == 1);
        }
    }
    if forall|i: int| 0 <= i < counts.len() ==> #[trigger] counts[i] == 1 {
        assert forall|j: int| 0 <= j < ps.len() && is_ci_producer(#[trigger] ps[j]) implies executions_of(
            jobs,
            ps[j].producer_id@,
            jobs.len() as int,
        ) == 1 by {
            assert(ci_ids(ps).contains(ps[j].producer_id@));
            assert(ids.to_set().contains(ps[j].producer_id@));
            let i = choose|i: int| 0 <= i < ids.len() && ids[i] == ps[j].producer_id@;
            assert(counts[i] == 1);
        }
    }
}

/// Checks the loaded CI workflow documents against the producer registry.
/// The workflow is one document whose root mapping declares no defaults or
/// environment and maps its jobs.
pub open spec fn workflow_shaped(docs: Seq<YamlNode>) -> bool {
    &&& docs.len() == 1
    &&& mapping_of(docs[0]) is Some
    &&& !has_key(workflow_root(docs), "defaults"@) && !has_key(workflow_root(docs), "env"@)
    &&& lookup(workflow_root(docs), "jobs"@) is Some && mapping_of(lookup(workflow_root(docs), "jobs"@)->0) is Some
}

/// Everything a workflow must be short of running each CI producer exactly
/// once and of its fan-in job.
pub open spec fn jobs_checked(docs: Seq<YamlNode>, ps: Seq<Producer>) -> bool {
    &&& docs.len() == 1
    &&& mapping_of(docs[0]) is Some
    &&& !has_key(workflow_root(docs), "defaults"@) && !has_key(workflow_root(docs), "env"@)
    &&& lookup(workflow_root(docs), "jobs"@) is Some && mapping_of(lookup(workflow_root(docs), "jobs"@)->0) is Some
    &&& all_jobs_ok(ps, workflow_jobs(docs))
}

pub fn validate_workflow(docs: &Vec<YamlNode>, registry: &ProducerRegistry) -> (r: Result<(), String>)
    ensures
        r is Ok <==> workflow_ok(docs@, registry.producers@),
        r matches Err(e) ==> (jobs_checked(docs@, registry.producers@) && !exactly_once(
            registry.producers@,
            workflow_jobs(docs@),
        ) ==> crate::text::starts_with(e@, exactly_once_refusal())),
        r matches Err(e) ==> (workflow_shaped(docs@) && !all_jobs_ok(registry.producers@, workflow_jobs(docs@))
            ==> first_job_refusal(registry.producers@, workflow_jobs(docs@), e@)),
        r matches Err(e) ==> (jobs_checked(docs@, registry.producers@) && exactly_once(
            registry.producers@,
            workflow_jobs(docs@),
        ) ==> fan_in_refusal(workflow_jobs(docs@), execution_job_names(workflow_jobs(docs@)), e@)),
{
    if docs.len() != 1 {
        return Err(to_string("acceptance producers: check.yml must contain exactly one YAML document"));
    }
    let root = as_mapping(&docs[0], "check.yml")?;
    let tail = "; canonical producer commands must retain their execution semantics";
    if optional(root, "defaults").is_some() {
        return Err(cat3("acceptance producers: check.yml may not declare workflow ", "defaults", tail));
    }
    if optional(root, "env").is_some() {
        return Err(cat3("acceptance producers: check.yml may not declare workflow ", "env", tail));
    }
    let jobs = as_mapping(required(root, "jobs", "check.yml")?, "check.yml.jobs")?;
    assert(jobs@ == workflow_jobs(docs@));
    let ids = collect_ci_ids(&registry.producers);
    let (counts, names) = validate_jobs(&registry.producers, jobs, &ids)?;
    proof {
        lemma_exactly_once(registry.producers@, jobs@, ids.deep_view(), counts@);
    }
    validate_exactly_once(&ids, &counts)?;
    validate_fan_in(jobs, &names)
}

/// Checks the text of the CI workflow (`.github/workflows/check.yml`)
/// against the producer registry: text that does not load as YAML is
/// refused, and loaded documents are held to `workflow_ok`.
pub fn validate_text(workflow: &str, registry: &ProducerRegistry) -> (r: Result<(), String>)
    ensures
        match yaml_documents(workflow@) {
            None => r is Err,
            Some(d) => {
                &&& r is Ok <==> workflow_ok(d, registry.producers@)
                &&& r matches Err(e) ==> (jobs_checked(d, registry.producers@) && !exactly_once(
                    registry.producers@,
                    workflow_jobs(d),
                ) ==> crate::text::starts_with(e@, exactly_once_refusal()))
                &&& r matches Err(e) ==> (workflow_shaped(d) && !all_jobs_ok(registry.producers@, workflow_jobs(d))
                    ==> first_job_refusal(registry.producers@, workflow_jobs(d), e@))
                &&& r matches Err(e) ==> (jobs_checked(d, registry.producers@) && exactly_once(
                    registry.producers@,
                    workflow_jobs(d),
                ) ==> fan_in_refusal(workflow_jobs(d), execution_job_names(workflow_jobs(d)), e@))
            },
        },
{
    match load_yaml(workflow) {
        Some(docs) => validate_workflow(&docs, registry),
        None => Err(to_string("acceptance producers: check.yml is not valid YAML")),
    }
}

} // verus!
