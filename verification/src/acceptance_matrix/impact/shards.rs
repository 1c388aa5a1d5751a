//! Verification shard, producer ownership, and runtime isolation checks.
use super::ids::{unique_ids, unique_ids_spec};
use super::model::{ImpactRegistry, ImpactShard, Isolation};
use super::plan::{shard_index, shard_ids};
use crate::strset::{contains_str_in, is_subset, set_extend, set_insert, sorted, strings_of, strs_eq};
use crate::text::{cat, cat3, eq_str, to_string};
use vstd::prelude::*;

verus! {

pub open spec fn scoped(v: Seq<char>) -> bool {
    v == "not-applicable"@ || v == "per-execution"@ || v == "per-job"@
}

/// Each isolation dimension holds a value of its own type.
pub open spec fn isolation_typed(iso: Isolation) -> bool {
    &&& scoped(iso.state@)
    &&& (iso.ports@ == "not-applicable"@ || iso.ports@ == "allocated"@)
    &&& scoped(iso.database@)
    &&& scoped(iso.identity@)
    &&& (iso.fixture@ == "not-applicable"@ || iso.fixture@ == "per-execution"@ || iso.fixture@
        == "per-job"@ || iso.fixture@ == "content-addressed"@)
    &&& scoped(iso.logs@)
}

/// The dimensions an execution kind must isolate are not `not-applicable`.
pub open spec fn isolation_complete(kind: Seq<char>, iso: Isolation) -> bool {
    let na = "not-applicable"@;
    if kind == "application"@ {
        iso.state@ != na && iso.ports@ != na && iso.database@ != na && iso.identity@ != na
            && iso.fixture@ != na && iso.logs@ != na
    } else if kind == "process"@ {
        iso.state@ != na && iso.database@ != na && iso.identity@ != na && iso.fixture@ != na
            && iso.logs@ != na
    } else {
        true
    }
}

pub open spec fn valid_isolation_spec(sh: ImpactShard) -> bool {
    &&& (sh.execution_kind@ == "static"@ || sh.execution_kind@ == "process"@ || sh.execution_kind@
        == "application"@)
    &&& isolation_typed(sh.isolation)
    &&& isolation_complete(sh.execution_kind@, sh.isolation)
}

fn is_scoped(v: &str) -> (r: bool)
    ensures
        r == scoped(v@),
{
    eq_str(v, "not-applicable") || eq_str(v, "per-execution") || eq_str(v, "per-job")
}

/// Checks a shard's execution kind and its dimension-typed isolation.
pub fn validate_isolation(shard: &ImpactShard) -> (r: Result<(), String>)
    ensures
        r is Ok <==> valid_isolation_spec(*shard),
{
    let kind = shard.execution_kind.as_str();
    if !(eq_str(kind, "static") || eq_str(kind, "process") || eq_str(kind, "application")) {
        return Err(cat3("acceptance-impact: shard ", shard.shard_id.as_str(), " has an invalid execution kind"));
    }
    let iso = &shard.isolation;
    if !is_scoped(iso.state.as_str()) || !(eq_str(iso.ports.as_str(), "not-applicable") || eq_str(
        iso.ports.as_str(),
        "allocated",
    )) || !is_scoped(iso.database.as_str()) || !is_scoped(iso.identity.as_str()) || !(eq_str(
        iso.fixture.as_str(),
        "not-applicable",
    ) || eq_str(iso.fixture.as_str(), "per-execution") || eq_str(iso.fixture.as_str(), "per-job")
        || eq_str(iso.fixture.as_str(), "content-addressed")) || !is_scoped(iso.logs.as_str()) {
        return Err(
            cat3(
                "acceptance-impact: shard ",
                shard.shard_id.as_str(),
                " has an invalid dimension-typed isolation policy",
            ),
        );
    }
    let na = "not-applicable";
    let missing = if eq_str(kind, "application") {
        eq_str(iso.state.as_str(), na) || eq_str(iso.ports.as_str(), na) || eq_str(iso.database.as_str(), na)
            || eq_str(iso.identity.as_str(), na) || eq_str(iso.fixture.as_str(), na) || eq_str(
            iso.logs.as_str(),
            na,
        )
    } else if eq_str(kind, "process") {
        eq_str(iso.state.as_str(), na) || eq_str(iso.database.as_str(), na) || eq_str(
            iso.identity.as_str(),
            na,
        ) || eq_str(iso.fixture.as_str(), na) || eq_str(iso.logs.as_str(), na)
    } else {
        false
    };
    if missing {
        let resources = if eq_str(kind, "application") {
            "state, ports, database, identity, fixture, and logs"
        } else {
            "state, database, identity, fixture, and logs"
        };
        let head = cat3("acceptance-impact: ", kind, " shard ");
        let mid = cat3(head.as_str(), shard.shard_id.as_str(), " must isolate ");
        return Err(cat(mid.as_str(), resources));
    }
    Ok(())
}

/// The first CI job mapped to `producer`.
pub open spec fn ci_job_index(map: Seq<(String, String)>, producer: Seq<char>) -> Option<int> {
    if exists|i: int|
        0 <= i < map.len() && map[i].0@ == producer && forall|j: int| 0 <= j < i ==> #[trigger] map[j].0@ != producer {
        Some(choose|i: int|
            0 <= i < map.len() && map[i].0@ == producer && forall|j: int|
                0 <= j < i ==> #[trigger] map[j].0@ != producer)
    } else {
        None
    }
}

pub open spec fn has_ci_job(map: Seq<(String, String)>, producer: Seq<char>) -> bool {
    exists|i: int| 0 <= i < map.len() && #[trigger] map[i].0@ == producer
}

/// The CI job of `producer`, when it has one.
pub fn find_ci_job(map: &Vec<(String, String)>, producer: &str) -> (r: Option<usize>)
    ensures
        match r {
            Some(i) => ci_job_index(map@, producer@) == Some(i as int) && i < map.len(),
            None => ci_job_index(map@, producer@) is None && !has_ci_job(map@, producer@),
        },
{
    let mut i: usize = 0;
    while i < map.len()
        invariant
            i <= map.len(),
            forall|j: int| 0 <= j < i ==> #[trigger] map@[j].0@ != producer@,
        decreases map.len() - i,
    {
        if eq_str(map[i].0.as_str(), producer) {
            proof {
                let c = choose|c: int|
                    0 <= c < map@.len() && map@[c].0@ == producer@ && forall|j: int|
                        0 <= j < c ==> #[trigger] map@[j].0@ != producer@;
                if c < i {
                    assert(map@[c].0@ != producer@);
                } else if c > i {
                    assert(map@[i as int].0@ != producer@);
                }
            }
            return Some(i);
        }
        i += 1;
    }
    None
}

/// Source shards hold only producers that full CI runs; runtime shards hold
/// none of them.
pub open spec fn layer_producers_ok(layer: Seq<char>, producers: Set<Seq<char>>, map: Seq<(String, String)>) -> bool {
    &&& (layer == "source"@ ==> forall|p: Seq<char>| #[trigger] producers.contains(p) ==> has_ci_job(map, p))
    &&& (layer == "runtime"@ ==> forall|p: Seq<char>| #[trigger] producers.contains(p) ==> !has_ci_job(map, p))
}

pub fn validate_layer_producer_jobs(
    shard: &ImpactShard,
    producers: &Vec<String>,
    ci_job_by_producer: &Vec<(String, String)>,
) -> (r: Result<(), String>)
    ensures
        r is Ok <==> layer_producers_ok(shard.layer@, producers.deep_view().to_set(), ci_job_by_producer@),
{
    let source = eq_str(shard.layer.as_str(), "source");
    let runtime = eq_str(shard.layer.as_str(), "runtime");
    let ghost ps = producers.deep_view();
    let mut i: usize = 0;
    while i < producers.len()
        invariant
            ps == producers.deep_view(),
            i <= producers.len(),
            source == (shard.layer@ == "source"@),
            runtime == (shard.layer@ == "runtime"@),
            source ==> forall|k: int| 0 <= k < i ==> has_ci_job(ci_job_by_producer@, #[trigger] ps[k]),
            runtime ==> forall|k: int| 0 <= k < i ==> !has_ci_job(ci_job_by_producer@, #[trigger] ps[k]),
        decreases producers.len() - i,
    {
        assert(ps[i as int] == producers@[i as int]@);
        let mapped = find_ci_job(ci_job_by_producer, producers[i].as_str()).is_some();
        if source && !mapped {
            assert(ps.to_set().contains(ps[i as int]));
            return Err(
                cat3(
                    "acceptance-impact: source shard ",
                    shard.shard_id.as_str(),
                    " may contain only producers executed by full CI",
                ),
            );
        }
        if runtime && mapped {
            assert(ps.to_set().contains(ps[i as int]));
            return Err(
                cat3(
                    "acceptance-impact: runtime shard ",
                    shard.shard_id.as_str(),
                    " may not contain ordinary CI producers",
                ),
            );
        }
        i += 1;
    }
    proof {
        assert forall|p: Seq<char>| #[trigger] ps.to_set().contains(p) implies (source ==> has_ci_job(
            ci_job_by_producer@,
            p,
        )) && (runtime ==> !has_ci_job(ci_job_by_producer@, p)) by {
            let k = choose|k: int| 0 <= k < ps.len() && ps[k] == p;
        }
    }
    Ok(())
}

/// The fixed source shards and the base CI jobs each must keep.
pub open spec fn fixed_base_jobs() -> Seq<(Seq<char>, Seq<Seq<char>>)> {
    seq![
        ("contract-static"@, seq!["contract-checks"@]),
        ("core-ci"@, seq!["watcher-native-fs"@]),
        ("workspace-build"@, seq!["rust-quality"@, "workspace-tests"@]),
    ]
}

pub open spec fn fixed_base_jobs_ok(ss: Seq<ImpactShard>) -> bool {
    forall|k: int|
        0 <= k < fixed_base_jobs().len() ==> match shard_index(ss, #[trigger] fixed_base_jobs()[k].0) {
            Some(j) => fixed_base_jobs()[k].1.to_set().subset_of(ss[j].ci_jobs.deep_view().to_set()),
            None => false,
        }
}

fn find_shard_last(ss: &Vec<ImpactShard>, id: &str) -> (r: Option<usize>)
    ensures
        match r {
            Some(i) => shard_index(ss@, id@) == Some(i as int) && i < ss.len(),
            None => shard_index(ss@, id@) is None,
        },
{
    let mut i: usize = ss.len();
    while i > 0
        invariant
            i <= ss.len(),
            forall|j: int| i <= j < ss.len() ==> #[trigger] ss@[j].shard_id@ != id@,
        decreases i,
    {
        i -= 1;
        if eq_str(ss[i].shard_id.as_str(), id) {
            proof {
                let c = choose|c: int|
                    0 <= c < ss@.len() && ss@[c].shard_id@ == id@ && forall|j: int|
                        c < j < ss@.len() ==> #[trigger] ss@[j].shard_id@ != id@;
                if c < i {
                    assert(ss@[i as int].shard_id@ != id@);
                } else if c > i {
                    assert(ss@[c].shard_id@ != id@);
                }
            }
            return Some(i);
        }
    }
    None
}

fn fixed_binding_ok(registry: &ImpactRegistry, id: &str, required: &Vec<String>) -> (r: Result<(), String>)
    ensures
        r is Ok <==> match shard_index(registry.shards@, id@) {
            Some(j) => required.deep_view().to_set().subset_of(registry.shards@[j].ci_jobs.deep_view().to_set()),
            None => false,
        },
{
    let j = match find_shard_last(&registry.shards, id) {
        Some(j) => j,
        None => {
            return Err(cat("acceptance-impact: missing fixed source shard ", id));
        },
    };
    if !is_subset(required, &registry.shards[j].ci_jobs) {
        return Err(cat3("acceptance-impact: fixed source shard ", id, " omits required base CI jobs"));
    }
    Ok(())
}

/// Base CI jobs cannot move off their fixed source shards.
pub fn validate_fixed_base_job_bindings(registry: &ImpactRegistry) -> (r: Result<(), String>)
    ensures
        r is Ok <==> fixed_base_jobs_ok(registry.shards@),
{
    let ghost fb = fixed_base_jobs();
    let a = strings_of(&vec!["contract-checks"]);
    assert(a.deep_view() =~= fb[0].1);
    let res = fixed_binding_ok(registry, "contract-static", &a);
    if res.is_err() {
        assert(fb[0].0 == "contract-static"@);
        return res;
    }
    let b = strings_of(&vec!["watcher-native-fs"]);
    assert(b.deep_view() =~= fb[1].1);
    let res = fixed_binding_ok(registry, "core-ci", &b);
    if res.is_err() {
        assert(fb[1].0 == "core-ci"@);
        return res;
    }
    let c = strings_of(&vec!["rust-quality", "workspace-tests"]);
    assert(c.deep_view() =~= fb[2].1);
    let res = fixed_binding_ok(registry, "workspace-build", &c);
    if res.is_err() {
        assert(fb[2].0 == "workspace-build"@);
        return res;
    }
    assert forall|k: int| 0 <= k < fb.len() implies match shard_index(registry.shards@, #[trigger] fb[k].0) {
        Some(j) => fb[k].1.to_set().subset_of(registry.shards@[j].ci_jobs.deep_view().to_set()),
        None => false,
    } by {
        if k == 0 {
        } else if k == 1 {
        } else {
        }
    }
    Ok(())
}

/// The CI jobs that full CI runs and shards must map exactly.
pub open spec fn required_ci_jobs() -> Seq<Seq<char>> {
    seq![
        "contract-checks"@,
        "rust-quality"@,
        "workspace-tests"@,
        "ci-acceptance-runtime"@,
        "ci-acceptance-storage"@,
        "ci-acceptance-web"@,
        "ci-acceptance-windows"@,
        "watcher-native-fs"@,
    ]
}

/// `producer` runs in full CI under `job`.
pub open spec fn producer_job_is(map: Seq<(String, String)>, producer: Seq<char>, job: Seq<char>) -> bool {
    match ci_job_index(map, producer) {
        Some(i) => map[i].1@ == job,
        None => false,
    }
}

/// The full CI jobs that run the given producers.
pub open spec fn mapped_jobs(map: Seq<(String, String)>, producers: Set<Seq<char>>) -> Set<Seq<char>> {
    Set::new(|job: Seq<char>| exists|p: Seq<char>| producers.contains(p) && #[trigger] producer_job_is(map, p, job))
}

/// One shard's own checks, in the order they are made.
pub open spec fn shard_ok(
    sh: ImpactShard,
    artifacts: Set<Seq<char>>,
    known: Set<Seq<char>>,
    map: Seq<(String, String)>,
) -> bool {
    let jobs = sh.ci_jobs.deep_view();
    let ps = sh.producer_ids.deep_view();
    let checks = sh.checks.deep_view();
    let inputs = sh.artifact_inputs.deep_view();
    &&& unique_ids_spec(jobs)
    &&& (sh.layer@ == "source"@ ==> jobs.len() > 0)
    &&& (sh.layer@ == "runtime"@ ==> jobs.len() == 0)
    &&& jobs.to_set().subset_of(required_ci_jobs().to_set())
    &&& unique_ids_spec(ps)
    &&& layer_producers_ok(sh.layer@, ps.to_set(), map)
    &&& mapped_jobs(map, ps.to_set()).subset_of(jobs.to_set())
    &&& unique_ids_spec(checks)
    &&& !(ps.len() == 0 && checks.len() == 0)
    &&& ps.to_set().subset_of(known)
    &&& unique_ids_spec(inputs)
    &&& inputs.len() > 0
    &&& inputs.to_set().subset_of(artifacts)
    &&& valid_isolation_spec(sh)
}

pub open spec fn producers_of(ss: Seq<ImpactShard>, n: int) -> Set<Seq<char>> {
    Set::new(|p: Seq<char>| exists|k: int| 0 <= k < n && #[trigger] ss[k].producer_ids.deep_view().contains(p))
}

pub open spec fn jobs_of(ss: Seq<ImpactShard>, n: int) -> Set<Seq<char>> {
    Set::new(|j: Seq<char>| exists|k: int| 0 <= k < n && #[trigger] ss[k].ci_jobs.deep_view().contains(j))
}

/// The registry's shards: each well-formed, every known producer in exactly
/// one shard, the full CI jobs mapped exactly, base jobs on fixed shards.
pub open spec fn shards_valid(
    reg: ImpactRegistry,
    artifacts: Set<Seq<char>>,
    known: Set<Seq<char>>,
    map: Seq<(String, String)>,
) -> bool {
    let ss = reg.shards@;
    &&& forall|i: int| 0 <= i < ss.len() ==> shard_ok(#[trigger] ss[i], artifacts, known, map)
    &&& forall|a: int, b: int, p: Seq<char>|
        0 <= a < b < ss.len() && #[trigger] ss[a].producer_ids.deep_view().contains(p)
            ==> !#[trigger] ss[b].producer_ids.deep_view().contains(p)
    &&& producers_of(ss, ss.len() as int) == known
    &&& jobs_of(ss, ss.len() as int) == required_ci_jobs().to_set()
    &&& fixed_base_jobs_ok(ss)
}

fn mapped_jobs_covered(
    producers: &Vec<String>,
    jobs: &Vec<String>,
    map: &Vec<(String, String)>,
) -> (r: bool)
    ensures
        r == mapped_jobs(map@, producers.deep_view().to_set()).subset_of(jobs.deep_view().to_set()),
{
    let ghost ps = producers.deep_view();
    let mut i: usize = 0;
    while i < producers.len()
        invariant
            ps == producers.deep_view(),
            i <= producers.len(),
            forall|k: int, job: Seq<char>|
                0 <= k < i && #[trigger] producer_job_is(map@, ps[k], job) ==> jobs.deep_view().contains(job),
        decreases producers.len() - i,
    {
        assert(ps[i as int] == producers@[i as int]@);
        match find_ci_job(map, producers[i].as_str()) {
            Some(j) => {
                if !contains_str_in(jobs, map[j].1.as_str()) {
                    assert(producer_job_is(map@, ps[i as int], map@[j as int].1@));
                    assert(ps.to_set().contains(ps[i as int]));
                    assert(mapped_jobs(map@, ps.to_set()).contains(map@[j as int].1@));
                    return false;
                }
            },
            None => {},
        }
        i += 1;
    }
    assert forall|job: Seq<char>| #[trigger] mapped_jobs(map@, ps.to_set()).contains(job) implies jobs.deep_view().to_set().contains(job) by {
        let p = choose|p: Seq<char>| ps.to_set().contains(p) && #[trigger] producer_job_is(map@, p, job);
        let k = choose|k: int| 0 <= k < ps.len() && ps[k] == p;
        assert(producer_job_is(map@, ps[k], job));
    }
    true
}

fn validate_shard(
    shard: &ImpactShard,
    artifacts: &Vec<String>,
    known: &Vec<String>,
    map: &Vec<(String, String)>,
    required: &Vec<String>,
) -> (r: Result<Vec<String>, String>)
    requires
        required.deep_view() == required_ci_jobs(),
    ensures
        r is Ok <==> shard_ok(*shard, artifacts.deep_view().to_set(), known.deep_view().to_set(), map@),
        r matches Ok(ps) ==> sorted(ps.deep_view()) && ps.deep_view().to_set() == shard.producer_ids.deep_view().to_set(),
{
    let id = shard.shard_id.as_str();
    let jobs = unique_ids(&shard.ci_jobs, "shard CI job")?;
    let source = eq_str(shard.layer.as_str(), "source");
    let runtime = eq_str(shard.layer.as_str(), "runtime");
    proof {
        crate::strset::lemma_to_set_empty(jobs.deep_view());
        crate::strset::lemma_to_set_empty(shard.ci_jobs.deep_view());
    }
    if source && jobs.len() == 0 {
        return Err(cat3("acceptance-impact: source shard ", id, " has no full CI job mapping"));
    }
    if runtime && jobs.len() != 0 {
        return Err(cat3("acceptance-impact: runtime shard ", id, " must not claim ordinary PR CI jobs"));
    }
    if !is_subset(&jobs, required) {
        return Err(cat3("acceptance-impact: shard ", id, " references an unknown full CI job"));
    }
    let producers = unique_ids(&shard.producer_ids, "shard producer")?;
    validate_layer_producer_jobs(shard, &producers, map)?;
    if !mapped_jobs_covered(&producers, &jobs, map) {
        return Err(cat3("acceptance-impact: shard ", id, " omits an actual CI producer job"));
    }
    let checks = unique_ids(&shard.checks, "shard check")?;
    proof {
        crate::strset::lemma_to_set_empty(producers.deep_view());
        crate::strset::lemma_to_set_empty(shard.producer_ids.deep_view());
        crate::strset::lemma_to_set_empty(checks.deep_view());
        crate::strset::lemma_to_set_empty(shard.checks.deep_view());
    }
    if producers.len() == 0 && checks.len() == 0 {
        return Err(cat3("acceptance-impact: shard ", id, " has no verification unit"));
    }
    if !is_subset(&producers, known) {
        return Err(cat3("acceptance-impact: shard ", id, " references an unknown producer"));
    }
    let inputs = unique_ids(&shard.artifact_inputs, "artifact input")?;
    proof {
        crate::strset::lemma_to_set_empty(inputs.deep_view());
        crate::strset::lemma_to_set_empty(shard.artifact_inputs.deep_view());
    }
    if inputs.len() == 0 || !is_subset(&inputs, artifacts) {
        return Err(cat3("acceptance-impact: shard ", id, " has an invalid artifact input"));
    }
    validate_isolation(shard)?;
    Ok(producers)
}

/// Checks every shard against the artifact set, the known producers and
/// the producer-to-CI-job map.
pub fn validate(
    registry: &ImpactRegistry,
    artifacts: &Vec<String>,
    producer_ids: &Vec<String>,
    ci_job_by_producer: &Vec<(String, String)>,
) -> (r: Result<(), String>)
    ensures
        r is Ok <==> shards_valid(
            *registry,
            artifacts.deep_view().to_set(),
            producer_ids.deep_view().to_set(),
            ci_job_by_producer@,
        ),
{
    let ghost ss = registry.shards@;
    let ghost art = artifacts.deep_view().to_set();
    let ghost known = producer_ids.deep_view().to_set();
    let required = strings_of(
        &vec![
            "contract-checks",
            "rust-quality",
            "workspace-tests",
            "ci-acceptance-runtime",
            "ci-acceptance-storage",
            "ci-acceptance-web",
            "ci-acceptance-windows",
            "watcher-native-fs",
        ],
    );
    assert(required.deep_view() =~= required_ci_jobs());
    let mut assigned: Vec<String> = Vec::new();
    let mut mapped: Vec<String> = Vec::new();
    let mut i: usize = 0;
    assert(producers_of(ss, 0) =~= Set::empty());
    assert(jobs_of(ss, 0) =~= Set::empty());
    while i < registry.shards.len()
        invariant
            ss == registry.shards@,
            art == artifacts.deep_view().to_set(),
            known == producer_ids.deep_view().to_set(),
            required.deep_view() == required_ci_jobs(),
            i <= ss.len(),
            sorted(assigned.deep_view()),
            sorted(mapped.deep_view()),
            assigned.deep_view().to_set() == producers_of(ss, i as int),
            mapped.deep_view().to_set() == jobs_of(ss, i as int),
            forall|k: int| 0 <= k < i ==> shard_ok(#[trigger] ss[k], art, known, ci_job_by_producer@),
            forall|a: int, b: int, p: Seq<char>|
                0 <= a < b < i && #[trigger] ss[a].producer_ids.deep_view().contains(p)
                    ==> !#[trigger] ss[b].producer_ids.deep_view().contains(p),
        decreases ss.len() - i,
    {
        let shard = &registry.shards[i];
        let producers = match validate_shard(shard, artifacts, producer_ids, ci_job_by_producer, &required) {
            Ok(p) => p,
            Err(e) => {
                return Err(e);
            },
        };
        let ghost pv = shard.producer_ids.deep_view();
        let ghost a0 = assigned.deep_view().to_set();
        let mut k: usize = 0;
        while k < producers.len()
            invariant
                k <= producers.len(),
                ss == registry.shards@,
                i < ss.len(),
                pv == ss[i as int].producer_ids.deep_view(),
                a0 == producers_of(ss, i as int),
                sorted(assigned.deep_view()),
                sorted(producers.deep_view()),
                producers.deep_view().to_set() == pv.to_set(),
                assigned.deep_view().to_set() == a0 + producers.deep_view().take(k as int).to_set(),
                forall|q: int| 0 <= q < k ==> !a0.contains(#[trigger] producers.deep_view()[q]),
            decreases producers.len() - k,
        {
            let p = producers[k].clone();
            assert(p@ == producers.deep_view()[k as int]);
            assert(producers.deep_view().take(k + 1) =~= producers.deep_view().take(k as int).push(p@));
            proof {
                producers.deep_view().take(k as int).lemma_push_to_set_commute(p@);
            }
            let ghost before = assigned.deep_view().to_set();
            let ghost before_seq = assigned.deep_view();
            let fresh = set_insert(&mut assigned, p);
            assert(fresh == !before_seq.contains(producers.deep_view()[k as int]));
            assert(before_seq.to_set() == before);
            if fresh {
                assert(!before.contains(producers.deep_view()[k as int]));
                assert(!a0.contains(producers.deep_view()[k as int]));
            }
            if !fresh {
                proof {
                    assert(before.contains(producers.deep_view()[k as int]));
                    if !a0.contains(producers.deep_view()[k as int]) {
                        assert(producers.deep_view().take(k as int).to_set().contains(producers.deep_view()[k as int]));
                        let q = choose|q: int|
                            0 <= q < k && #[trigger] producers.deep_view().take(k as int)[q] == producers.deep_view()[k as int];
                        assert(producers.deep_view()[q] == producers.deep_view().take(k as int)[q]);
                        crate::strset::lemma_lex_irreflexive(producers.deep_view()[q]);
                        assert(false);
                    }
                    let x = producers.deep_view()[k as int];
                    let a = choose|a: int| 0 <= a < i && #[trigger] ss[a].producer_ids.deep_view().contains(x);
                    assert(pv.to_set().contains(x));
                    assert(ss[i as int].producer_ids.deep_view().contains(x));
                }
                return Err(
                    cat3(
                        "acceptance-impact: producer ",
                        producers[k].as_str(),
                        " is assigned to multiple shards",
                    ),
                );
            }
            k += 1;
        }
        assert(producers.deep_view().take(producers.len() as int) =~= producers.deep_view());
        set_extend(&mut mapped, &shard.ci_jobs);
        proof {
            assert(assigned.deep_view().to_set() =~= producers_of(ss, i + 1)) by {
                assert forall|x: Seq<char>| #[trigger] producers_of(ss, i + 1).contains(x) implies assigned.deep_view().to_set().contains(x) by {
                    let a = choose|a: int| 0 <= a < i + 1 && #[trigger] ss[a].producer_ids.deep_view().contains(x);
                    if a < i {
                        assert(producers_of(ss, i as int).contains(x));
                    } else {
                        assert(pv.to_set().contains(x));
                    }
                }
                assert forall|x: Seq<char>| #[trigger] assigned.deep_view().to_set().contains(x) implies producers_of(ss, i + 1).contains(x) by {
                    if a0.contains(x) {
                        let a = choose|a: int| 0 <= a < i && #[trigger] ss[a].producer_ids.deep_view().contains(x);
                    } else {
                        assert(pv.to_set().contains(x));
                        assert(ss[i as int].producer_ids.deep_view().contains(x));
                    }
                }
            }
            assert(mapped.deep_view().to_set() =~= jobs_of(ss, i + 1)) by {
                assert forall|x: Seq<char>| #[trigger] jobs_of(ss, i + 1).contains(x) implies mapped.deep_view().to_set().contains(x) by {
                    let a = choose|a: int| 0 <= a < i + 1 && #[trigger] ss[a].ci_jobs.deep_view().contains(x);
                    if a < i {
                        assert(jobs_of(ss, i as int).contains(x));
                    } else {
                        assert(ss[i as int].ci_jobs.deep_view().to_set().contains(x));
                    }
                }
                assert forall|x: Seq<char>| #[trigger] mapped.deep_view().to_set().contains(x) implies jobs_of(ss, i + 1).contains(x) by {
                    if jobs_of(ss, i as int).contains(x) {
                        let a = choose|a: int| 0 <= a < i && #[trigger] ss[a].ci_jobs.deep_view().contains(x);
                    } else {
                        assert(ss[i as int].ci_jobs.deep_view().to_set().contains(x));
                        assert(ss[i as int].ci_jobs.deep_view().contains(x));
                    }
                }
            }
            assert forall|a: int, b: int, p: Seq<char>|
                0 <= a < b < i + 1 && #[trigger] ss[a].producer_ids.deep_view().contains(p)
                    implies !#[trigger] ss[b].producer_ids.deep_view().contains(p) by {
                if b == i && ss[b].producer_ids.deep_view().contains(p) {
                    assert(a0.contains(p));
                    assert(pv.to_set().contains(p));
                    assert(producers.deep_view().to_set().contains(p));
                    let q = choose|q: int| 0 <= q < producers.deep_view().len() && producers.deep_view()[q] == p;
                    assert(!a0.contains(producers.deep_view()[q]));
                }
            }
        }
        i += 1;
    }
    if !is_subset(&assigned, producer_ids) || !is_subset(producer_ids, &assigned) {
        proof {
            if producers_of(ss, ss.len() as int) == known {
                assert(assigned.deep_view().to_set() == producer_ids.deep_view().to_set());
            }
        }
        return Err(to_string("acceptance-impact: every acceptance producer must belong to exactly one shard"));
    }
    if !is_subset(&mapped, &required) || !is_subset(&required, &mapped) {
        return Err(to_string("acceptance-impact: source shard CI job mapping is incomplete"));
    }
    assert(assigned.deep_view().to_set() =~= producer_ids.deep_view().to_set());
    assert(mapped.deep_view().to_set() =~= required.deep_view().to_set());
    validate_fixed_base_job_bindings(registry)
}

} // verus!
