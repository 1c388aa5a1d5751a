//! Deterministic shadow-only module and shard planning.
use super::model::{ImpactModule, ImpactProfile, ImpactRegistry, ImpactShard, Isolation};
use crate::acceptance_matrix::model::MatrixRow;
use super::input::PlanArgs;
use crate::text::opt_view;
use super::model::{ImpactPlan, InputFingerprints};
use crate::strset::{
    contains_str_in, lemma_sorted_unique, lemma_to_set_empty, set_difference, set_extend, set_insert, sorted, sorted_set_of,
};
use crate::text::{cat, cat3, eq_str, starts_with, starts_with_str, to_string};
use vstd::prelude::*;

verus! {

/// `path` is one of the module's exact paths.
pub open spec fn exact_owner(m: ImpactModule, path: Seq<char>) -> bool {
    m.exact_paths.deep_view().contains(path)
}

/// `path` starts with one of the module's path prefixes.
pub open spec fn prefix_owner(m: ImpactModule, path: Seq<char>) -> bool {
    exists|k: int|
        0 <= k < m.path_prefixes.deep_view().len() && starts_with(
            path,
            #[trigger] m.path_prefixes.deep_view()[k],
        )
}

/// The first module with `path` as an exact path.
pub open spec fn first_exact(ms: Seq<ImpactModule>, path: Seq<char>) -> Option<int> {
    if exists|i: int|
        0 <= i < ms.len() && exact_owner(ms[i], path) && forall|j: int| 0 <= j < i ==> !exact_owner(#[trigger] ms[j], path) {
        Some(choose|i: int|
            0 <= i < ms.len() && exact_owner(ms[i], path) && forall|j: int|
                0 <= j < i ==> !exact_owner(#[trigger] ms[j], path))
    } else {
        None
    }
}

/// The first module with a prefix of `path`.
pub open spec fn first_prefix(ms: Seq<ImpactModule>, path: Seq<char>) -> Option<int> {
    if exists|i: int|
        0 <= i < ms.len() && prefix_owner(ms[i], path) && forall|j: int| 0 <= j < i ==> !prefix_owner(#[trigger] ms[j], path) {
        Some(choose|i: int|
            0 <= i < ms.len() && prefix_owner(ms[i], path) && forall|j: int|
                0 <= j < i ==> !prefix_owner(#[trigger] ms[j], path))
    } else {
        None
    }
}

/// The module that owns `path`: the first with it as an exact path, else
/// the first with a matching prefix.
pub open spec fn classify_spec(path: Seq<char>, ms: Seq<ImpactModule>) -> Option<int> {
    match first_exact(ms, path) {
        Some(i) => Some(i),
        None => first_prefix(ms, path),
    }
}

proof fn lemma_first_exact(ms: Seq<ImpactModule>, path: Seq<char>, i: int)
    requires
        0 <= i < ms.len(),
        exact_owner(ms[i], path),
        forall|j: int| 0 <= j < i ==> !exact_owner(#[trigger] ms[j], path),
    ensures
        first_exact(ms, path) == Some(i),
{
    let c = choose|c: int|
        0 <= c < ms.len() && exact_owner(ms[c], path) && forall|j: int| 0 <= j < c ==> !exact_owner(#[trigger] ms[j], path);
    if c < i {
        assert(!exact_owner(ms[c], path));
    } else if c > i {
        assert(!exact_owner(ms[i], path));
    }
}

proof fn lemma_first_prefix(ms: Seq<ImpactModule>, path: Seq<char>, i: int)
    requires
        0 <= i < ms.len(),
        prefix_owner(ms[i], path),
        forall|j: int| 0 <= j < i ==> !prefix_owner(#[trigger] ms[j], path),
    ensures
        first_prefix(ms, path) == Some(i),
{
    let c = choose|c: int|
        0 <= c < ms.len() && prefix_owner(ms[c], path) && forall|j: int| 0 <= j < c ==> !prefix_owner(#[trigger] ms[j], path);
    if c < i {
        assert(!prefix_owner(ms[c], path));
    } else if c > i {
        assert(!prefix_owner(ms[i], path));
    }
}

fn owns_exact(m: &ImpactModule, path: &str) -> (r: bool)
    ensures
        r == exact_owner(*m, path@),
{
    contains_str_in(&m.exact_paths, path)
}

fn owns_prefix(m: &ImpactModule, path: &str) -> (r: bool)
    ensures
        r == prefix_owner(*m, path@),
{
    let mut k: usize = 0;
    while k < m.path_prefixes.len()
        invariant
            k <= m.path_prefixes.len(),
            forall|j: int| 0 <= j < k ==> !starts_with(path@, #[trigger] m.path_prefixes.deep_view()[j]),
        decreases m.path_prefixes.len() - k,
    {
        if starts_with_str(path, m.path_prefixes[k].as_str()) {
            assert(m.path_prefixes.deep_view()[k as int] == m.path_prefixes@[k as int]@);
            return true;
        }
        assert(m.path_prefixes.deep_view()[k as int] == m.path_prefixes@[k as int]@);
        k += 1;
    }
    false
}

/// The index of the module that owns `path`, if any.
pub fn classify_path(path: &str, modules: &Vec<ImpactModule>) -> (r: Option<usize>)
    ensures
        match r {
            Some(i) => classify_spec(path@, modules@) == Some(i as int),
            None => classify_spec(path@, modules@) is None,
        },
        forall|k: int|
            0 <= k < modules@.len() && (#[trigger] modules@[k]).exact_paths.deep_view().contains(path@) ==> (r matches Some(i)
                && i <= k && modules@[i as int].exact_paths.deep_view().contains(path@)),
{
    let mut i: usize = 0;
    while i < modules.len()
        invariant
            i <= modules.len(),
            forall|j: int| 0 <= j < i ==> !exact_owner(#[trigger] modules@[j], path@),
        decreases modules.len() - i,
    {
        if owns_exact(&modules[i], path) {
            proof {
                lemma_first_exact(modules@, path@, i as int);
                lemma_classify_exact(path@, modules@);
            }
            return Some(i);
        }
        i += 1;
    }
    assert(first_exact(modules@, path@) is None);
    let mut i: usize = 0;
    while i < modules.len()
        invariant
            i <= modules.len(),
            first_exact(modules@, path@) is None,
            forall|j: int| 0 <= j < i ==> !prefix_owner(#[trigger] modules@[j], path@),
        decreases modules.len() - i,
    {
        if owns_prefix(&modules[i], path) {
            proof {
                lemma_first_prefix(modules@, path@, i as int);
                lemma_classify_exact(path@, modules@);
            }
            return Some(i);
        }
        i += 1;
    }
    assert(first_prefix(modules@, path@) is None);
    proof {
        lemma_classify_exact(path@, modules@);
    }
    None
}

/// Module `consumer` lists `dep` among its dependencies.
pub open spec fn consumer_edge(ms: Seq<ImpactModule>, dep: Seq<char>, consumer: Seq<char>) -> bool {
    exists|i: int|
        0 <= i < ms.len() && #[trigger] ms[i].module_id@ == consumer
            && ms[i].dependencies.deep_view().contains(dep)
}

/// Every consumer of a member is a member.
pub open spec fn closed_under_consumers(t: Set<Seq<char>>, ms: Seq<ImpactModule>) -> bool {
    forall|i: int, d: Seq<char>|
        0 <= i < ms.len() && t.contains(d) && #[trigger] ms[i].dependencies.deep_view().contains(d)
            ==> t.contains(ms[i].module_id@)
}

/// The least set that contains `c` and every consumer of its members.
pub open spec fn reverse_closure_spec(c: Set<Seq<char>>, ms: Seq<ImpactModule>) -> Set<Seq<char>> {
    Set::new(
        |x: Seq<char>|
            forall|t: Set<Seq<char>>| #[trigger]
                c.subset_of(t) && closed_under_consumers(t, ms) ==> t.contains(x),
    )
}

/// How many modules have their id in `s`, among the first `n`.
pub open spec fn count_in(ms: Seq<ImpactModule>, s: Set<Seq<char>>, n: int) -> nat
    decreases n,
{
    if n <= 0 {
        0
    } else {
        count_in(ms, s, n - 1) + if s.contains(ms[n - 1].module_id@) {
            1nat
        } else {
            0nat
        }
    }
}

proof fn lemma_count_in(ms: Seq<ImpactModule>, s1: Set<Seq<char>>, s2: Set<Seq<char>>, n: int)
    requires
        s1.subset_of(s2),
        0 <= n,
    ensures
        count_in(ms, s1, n) <= count_in(ms, s2, n),
        count_in(ms, s2, n) <= n,
        (exists|i: int| 0 <= i < n && s2.contains(#[trigger] ms[i].module_id@) && !s1.contains(ms[i].module_id@))
            ==> count_in(ms, s1, n) < count_in(ms, s2, n),
    decreases n,
{
    if n > 0 {
        lemma_count_in(ms, s1, s2, n - 1);
    }
}

/// The changed modules together with everything that transitively
/// depends on them.
pub fn reverse_closure(changed: &Vec<String>, modules: &Vec<ImpactModule>) -> (r: Vec<String>)
    requires
        sorted(changed.deep_view()),
    ensures
        sorted(r.deep_view()),
        r.deep_view().to_set() == reverse_closure_spec(changed.deep_view().to_set(), modules@),
{
    let ghost c = changed.deep_view().to_set();
    let ghost ms = modules@;
    let mut selected = changed.clone();
    assert(selected.deep_view() == changed.deep_view());
    loop
        invariant
            ms == modules@,
            sorted(selected.deep_view()),
            c.subset_of(selected.deep_view().to_set()),
            forall|t: Set<Seq<char>>|
                c.subset_of(t) && closed_under_consumers(t, ms) ==> selected.deep_view().to_set().subset_of(t),
        ensures
            sorted(selected.deep_view()),
            c.subset_of(selected.deep_view().to_set()),
            forall|t: Set<Seq<char>>|
                c.subset_of(t) && closed_under_consumers(t, ms) ==> selected.deep_view().to_set().subset_of(t),
            closed_under_consumers(selected.deep_view().to_set(), ms),
        decreases ms.len() - count_in(ms, selected.deep_view().to_set(), ms.len() as int),
    {
        let ghost s0 = selected.deep_view().to_set();
        let mut grew = false;
        let mut i: usize = 0;
        while i < modules.len()
            invariant
                ms == modules@,
                i <= modules.len(),
                sorted(selected.deep_view()),
                c.subset_of(selected.deep_view().to_set()),
                s0.subset_of(selected.deep_view().to_set()),
                forall|t: Set<Seq<char>>|
                    c.subset_of(t) && closed_under_consumers(t, ms) ==> selected.deep_view().to_set().subset_of(t),
                !grew ==> selected.deep_view().to_set() == s0,
                grew ==> exists|j: int|
                    0 <= j < i && selected.deep_view().to_set().contains(#[trigger] ms[j].module_id@)
                        && !s0.contains(ms[j].module_id@),
                !grew ==> forall|j: int, d: Seq<char>|
                    0 <= j < i && s0.contains(d) && #[trigger] ms[j].dependencies.deep_view().contains(d)
                        ==> s0.contains(ms[j].module_id@),
            decreases modules.len() - i,
        {
            let m = &modules[i];
            let mut k: usize = 0;
            let mut hit = false;
            while k < m.dependencies.len()
                invariant
                    k <= m.dependencies.len(),
                    hit ==> exists|d: Seq<char>|
                        selected.deep_view().contains(d) && m.dependencies.deep_view().contains(d),
                    !hit ==> forall|j: int|
                        0 <= j < k ==> !selected.deep_view().contains(#[trigger] m.dependencies.deep_view()[j]),
                decreases m.dependencies.len() - k,
            {
                assert(m.dependencies.deep_view()[k as int] == m.dependencies@[k as int]@);
                if contains_str_in(&selected, m.dependencies[k].as_str()) {
                    assert(m.dependencies.deep_view().contains(m.dependencies.deep_view()[k as int]));
                    hit = true;
                }
                k += 1;
            }
            if hit {
                let ghost before = selected.deep_view().to_set();
                let id = m.module_id.clone();
                proof {
                    let d = choose|d: Seq<char>|
                        selected.deep_view().contains(d) && m.dependencies.deep_view().contains(d);
                    assert(before.contains(d));
                    assert forall|t: Set<Seq<char>>|
                        c.subset_of(t) && closed_under_consumers(t, ms) implies t.contains(id@) by {
                        assert(before.subset_of(t));
                        assert(t.contains(d));
                        assert(ms[i as int].dependencies.deep_view().contains(d));
                    }
                }
                if set_insert(&mut selected, id) {
                    grew = true;
                    assert(selected.deep_view().to_set().contains(ms[i as int].module_id@));
                    assert(!before.contains(ms[i as int].module_id@));
                    proof {
                        if !s0.contains(ms[i as int].module_id@) {
                        } else {
                            assert(false);
                        }
                    }
                }
            } else {
                proof {
                    assert forall|d: Seq<char>|
                        s0.contains(d) && #[trigger] ms[i as int].dependencies.deep_view().contains(d)
                            && !grew implies s0.contains(ms[i as int].module_id@) by {
                        {
                            let j = choose|j: int|
                                0 <= j < m.dependencies.deep_view().len() && m.dependencies.deep_view()[j] == d;
                            assert(selected.deep_view().to_set() == s0);
                            assert(selected.deep_view().contains(d));
                        }
                    }
                }
            }
            i += 1;
        }
        proof {
            lemma_count_in(ms, s0, selected.deep_view().to_set(), ms.len() as int);
        }
        if !grew {
            assert(closed_under_consumers(selected.deep_view().to_set(), ms));
            break;
        }
    }
    proof {
        let r = selected.deep_view().to_set();
        assert(closed_under_consumers(r, ms));
        assert(r =~= reverse_closure_spec(c, ms)) by {
            assert forall|x: Seq<char>| r.contains(x) implies reverse_closure_spec(c, ms).contains(x) by {}
            assert forall|x: Seq<char>| reverse_closure_spec(c, ms).contains(x) implies r.contains(x) by {
                assert(c.subset_of(r) && closed_under_consumers(r, ms));
            }
        }
    }
    selected
}

/// The first profile with the given id.
pub open spec fn profile_index(ps: Seq<ImpactProfile>, id: Seq<char>) -> Option<int> {
    if exists|i: int|
        0 <= i < ps.len() && ps[i].profile_id@ == id && forall|j: int| 0 <= j < i ==> #[trigger] ps[j].profile_id@ != id {
        Some(choose|i: int|
            0 <= i < ps.len() && ps[i].profile_id@ == id && forall|j: int|
                0 <= j < i ==> #[trigger] ps[j].profile_id@ != id)
    } else {
        None
    }
}

/// The last shard with the given id (later entries shadow earlier ones).
pub open spec fn shard_index(ss: Seq<ImpactShard>, id: Seq<char>) -> Option<int> {
    if exists|i: int|
        0 <= i < ss.len() && ss[i].shard_id@ == id && forall|j: int| i < j < ss.len() ==> #[trigger] ss[j].shard_id@ != id {
        Some(choose|i: int|
            0 <= i < ss.len() && ss[i].shard_id@ == id && forall|j: int|
                i < j < ss.len() ==> #[trigger] ss[j].shard_id@ != id)
    } else {
        None
    }
}

/// The last module with the given id.
pub open spec fn module_index(ms: Seq<ImpactModule>, id: Seq<char>) -> Option<int> {
    if exists|i: int|
        0 <= i < ms.len() && ms[i].module_id@ == id && forall|j: int| i < j < ms.len() ==> #[trigger] ms[j].module_id@ != id {
        Some(choose|i: int|
            0 <= i < ms.len() && ms[i].module_id@ == id && forall|j: int|
                i < j < ms.len() ==> #[trigger] ms[j].module_id@ != id)
    } else {
        None
    }
}

pub open spec fn shard_ids(ss: Seq<ImpactShard>) -> Set<Seq<char>> {
    Set::new(|id: Seq<char>| exists|i: int| 0 <= i < ss.len() && #[trigger] ss[i].shard_id@ == id)
}

pub open spec fn module_ids(ms: Seq<ImpactModule>) -> Set<Seq<char>> {
    Set::new(|id: Seq<char>| exists|i: int| 0 <= i < ms.len() && #[trigger] ms[i].module_id@ == id)
}

/// The id of the module that owns `path`.
pub open spec fn owner_id(path: Seq<char>, ms: Seq<ImpactModule>) -> Option<Seq<char>> {
    match classify_spec(path, ms) {
        Some(i) => Some(ms[i].module_id@),
        None => None,
    }
}

/// Why a changed path forces a full plan, if it does.
pub open spec fn path_reason(path: Seq<char>, ms: Seq<ImpactModule>) -> Option<Seq<char>> {
    match classify_spec(path, ms) {
        None => Some("unknown-path:"@ + path),
        Some(i) => if ms[i].full_trigger {
            Some("full-trigger:"@ + ms[i].module_id@)
        } else {
            None
        },
    }
}

pub open spec fn changed_modules_spec(files: Set<Seq<char>>, ms: Seq<ImpactModule>) -> Set<Seq<char>> {
    Set::new(|id: Seq<char>| exists|path: Seq<char>| files.contains(path) && #[trigger] owner_id(path, ms) == Some(id))
}

/// A changed path is unowned or owned by a full-trigger module.
pub open spec fn escalates_spec(files: Set<Seq<char>>, ms: Seq<ImpactModule>) -> bool {
    exists|path: Seq<char>| files.contains(path) && #[trigger] path_reason(path, ms) is Some
}

pub open spec fn full_reasons_spec(files: Set<Seq<char>>, ms: Seq<ImpactModule>, p: ImpactProfile) -> Set<Seq<char>> {
    Set::new(
        |r: Seq<char>|
            (exists|path: Seq<char>| files.contains(path) && #[trigger] path_reason(path, ms) == Some(r))
                || (p.selection@ == "full"@ && r == "profile-full:"@ + p.profile_id@),
    )
}

pub open spec fn is_full(files: Set<Seq<char>>, ms: Seq<ImpactModule>, p: ImpactProfile) -> bool {
    escalates_spec(files, ms) || p.selection@ == "full"@
}

/// The module with id `id` lists shard `s`.
pub open spec fn module_has_shard(ms: Seq<ImpactModule>, id: Seq<char>, s: Seq<char>) -> bool {
    match module_index(ms, id) {
        Some(i) => ms[i].shards.deep_view().contains(s),
        None => false,
    }
}

/// A shard's producers (field 0), checks (field 1) or artifact inputs
/// (field 2).
pub open spec fn shard_field(sh: ImpactShard, field: int) -> Seq<Seq<char>> {
    if field == 0 {
        sh.producer_ids.deep_view()
    } else if field == 1 {
        sh.checks.deep_view()
    } else {
        sh.artifact_inputs.deep_view()
    }
}

/// The shard with id `s` lists `x` in the given field.
pub open spec fn shard_has(ss: Seq<ImpactShard>, s: Seq<char>, field: int, x: Seq<char>) -> bool {
    match shard_index(ss, s) {
        Some(i) => shard_field(ss[i], field).contains(x),
        None => false,
    }
}

/// The catalog entry of `producer` lists evidence `e`.
pub open spec fn catalog_has(ev: Seq<(String, Vec<String>)>, producer: Seq<char>, e: Seq<char>) -> bool {
    match catalog_index(ev, producer) {
        Some(i) => ev[i].1.deep_view().contains(e),
        None => false,
    }
}

pub open spec fn selected_shards_spec(
    files: Set<Seq<char>>,
    reg: ImpactRegistry,
    p: ImpactProfile,
) -> Set<Seq<char>> {
    let ms = reg.modules@;
    if is_full(files, ms, p) {
        if p.selection@ == "selective"@ || escalates_spec(files, ms) {
            shard_ids(reg.shards@)
        } else {
            p.shards.deep_view().to_set()
        }
    } else {
        let closure = reverse_closure_spec(changed_modules_spec(files, ms), ms);
        p.always_shards.deep_view().to_set() + module_shards_in(p.shards.deep_view(), ms, closure)
    }
}

/// Members of the given list field of the selected shards.
pub open spec fn shard_union(ss: Seq<ImpactShard>, selected: Set<Seq<char>>, field: int) -> Set<Seq<char>> {
    Set::new(
        |x: Seq<char>|
            exists|s: Seq<char>| selected.contains(s) && #[trigger] shard_has(ss, s, field, x),
    )
}

/// The first catalog entry for a producer.
/// The producer catalog is a map: no producer appears twice.
pub open spec fn catalog_keys_unique(ev: Seq<(String, Vec<String>)>) -> bool {
    forall|i: int, j: int| 0 <= i < j < ev.len() ==> (#[trigger] ev[i]).0@ != (#[trigger] ev[j]).0@
}

pub open spec fn catalog_index(ev: Seq<(String, Vec<String>)>, producer: Seq<char>) -> Option<int> {
    if exists|i: int|
        0 <= i < ev.len() && ev[i].0@ == producer && forall|j: int| 0 <= j < i ==> #[trigger] ev[j].0@ != producer {
        Some(choose|i: int|
            0 <= i < ev.len() && ev[i].0@ == producer && forall|j: int|
                0 <= j < i ==> #[trigger] ev[j].0@ != producer)
    } else {
        None
    }
}

pub open spec fn evidence_spec(ev: Seq<(String, Vec<String>)>, producers: Set<Seq<char>>) -> Set<Seq<char>> {
    Set::new(
        |e: Seq<char>|
            exists|x: Seq<char>| producers.contains(x) && #[trigger] catalog_has(ev, x, e),
    )
}

pub open spec fn cases_spec(rows: Seq<MatrixRow>, evidence: Set<Seq<char>>) -> Set<Seq<char>> {
    Set::new(
        |c: Seq<char>|
            exists|i: int|
                0 <= i < rows.len() && #[trigger] rows[i].case_id@ == c && c != "none"@
                    && evidence.contains(rows[i].evidence_id@),
    )
}

/// Every shard the profile may name exists in the registry.
/// Every shard a plan over `files` would select is registered. (An empty
/// change set under a selective profile is refused before any shard is
/// selected.)
pub open spec fn selected_shards_known(reg: ImpactRegistry, files: Set<Seq<char>>, p: ImpactProfile) -> bool {
    !(p.selection@ == "selective"@ && files == Set::<Seq<char>>::empty()) ==> selected_shards_spec(files, reg, p).subset_of(
        shard_ids(reg.shards@),
    )
}

fn find_profile(ps: &Vec<ImpactProfile>, id: &str) -> (r: Option<usize>)
    ensures
        match r {
            Some(i) => profile_index(ps@, id@) == Some(i as int),
            None => profile_index(ps@, id@) is None,
        },
{
    let mut i: usize = 0;
    while i < ps.len()
        invariant
            i <= ps.len(),
            forall|j: int| 0 <= j < i ==> #[trigger] ps@[j].profile_id@ != id@,
        decreases ps.len() - i,
    {
        if eq_str(ps[i].profile_id.as_str(), id) {
            proof {
                let c = choose|c: int|
                    0 <= c < ps@.len() && ps@[c].profile_id@ == id@ && forall|j: int|
                        0 <= j < c ==> #[trigger] ps@[j].profile_id@ != id@;
                if c < i {
                    assert(ps@[c].profile_id@ != id@);
                } else if c > i {
                    assert(ps@[i as int].profile_id@ != id@);
                }
            }
            return Some(i);
        }
        i += 1;
    }
    None
}

/// The last shard with id `id`, if any.
pub fn find_shard(ss: &Vec<ImpactShard>, id: &str) -> (r: Option<usize>)
    ensures
        match r {
            Some(i) => shard_index(ss@, id@) == Some(i as int) && i < ss.len(),
            None => shard_index(ss@, id@) is None && !shard_ids(ss@).contains(id@),
        },
{
    let mut i: usize = ss.len();
    while i > 0
        invariant
            i <= ss.len(),
            forall|j: int| i <= j < ss.len() ==> #[trigger] ss@[j].shard_id@ != id@,
        decreases i,
    {
        i -= 1;
        if eq_str(ss[i].shard_id.as_str(), id) {
            proof {
                let c = choose|c: int|
                    0 <= c < ss@.len() && ss@[c].shard_id@ == id@ && forall|j: int|
                        c < j < ss@.len() ==> #[trigger] ss@[j].shard_id@ != id@;
                if c < i {
                    assert(ss@[i as int].shard_id@ != id@);
                } else if c > i {
                    assert(ss@[c].shard_id@ != id@);
                }
            }
            return Some(i);
        }
    }
    None
}

/// The last module with id `id`, if any.
pub fn find_module(ms: &Vec<ImpactModule>, id: &str) -> (r: Option<usize>)
    ensures
        match r {
            Some(i) => module_index(ms@, id@) == Some(i as int) && i < ms.len(),
            None => module_index(ms@, id@) is None && !module_ids(ms@).contains(id@),
        },
{
    let mut i: usize = ms.len();
    while i > 0
        invariant
            i <= ms.len(),
            forall|j: int| i <= j < ms.len() ==> #[trigger] ms@[j].module_id@ != id@,
        decreases i,
    {
        i -= 1;
        if eq_str(ms[i].module_id.as_str(), id) {
            proof {
                let c = choose|c: int|
                    0 <= c < ms@.len() && ms@[c].module_id@ == id@ && forall|j: int|
                        c < j < ms@.len() ==> #[trigger] ms@[j].module_id@ != id@;
                if c < i {
                    assert(ms@[i as int].module_id@ != id@);
                } else if c > i {
                    assert(ms@[c].module_id@ != id@);
                }
            }
            return Some(i);
        }
    }
    None
}

fn find_catalog(ev: &Vec<(String, Vec<String>)>, id: &str) -> (r: Option<usize>)
    ensures
        match r {
            Some(i) => catalog_index(ev@, id@) == Some(i as int) && i < ev.len(),
            None => catalog_index(ev@, id@) is None,
        },
{
    let mut i: usize = 0;
    while i < ev.len()
        invariant
            i <= ev.len(),
            forall|j: int| 0 <= j < i ==> #[trigger] ev@[j].0@ != id@,
        decreases ev.len() - i,
    {
        if eq_str(ev[i].0.as_str(), id) {
            proof {
                let c = choose|c: int|
                    0 <= c < ev@.len() && ev@[c].0@ == id@ && forall|j: int|
                        0 <= j < c ==> #[trigger] ev@[j].0@ != id@;
                if c < i {
                    assert(ev@[c].0@ != id@);
                } else if c > i {
                    assert(ev@[i as int].0@ != id@);
                }
            }
            return Some(i);
        }
        i += 1;
    }
    None
}

pub open spec fn path_reasons(files: Set<Seq<char>>, ms: Seq<ImpactModule>) -> Set<Seq<char>> {
    Set::new(|r: Seq<char>| exists|path: Seq<char>| files.contains(path) && #[trigger] path_reason(path, ms) == Some(r))
}

/// The owners of the changed paths, the reasons some of them force a full
/// plan, and whether any does.
fn classify_changes(files: &Vec<String>, ms: &Vec<ImpactModule>) -> (r: (Vec<String>, Vec<String>, bool))
    ensures
        sorted(r.0.deep_view()),
        r.0.deep_view().to_set() == changed_modules_spec(files.deep_view().to_set(), ms@),
        sorted(r.1.deep_view()),
        r.1.deep_view().to_set() == path_reasons(files.deep_view().to_set(), ms@),
        r.2 == escalates_spec(files.deep_view().to_set(), ms@),
{
    let ghost fs = files.deep_view();
    let mut changed: Vec<String> = Vec::new();
    let mut reasons: Vec<String> = Vec::new();
    let mut escalates = false;
    let mut i: usize = 0;
    proof {
        reveal_strlit("unknown-path:");
        reveal_strlit("full-trigger:");
    }
    assert(changed_modules_spec(fs.take(0).to_set(), ms@) =~= Set::empty());
    assert(path_reasons(fs.take(0).to_set(), ms@) =~= Set::empty());
    while i < files.len()
        invariant
            fs == files.deep_view(),
            i <= files.len(),
            sorted(changed.deep_view()),
            sorted(reasons.deep_view()),
            changed.deep_view().to_set() == changed_modules_spec(fs.take(i as int).to_set(), ms@),
            reasons.deep_view().to_set() == path_reasons(fs.take(i as int).to_set(), ms@),
            escalates == escalates_spec(fs.take(i as int).to_set(), ms@),
        decreases files.len() - i,
    {
        let path = files[i].as_str();
        let ghost p = path@;
        assert(fs[i as int] == p);
        let ghost f0 = fs.take(i as int).to_set();
        assert(fs.take(i + 1) =~= fs.take(i as int).push(p));
        proof {
            fs.take(i as int).lemma_push_to_set_commute(p);
        }
        let ghost f1 = f0.insert(p);
        assert(fs.take(i + 1).to_set() == f1);
        let ghost c0 = changed.deep_view().to_set();
        let ghost r0 = reasons.deep_view().to_set();
        match classify_path(path, ms) {
            Some(k) => {
                let m = &ms[k];
                set_insert(&mut changed, m.module_id.clone());
                assert(owner_id(p, ms@) == Some(m.module_id@));
                if m.full_trigger {
                    let reason = cat("full-trigger:", m.module_id.as_str());
                    set_insert(&mut reasons, reason);
                    escalates = true;
                    assert(path_reason(p, ms@) == Some(reason@));
                    assert(reasons.deep_view().to_set() =~= path_reasons(f1, ms@));
                } else {
                    assert(path_reason(p, ms@) is None);
                    assert(reasons.deep_view().to_set() =~= path_reasons(f1, ms@));
                    assert(escalates == escalates_spec(f1, ms@));
                }
                assert(changed.deep_view().to_set() =~= changed_modules_spec(f1, ms@));
            },
            None => {
                let reason = cat("unknown-path:", path);
                set_insert(&mut reasons, reason);
                escalates = true;
                assert(owner_id(p, ms@) is None);
                assert(path_reason(p, ms@) == Some(reason@));
                assert(reasons.deep_view().to_set() =~= path_reasons(f1, ms@));
                assert(changed.deep_view().to_set() =~= changed_modules_spec(f1, ms@));
            },
        }
        i += 1;
    }
    assert(fs.take(files.len() as int) =~= fs);
    (changed, reasons, escalates)
}

/// Some selected shard is a runtime shard.
pub open spec fn runtime_selected(ss: Seq<ImpactShard>, selected: Set<Seq<char>>) -> bool {
    exists|s: Seq<char>| selected.contains(s) && #[trigger] shard_layer_is_runtime(ss, s)
}

pub open spec fn shard_layer_is_runtime(ss: Seq<ImpactShard>, s: Seq<char>) -> bool {
    match shard_index(ss, s) {
        Some(i) => ss[i].layer@ == "runtime"@,
        None => false,
    }
}

/// Eligible shards of the modules with ids in `ids`.
pub open spec fn module_shards_in(eligible: Seq<Seq<char>>, ms: Seq<ImpactModule>, ids: Set<Seq<char>>) -> Set<Seq<char>> {
    Set::new(
        |s: Seq<char>|
            eligible.contains(s) && exists|id: Seq<char>| ids.contains(id) && #[trigger] module_has_shard(ms, id, s),
    )
}

/// The shards a plan selects, given whether it is full, whether a changed
/// path escalated it, and the modules it selects.
fn select_shards(
    reg: &ImpactRegistry,
    p: &ImpactProfile,
    full: bool,
    escalates: bool,
    closure: &Vec<String>,
) -> (r: Vec<String>)
    ensures
        sorted(r.deep_view()),
        r.deep_view().to_set() == (if full {
            if p.selection@ == "selective"@ || escalates {
                shard_ids(reg.shards@)
            } else {
                p.shards.deep_view().to_set()
            }
        } else {
            p.always_shards.deep_view().to_set() + module_shards_in(
                p.shards.deep_view(),
                reg.modules@,
                closure.deep_view().to_set(),
            )
        }),
{
    let ghost ms = reg.modules@;
    let ghost ss = reg.shards@;
    if full {
        if eq_str(p.selection.as_str(), "selective") || escalates {
            let mut r: Vec<String> = Vec::new();
            let mut i: usize = 0;
            while i < reg.shards.len()
                invariant
                    ss == reg.shards@,
                    i <= ss.len(),
                    sorted(r.deep_view()),
                    r.deep_view().to_set() == Set::new(
                        |id: Seq<char>| exists|j: int| 0 <= j < i && #[trigger] ss[j].shard_id@ == id,
                    ),
                decreases ss.len() - i,
            {
                let ghost r0 = r.deep_view().to_set();
                set_insert(&mut r, reg.shards[i].shard_id.clone());
                assert(r.deep_view().to_set() =~= Set::new(
                    |id: Seq<char>| exists|j: int| 0 <= j < i + 1 && #[trigger] ss[j].shard_id@ == id,
                ));
                i += 1;
            }
            assert(r.deep_view().to_set() =~= shard_ids(ss));
            r
        } else {
            sorted_set_of(&p.shards)
        }
    } else {
        let mut r = sorted_set_of(&p.always_shards);
        let ghost cl = closure.deep_view();
        assert(module_shards_in(p.shards.deep_view(), ms, cl.take(0).to_set()) =~= Set::empty());
        assert(p.always_shards.deep_view().to_set() + module_shards_in(p.shards.deep_view(), ms, cl.take(0).to_set()) =~= p.always_shards.deep_view().to_set());
        let mut i: usize = 0;
        while i < closure.len()
            invariant
                ms == reg.modules@,
                cl == closure.deep_view(),
                i <= closure.len(),
                sorted(r.deep_view()),
                r.deep_view().to_set() == p.always_shards.deep_view().to_set() + module_shards_in(p.shards.deep_view(), ms, cl.take(i as int).to_set()),
            decreases closure.len() - i,
        {
            let id = closure[i].as_str();
            assert(cl[i as int] == id@);
            assert(cl.take(i + 1) =~= cl.take(i as int).push(id@));
            proof {
                cl.take(i as int).lemma_push_to_set_commute(id@);
            }
            assert(cl.take(i + 1).to_set() == cl.take(i as int).to_set().insert(id@));
            let ghost r0 = r.deep_view().to_set();
            match find_module(&reg.modules, id) {
                Some(k) => {
                    let m = &reg.modules[k];
                    let mut j: usize = 0;
                    while j < m.shards.len()
                        invariant
                            ms == reg.modules@,
                            j <= m.shards.len(),
                            module_index(ms, id@) == Some(k as int),
                            k < ms.len(),
                            *m == ms[k as int],
                            sorted(r.deep_view()),
                            r.deep_view().to_set() == r0 + Set::new(
                                |s: Seq<char>|
                                    p.shards.deep_view().contains(s) && m.shards.deep_view().take(
                                        j as int,
                                    ).contains(s),
                            ),
                        decreases m.shards.len() - j,
                    {
                        let s = m.shards[j].as_str();
                        assert(m.shards.deep_view()[j as int] == s@);
                        assert(m.shards.deep_view().take(j + 1) =~= m.shards.deep_view().take(
                            j as int,
                        ).push(s@));
                        let ghost r1 = r.deep_view().to_set();
                        let eligible = contains_str_in(&p.shards, s);
                        if eligible {
                            set_insert(&mut r, m.shards[j].clone());
                        }
                        assert forall|x: Seq<char>|
                            m.shards.deep_view().take(j + 1).contains(x) <==> (m.shards.deep_view().take(
                                j as int,
                            ).contains(x) || x == s@) by {
                            if m.shards.deep_view().take(j + 1).contains(x) {
                                let q = choose|q: int|
                                    0 <= q < j + 1 && #[trigger] m.shards.deep_view().take(j + 1)[q] == x;
                                if q < j {
                                    assert(m.shards.deep_view().take(j as int)[q] == x);
                                }
                            }
                            if m.shards.deep_view().take(j as int).contains(x) {
                                let q = choose|q: int|
                                    0 <= q < j && #[trigger] m.shards.deep_view().take(j as int)[q] == x;
                                assert(m.shards.deep_view().take(j + 1)[q] == x);
                            }
                            if x == s@ {
                                assert(m.shards.deep_view().take(j + 1)[j as int] == x);
                            }
                        }
                        assert(eligible == p.shards.deep_view().contains(s@));
                        assert forall|x: Seq<char>|
                            r.deep_view().to_set().contains(x) <==> (r0.contains(x) || (
                            p.shards.deep_view().contains(x) && m.shards.deep_view().take(
                                j + 1,
                            ).contains(x))) by {
                            assert(r1.contains(x) <==> (r0.contains(x) || (p.shards.deep_view().contains(x)
                                && m.shards.deep_view().take(j as int).contains(x))));
                        }
                        assert(r.deep_view().to_set() =~= r0 + Set::new(
                            |s: Seq<char>|
                                p.shards.deep_view().contains(s) && m.shards.deep_view().take(
                                    j + 1,
                                ).contains(s),
                        ));
                        j += 1;
                    }
                    assert(m.shards.deep_view().take(m.shards.len() as int) =~= m.shards.deep_view());
                    assert forall|x: Seq<char>|
                        module_shards_in(p.shards.deep_view(), ms, cl.take(i + 1).to_set()).contains(x) <==> (module_shards_in(p.shards.deep_view(), ms, cl.take(i as int).to_set()).contains(x) || (
                        p.shards.deep_view().contains(x) && m.shards.deep_view().contains(x))) by {
                        if module_shards_in(p.shards.deep_view(), ms, cl.take(i + 1).to_set()).contains(x) {
                            let id2 = choose|id2: Seq<char>|
                                cl.take(i + 1).to_set().contains(id2) && #[trigger] module_has_shard(ms, id2, x);
                            if id2 != id@ {
                                assert(cl.take(i as int).to_set().contains(id2));
                            }
                        }
                        if p.shards.deep_view().contains(x) && m.shards.deep_view().contains(x) {
                            assert(module_has_shard(ms, id@, x));
                            assert(cl.take(i + 1).to_set().contains(id@));
                        }
                        if module_shards_in(p.shards.deep_view(), ms, cl.take(i as int).to_set()).contains(x) {
                            let id2 = choose|id2: Seq<char>|
                                cl.take(i as int).to_set().contains(id2) && #[trigger] module_has_shard(ms, id2, x);
                            assert(cl.take(i + 1).to_set().contains(id2));
                        }
                    }
                    assert(r.deep_view().to_set() =~= p.always_shards.deep_view().to_set() + module_shards_in(p.shards.deep_view(), ms, cl.take(i + 1).to_set()));
                },
                None => {
                    assert(!module_ids(ms).contains(id@));
                    assert forall|x: Seq<char>| #[trigger] module_shards_in(p.shards.deep_view(), ms, cl.take(i + 1).to_set()).contains(x) implies module_shards_in(p.shards.deep_view(), ms, cl.take(i as int).to_set()).contains(x) by {
                        let id2 = choose|id2: Seq<char>|
                            cl.take(i + 1).to_set().contains(id2) && #[trigger] module_has_shard(ms, id2, x);
                        if id2 != id@ {
                            assert(cl.take(i as int).to_set().contains(id2));
                        }
                    }
                    assert forall|x: Seq<char>| #[trigger] module_shards_in(p.shards.deep_view(), ms, cl.take(i as int).to_set()).contains(x) implies module_shards_in(p.shards.deep_view(), ms, cl.take(i + 1).to_set()).contains(x) by {
                        let id2 = choose|id2: Seq<char>|
                            cl.take(i as int).to_set().contains(id2) && #[trigger] module_has_shard(ms, id2, x);
                        assert(cl.take(i + 1).to_set().contains(id2));
                    }
                    assert(r.deep_view().to_set() =~= p.always_shards.deep_view().to_set() + module_shards_in(p.shards.deep_view(), ms, cl.take(i + 1).to_set()));
                },
            }
            i += 1;
        }
        assert(cl.take(closure.len() as int) =~= cl);
        r
    }
}

pub open spec fn isolation_matches(ss: Seq<ImpactShard>, id: Seq<char>, iso: Isolation) -> bool {
    match shard_index(ss, id) {
        Some(j) => iso == ss[j].isolation,
        None => false,
    }
}

proof fn lemma_shard_union_step(ss: Seq<ImpactShard>, sel: Seq<Seq<char>>, i: int, field: int, k: int)
    requires
        0 <= i < sel.len(),
        shard_index(ss, sel[i]) == Some(k),
    ensures
        shard_union(ss, sel.take(i + 1).to_set(), field) == shard_union(ss, sel.take(i).to_set(), field)
            + shard_field(ss[k], field).to_set(),
{
    assert(sel.take(i + 1) =~= sel.take(i).push(sel[i]));
    sel.take(i).lemma_push_to_set_commute(sel[i]);
    let a = shard_union(ss, sel.take(i + 1).to_set(), field);
    let b = shard_union(ss, sel.take(i).to_set(), field) + shard_field(ss[k], field).to_set();
    assert forall|x: Seq<char>| a.contains(x) implies b.contains(x) by {
        let s = choose|s: Seq<char>| sel.take(i + 1).to_set().contains(s) && #[trigger] shard_has(ss, s, field, x);
        if s != sel[i] {
            assert(sel.take(i).to_set().contains(s));
        } else {
            assert(shard_field(ss[k], field).contains(x));
        }
    }
    assert forall|x: Seq<char>| b.contains(x) implies a.contains(x) by {
        if shard_union(ss, sel.take(i).to_set(), field).contains(x) {
            let s = choose|s: Seq<char>| sel.take(i).to_set().contains(s) && #[trigger] shard_has(ss, s, field, x);
            assert(sel.take(i + 1).to_set().contains(s));
        } else {
            assert(shard_has(ss, sel[i], field, x));
            assert(sel.take(i + 1).to_set().contains(sel[i]));
        }
    }
    assert(a =~= b);
}

/// Producers, checks, artifact inputs, isolation and runtime presence of
/// the selected shards.
fn aggregate_shards(ss: &Vec<ImpactShard>, selected: &Vec<String>) -> (r: (
    Vec<String>,
    Vec<String>,
    Vec<String>,
    Vec<(String, Isolation)>,
    bool,
))
    requires
        selected.deep_view().to_set().subset_of(shard_ids(ss@)),
    ensures
        sorted(r.0.deep_view()),
        sorted(r.1.deep_view()),
        sorted(r.2.deep_view()),
        r.0.deep_view().to_set() == shard_union(ss@, selected.deep_view().to_set(), 0),
        r.1.deep_view().to_set() == shard_union(ss@, selected.deep_view().to_set(), 1),
        r.2.deep_view().to_set() == shard_union(ss@, selected.deep_view().to_set(), 2),
        r.3@.len() == selected@.len(),
        forall|k: int|
            #![trigger r.3@[k]]
            0 <= k < selected@.len() ==> r.3@[k].0@ == selected.deep_view()[k] && isolation_matches(
                ss@,
                selected.deep_view()[k],
                r.3@[k].1,
            ),
        r.4 == runtime_selected(ss@, selected.deep_view().to_set()),
{
    let ghost sel = selected.deep_view();
    let mut producers: Vec<String> = Vec::new();
    let mut checks: Vec<String> = Vec::new();
    let mut artifacts: Vec<String> = Vec::new();
    let mut isolation: Vec<(String, Isolation)> = Vec::new();
    let mut runtime = false;
    let mut i: usize = 0;
    assert(sel.take(0).to_set() =~= Set::empty());
    assert(shard_union(ss@, Set::empty(), 0) =~= Set::empty());
    assert(shard_union(ss@, Set::empty(), 1) =~= Set::empty());
    assert(shard_union(ss@, Set::empty(), 2) =~= Set::empty());
    while i < selected.len()
        invariant
            sel == selected.deep_view(),
            sel.to_set().subset_of(shard_ids(ss@)),
            i <= selected.len(),
            sorted(producers.deep_view()),
            sorted(checks.deep_view()),
            sorted(artifacts.deep_view()),
            producers.deep_view().to_set() == shard_union(ss@, sel.take(i as int).to_set(), 0),
            checks.deep_view().to_set() == shard_union(ss@, sel.take(i as int).to_set(), 1),
            artifacts.deep_view().to_set() == shard_union(ss@, sel.take(i as int).to_set(), 2),
            isolation@.len() == i,
            forall|k: int|
                #![trigger isolation@[k]]
                0 <= k < i ==> isolation@[k].0@ == sel[k] && isolation_matches(ss@, sel[k], isolation@[k].1),
            runtime == runtime_selected(ss@, sel.take(i as int).to_set()),
        decreases selected.len() - i,
    {
        let id = selected[i].as_str();
        assert(sel[i as int] == id@);
        assert(sel.to_set().contains(id@));
        let k = match find_shard(ss, id) {
            Some(k) => k,
            None => {
                assert(false);
                0
            },
        };
        let sh = &ss[k];
        proof {
            lemma_shard_union_step(ss@, sel, i as int, 0, k as int);
            lemma_shard_union_step(ss@, sel, i as int, 1, k as int);
            lemma_shard_union_step(ss@, sel, i as int, 2, k as int);
        }
        set_extend(&mut producers, &sh.producer_ids);
        set_extend(&mut checks, &sh.checks);
        set_extend(&mut artifacts, &sh.artifact_inputs);
        let ghost iso0 = isolation@;
        isolation.push((selected[i].clone(), sh.isolation.duplicate()));
        assert(shard_index(ss@, sel[i as int]) == Some(k as int));
        assert(isolation@[i as int].0@ == sel[i as int]);
        assert(isolation@[i as int].1 == ss@[k as int].isolation);
        assert(isolation_matches(ss@, sel[i as int], isolation@[i as int].1));
        assert forall|q: int|
            #![trigger isolation@[q]]
            0 <= q < i + 1 implies isolation@[q].0@ == sel[q] && isolation_matches(ss@, sel[q], isolation@[q].1) by {
            if q < i {
                assert(isolation@[q] == iso0[q]);
            }
        }
        let is_runtime = eq_str(sh.layer.as_str(), "runtime");
        proof {
            assert(sel.take(i + 1) =~= sel.take(i as int).push(sel[i as int]));
            sel.take(i as int).lemma_push_to_set_commute(sel[i as int]);
            assert(shard_layer_is_runtime(ss@, id@) == is_runtime);
            if runtime_selected(ss@, sel.take(i + 1).to_set()) {
                let s = choose|s: Seq<char>|
                    sel.take(i + 1).to_set().contains(s) && #[trigger] shard_layer_is_runtime(ss@, s);
                if s != id@ {
                    assert(sel.take(i as int).to_set().contains(s));
                }
            }
            if runtime_selected(ss@, sel.take(i as int).to_set()) {
                let s = choose|s: Seq<char>|
                    sel.take(i as int).to_set().contains(s) && #[trigger] shard_layer_is_runtime(ss@, s);
                assert(sel.take(i + 1).to_set().contains(s));
            }
            if is_runtime {
                assert(sel.take(i + 1).to_set().contains(id@));
            }
        }
        runtime = runtime || is_runtime;
        i += 1;
    }
    assert(sel.take(selected.len() as int) =~= sel);
    (producers, checks, artifacts, isolation, runtime)
}

/// The evidence of the selected producers; fails when one has no catalog.
fn collect_evidence(ev: &Vec<(String, Vec<String>)>, producers: &Vec<String>) -> (r: Result<
    Vec<String>,
    String,
>)
    ensures
        r is Ok <==> forall|x: Seq<char>|
            #[trigger] producers.deep_view().to_set().contains(x) ==> catalog_index(ev@, x) is Some,
        r matches Ok(v) ==> sorted(v.deep_view()) && v.deep_view().to_set() == evidence_spec(
            ev@,
            producers.deep_view().to_set(),
        ),
{
    let ghost ps = producers.deep_view();
    let mut out: Vec<String> = Vec::new();
    let mut i: usize = 0;
    assert(evidence_spec(ev@, ps.take(0).to_set()) =~= Set::empty());
    while i < producers.len()
        invariant
            ps == producers.deep_view(),
            i <= producers.len(),
            sorted(out.deep_view()),
            out.deep_view().to_set() == evidence_spec(ev@, ps.take(i as int).to_set()),
            forall|k: int| 0 <= k < i ==> catalog_index(ev@, #[trigger] ps[k]) is Some,
        decreases producers.len() - i,
    {
        let x = producers[i].as_str();
        assert(ps[i as int] == x@);
        assert(ps.take(i + 1) =~= ps.take(i as int).push(x@));
        proof {
            ps.take(i as int).lemma_push_to_set_commute(x@);
        }
        match find_catalog(ev, x) {
            Some(k) => {
                let ghost o0 = out.deep_view().to_set();
                set_extend(&mut out, &ev[k].1);
                assert(out.deep_view().to_set() == o0 + ev@[k as int].1.deep_view().to_set());
                assert(catalog_index(ev@, x@) == Some(k as int));
                assert forall|e: Seq<char>|
                    evidence_spec(ev@, ps.take(i + 1).to_set()).contains(e) <==> (o0.contains(e)
                        || ev@[k as int].1.deep_view().contains(e)) by {
                    if evidence_spec(ev@, ps.take(i + 1).to_set()).contains(e) {
                        let y = choose|y: Seq<char>|
                            ps.take(i + 1).to_set().contains(y) && #[trigger] catalog_has(ev@, y, e);
                        if y != x@ {
                            assert(ps.take(i as int).to_set().contains(y));
                        } else {
                            assert(ev@[k as int].1.deep_view().contains(e));
                            assert(ev@[k as int].1.deep_view().to_set().contains(e));
                        }
                    }
                    if o0.contains(e) {
                        let y = choose|y: Seq<char>|
                            ps.take(i as int).to_set().contains(y) && #[trigger] catalog_has(ev@, y, e);
                        assert(ps.take(i + 1).to_set().contains(y));
                    }
                    if ev@[k as int].1.deep_view().contains(e) {
                        assert(ev@[k as int].1.deep_view().to_set().contains(e));
                        assert(catalog_has(ev@, x@, e));
                        assert(ps.take(i + 1).to_set().contains(x@));
                    }
                }
                assert(out.deep_view().to_set() =~= evidence_spec(ev@, ps.take(i + 1).to_set()));
            },
            None => {
                assert(ps.to_set().contains(x@));
                return Err(cat3("acceptance-impact: selected producer ", x, " has no evidence catalog"));
            },
        }
        i += 1;
    }
    assert(ps.take(producers.len() as int) =~= ps);
    assert forall|x: Seq<char>| #[trigger] ps.to_set().contains(x) implies catalog_index(ev@, x) is Some by {
        let k = choose|k: int| 0 <= k < ps.len() && ps[k] == x;
    }
    Ok(out)
}

/// Acceptance cases of the rows whose evidence is selected.
fn selected_cases(rows: &Vec<MatrixRow>, evidence: &Vec<String>) -> (r: Vec<String>)
    ensures
        sorted(r.deep_view()),
        r.deep_view().to_set() == cases_spec(rows@, evidence.deep_view().to_set()),
{
    let ghost es = evidence.deep_view().to_set();
    let mut out: Vec<String> = Vec::new();
    let mut i: usize = 0;
    proof {
        reveal_strlit("none");
    }
    while i < rows.len()
        invariant
            i <= rows.len(),
            es == evidence.deep_view().to_set(),
            sorted(out.deep_view()),
            out.deep_view().to_set() == cases_spec(rows@.take(i as int), es),
        decreases rows.len() - i,
    {
        let row = &rows[i];
        let ghost o0 = out.deep_view().to_set();
        let keep = !eq_str(row.case_id.as_str(), "none") && contains_str_in(evidence, row.evidence_id.as_str());
        if keep {
            set_insert(&mut out, row.case_id.clone());
        }
        assert(evidence.deep_view().contains(row.evidence_id@) == es.contains(row.evidence_id@));
        assert(keep == (row.case_id@ != "none"@ && es.contains(row.evidence_id@)));
        assert(out.deep_view().to_set() == if keep { o0.insert(row.case_id@) } else { o0 });
        assert forall|c: Seq<char>|
            cases_spec(rows@.take(i + 1), es).contains(c) <==> (o0.contains(c) || (keep && c
                == row.case_id@)) by {
            if cases_spec(rows@.take(i + 1), es).contains(c) {
                let k = choose|k: int|
                    0 <= k < i + 1 && #[trigger] rows@.take(i + 1)[k].case_id@ == c && c != "none"@
                        && es.contains(rows@.take(i + 1)[k].evidence_id@);
                if k < i {
                    assert(rows@.take(i as int)[k] == rows@.take(i + 1)[k]);
                }
            }
            if o0.contains(c) {
                let k = choose|k: int|
                    0 <= k < i && #[trigger] rows@.take(i as int)[k].case_id@ == c && c != "none"@
                        && es.contains(rows@.take(i as int)[k].evidence_id@);
                assert(rows@.take(i as int)[k] == rows@.take(i + 1)[k]);
            }
            if keep && c == row.case_id@ {
                assert(rows@.take(i + 1)[i as int] == *row);
            }
        }
        assert forall|c: Seq<char>|
            #[trigger] out.deep_view().to_set().contains(c) == cases_spec(rows@.take(i + 1), es).contains(c) by {
            assert(cases_spec(rows@.take(i + 1), es).contains(c) <==> (o0.contains(c) || (keep && c
                == row.case_id@)));
        }
        assert(out.deep_view().to_set() =~= cases_spec(rows@.take(i + 1), es));
        i += 1;
    }
    assert(rows@.take(rows.len() as int) =~= rows@);
    out
}

fn all_module_ids(ms: &Vec<ImpactModule>) -> (r: Vec<String>)
    ensures
        sorted(r.deep_view()),
        r.deep_view().to_set() == module_ids(ms@),
{
    let mut r: Vec<String> = Vec::new();
    let mut i: usize = 0;
    while i < ms.len()
        invariant
            i <= ms.len(),
            sorted(r.deep_view()),
            r.deep_view().to_set() == Set::new(
                |id: Seq<char>| exists|j: int| 0 <= j < i && #[trigger] ms@[j].module_id@ == id,
            ),
        decreases ms.len() - i,
    {
        set_insert(&mut r, ms[i].module_id.clone());
        assert(r.deep_view().to_set() =~= Set::new(
            |id: Seq<char>| exists|j: int| 0 <= j < i + 1 && #[trigger] ms@[j].module_id@ == id,
        ));
        i += 1;
    }
    assert(r.deep_view().to_set() =~= module_ids(ms@));
    r
}

/// What a successful plan holds for the given inputs and profile.
pub open spec fn plan_matches(
    plan: ImpactPlan,
    reg: ImpactRegistry,
    fingerprints: InputFingerprints,
    base: Option<Seq<char>>,
    head: Option<Seq<char>>,
    files: Set<Seq<char>>,
    ev: Seq<(String, Vec<String>)>,
    rows: Seq<MatrixRow>,
    p: ImpactProfile,
) -> bool {
    let ms = reg.modules@;
    let ss = reg.shards@;
    let full = is_full(files, ms, p);
    let changed = changed_modules_spec(files, ms);
    let closure = reverse_closure_spec(changed, ms);
    let shards = selected_shards_spec(files, reg, p);
    let producers = shard_union(ss, shards, 0);
    let evidence = evidence_spec(ev, producers);
    &&& plan.schema == 1
    &&& plan.status@ == "shadow-only"@
    &&& plan.input_fingerprints == fingerprints
    &&& plan.profile@ == p.profile_id@
    &&& plan.selection@ == (if full { "full"@ } else { "selective"@ })
    &&& plan.scope@ == (if runtime_selected(ss, shards) { "system"@ } else { "source"@ })
    &&& opt_view(plan.base) == base
    &&& opt_view(plan.head) == head
    &&& sorted(plan.changed_files.deep_view()) && plan.changed_files.deep_view().to_set() == files
    &&& sorted(plan.full_reasons.deep_view()) && plan.full_reasons.deep_view().to_set() == full_reasons_spec(files, ms, p)
    &&& sorted(plan.changed_modules.deep_view()) && plan.changed_modules.deep_view().to_set() == changed
    &&& sorted(plan.reverse_consumers.deep_view()) && plan.reverse_consumers.deep_view().to_set() == closure.difference(changed)
    &&& sorted(plan.selected_modules.deep_view()) && plan.selected_modules.deep_view().to_set() == (if full {
        module_ids(ms)
    } else {
        closure
    })
    &&& sorted(plan.selected_shards.deep_view()) && plan.selected_shards.deep_view().to_set() == shards
    &&& sorted(plan.producer_ids.deep_view()) && plan.producer_ids.deep_view().to_set() == producers
    &&& sorted(plan.evidence_ids.deep_view()) && plan.evidence_ids.deep_view().to_set() == evidence
    &&& sorted(plan.case_ids.deep_view()) && plan.case_ids.deep_view().to_set() == cases_spec(rows, evidence)
    &&& sorted(plan.checks.deep_view()) && plan.checks.deep_view().to_set() == shard_union(ss, shards, 1)
    &&& sorted(plan.artifact_inputs.deep_view()) && plan.artifact_inputs.deep_view().to_set() == shard_union(ss, shards, 2)
    &&& plan.isolation@.len() == plan.selected_shards@.len()
    &&& forall|k: int|
        #![trigger plan.isolation@[k]]
        0 <= k < plan.isolation@.len() ==> plan.isolation@[k].0@ == plan.selected_shards.deep_view()[k]
            && isolation_matches(ss, plan.selected_shards.deep_view()[k], plan.isolation@[k].1)
}

/// Whether the inputs admit a plan for profile `p`.
pub open spec fn plan_succeeds(
    reg: ImpactRegistry,
    files: Set<Seq<char>>,
    ev: Seq<(String, Vec<String>)>,
    p: ImpactProfile,
) -> bool {
    &&& !(p.selection@ == "selective"@ && files == Set::<Seq<char>>::empty())
    &&& forall|x: Seq<char>|
        #[trigger] shard_union(reg.shards@, selected_shards_spec(files, reg, p), 0).contains(x)
            ==> catalog_index(ev, x) is Some
}

/// Computes a shadow-only plan for the profile `args.profile` over the
/// change set `args.changed_files` (already resolved from a revision range
/// when `--base`/`--head` were given).
pub fn build(
    registry: &ImpactRegistry,
    input_fingerprints: InputFingerprints,
    args: PlanArgs,
    evidence_by_producer: &Vec<(String, Vec<String>)>,
    rows: &Vec<MatrixRow>,
) -> (r: Result<ImpactPlan, String>)
    requires
        profile_index(registry.profiles@, args.profile@) matches Some(i) ==> selected_shards_known(
            *registry,
            args.changed_files.deep_view().to_set(),
            registry.profiles@[i],
        ),
        catalog_keys_unique(evidence_by_producer@),
    ensures
        match profile_index(registry.profiles@, args.profile@) {
            None => r is Err,
            Some(i) => {
                &&& (r is Ok <==> plan_succeeds(
                    *registry,
                    args.changed_files.deep_view().to_set(),
                    evidence_by_producer@,
                    registry.profiles@[i],
                ))
                &&& (r matches Ok(plan) ==> plan_matches(
                    plan,
                    *registry,
                    input_fingerprints,
                    opt_view(args.base),
                    opt_view(args.head),
                    args.changed_files.deep_view().to_set(),
                    evidence_by_producer@,
                    rows@,
                    registry.profiles@[i],
                ))
            },
        },
{
    let ghost args0 = args;
    let pi = match find_profile(&registry.profiles, args.profile.as_str()) {
        Some(pi) => pi,
        None => {
            return Err(cat("acceptance-impact: unknown profile ", args.profile.as_str()));
        },
    };
    let profile = &registry.profiles[pi];
    let ghost ms = registry.modules@;
    let ghost ss = registry.shards@;
    let files = sorted_set_of(&args.changed_files);
    let ghost fset = files.deep_view().to_set();
    proof {
        reveal_strlit("selective");
        reveal_strlit("full");
        reveal_strlit("profile-full:");
        lemma_to_set_empty(files.deep_view());
    }
    let selective = eq_str(profile.selection.as_str(), "selective");
    if selective && files.len() == 0 {
        return Err(to_string("acceptance-impact: selective profiles require a nonempty change set"));
    }
    let (changed_modules, mut full_reasons, escalates) = classify_changes(&files, &registry.modules);
    let profile_full = eq_str(profile.selection.as_str(), "full");
    let ghost reasons0 = full_reasons.deep_view().to_set();
    if profile_full {
        set_insert(&mut full_reasons, cat("profile-full:", profile.profile_id.as_str()));
    }
    assert(full_reasons.deep_view().to_set() =~= full_reasons_spec(fset, ms, *profile));
    let full = escalates || profile_full;
    let closure = reverse_closure(&changed_modules, &registry.modules);
    let reverse_consumers = set_difference(&closure, &changed_modules);
    let selected_modules = if full {
        all_module_ids(&registry.modules)
    } else {
        reverse_closure(&changed_modules, &registry.modules)
    };
    let selected_shards = select_shards(registry, profile, full, escalates, &closure);
    assert(selected_shards.deep_view().to_set() == selected_shards_spec(fset, *registry, *profile));
    let (producers, checks, artifacts, isolation, runtime) = aggregate_shards(
        &registry.shards,
        &selected_shards,
    );
    let evidence = match collect_evidence(evidence_by_producer, &producers) {
        Ok(e) => e,
        Err(e) => {
            return Err(e);
        },
    };
    let cases = selected_cases(rows, &evidence);
    assert(fset == args.changed_files.deep_view().to_set());
    assert(full == is_full(fset, ms, *profile));
    assert(plan_succeeds(*registry, fset, evidence_by_producer@, *profile));
    let plan = ImpactPlan {
        schema: 1,
        status: to_string("shadow-only"),
        input_fingerprints,
        profile: profile.profile_id.clone(),
        selection: to_string(if full { "full" } else { "selective" }),
        scope: to_string(if runtime { "system" } else { "source" }),
        base: args.base,
        head: args.head,
        changed_files: files,
        full_reasons,
        changed_modules,
        reverse_consumers,
        selected_modules,
        selected_shards,
        producer_ids: producers,
        evidence_ids: evidence,
        case_ids: cases,
        checks,
        artifact_inputs: artifacts,
        isolation,
    };
    assert(plan.selected_modules.deep_view().to_set() == (if full {
        module_ids(ms)
    } else {
        reverse_closure_spec(changed_modules_spec(fset, ms), ms)
    }));
    assert(plan_matches(
        plan,
        *registry,
        input_fingerprints,
        opt_view(args0.base),
        opt_view(args0.head),
        fset,
        evidence_by_producer@,
        rows@,
        *profile,
    ));
    Ok(plan)
}

/// The reverse closure holds every changed module.
pub proof fn lemma_reverse_closure_contains(c: Set<Seq<char>>, ms: Seq<ImpactModule>)
    ensures
        c.subset_of(reverse_closure_spec(c, ms)),
{
    assert forall|x: Seq<char>| c.contains(x) implies reverse_closure_spec(c, ms).contains(x) by {
        assert forall|t: Set<Seq<char>>| #[trigger] c.subset_of(t) && closed_under_consumers(t, ms) implies t.contains(x) by {}
    }
}

/// The reverse closure is closed: every consumer of a selected module is
/// selected.
pub proof fn lemma_reverse_closure_closed(c: Set<Seq<char>>, ms: Seq<ImpactModule>)
    ensures
        closed_under_consumers(reverse_closure_spec(c, ms), ms),
{
    let r = reverse_closure_spec(c, ms);
    assert forall|i: int, d: Seq<char>|
        0 <= i < ms.len() && r.contains(d) && #[trigger] ms[i].dependencies.deep_view().contains(d) implies r.contains(
        ms[i].module_id@,
    ) by {
        assert forall|t: Set<Seq<char>>| #[trigger] c.subset_of(t) && closed_under_consumers(t, ms) implies t.contains(
            ms[i].module_id@,
        ) by {
            assert(t.contains(d));
        }
    }
}

/// Selecting more changed modules never selects fewer: the closure is
/// monotone.
pub proof fn lemma_reverse_closure_monotone(c1: Set<Seq<char>>, c2: Set<Seq<char>>, ms: Seq<ImpactModule>)
    requires
        c1.subset_of(c2),
    ensures
        reverse_closure_spec(c1, ms).subset_of(reverse_closure_spec(c2, ms)),
{
    assert forall|x: Seq<char>| reverse_closure_spec(c1, ms).contains(x) implies reverse_closure_spec(c2, ms).contains(x) by {
        assert forall|t: Set<Seq<char>>| #[trigger] c2.subset_of(t) && closed_under_consumers(t, ms) implies t.contains(x) by {
            assert(c1.subset_of(t));
        }
    }
}

/// Closing a closure adds nothing: the closure is idempotent.
pub proof fn lemma_reverse_closure_idempotent(c: Set<Seq<char>>, ms: Seq<ImpactModule>)
    ensures
        reverse_closure_spec(reverse_closure_spec(c, ms), ms) == reverse_closure_spec(c, ms),
{
    let r = reverse_closure_spec(c, ms);
    lemma_reverse_closure_contains(r, ms);
    lemma_reverse_closure_closed(c, ms);
    assert forall|x: Seq<char>| reverse_closure_spec(r, ms).contains(x) implies r.contains(x) by {
        assert(r.subset_of(r) && closed_under_consumers(r, ms));
    }
    assert(reverse_closure_spec(r, ms) =~= r);
}

/// A plan depends on the changed files only as a set: two change lists with
/// the same paths, in any order and with any repetition, admit a plan
/// alike, and the plans that `build` may return for them agree field for
/// field.
pub proof fn lemma_plan_depends_on_changed_set(
    reg: ImpactRegistry,
    fingerprints: InputFingerprints,
    base: Option<Seq<char>>,
    head: Option<Seq<char>>,
    changed1: Seq<Seq<char>>,
    changed2: Seq<Seq<char>>,
    ev: Seq<(String, Vec<String>)>,
    rows: Seq<MatrixRow>,
    p: ImpactProfile,
    plan1: ImpactPlan,
    plan2: ImpactPlan,
)
    requires
        changed1.to_set() == changed2.to_set(),
        plan_matches(plan1, reg, fingerprints, base, head, changed1.to_set(), ev, rows, p),
        plan_matches(plan2, reg, fingerprints, base, head, changed2.to_set(), ev, rows, p),
    ensures
        plan_succeeds(reg, changed1.to_set(), ev, p) == plan_succeeds(reg, changed2.to_set(), ev, p),
        plan1.schema == plan2.schema,
        plan1.status@ == plan2.status@,
        plan1.input_fingerprints == plan2.input_fingerprints,
        plan1.profile@ == plan2.profile@,
        plan1.selection@ == plan2.selection@,
        plan1.scope@ == plan2.scope@,
        opt_view(plan1.base) == opt_view(plan2.base),
        opt_view(plan1.head) == opt_view(plan2.head),
        plan1.changed_files.deep_view() == plan2.changed_files.deep_view(),
        plan1.full_reasons.deep_view() == plan2.full_reasons.deep_view(),
        plan1.changed_modules.deep_view() == plan2.changed_modules.deep_view(),
        plan1.reverse_consumers.deep_view() == plan2.reverse_consumers.deep_view(),
        plan1.selected_modules.deep_view() == plan2.selected_modules.deep_view(),
        plan1.selected_shards.deep_view() == plan2.selected_shards.deep_view(),
        plan1.producer_ids.deep_view() == plan2.producer_ids.deep_view(),
        plan1.evidence_ids.deep_view() == plan2.evidence_ids.deep_view(),
        plan1.case_ids.deep_view() == plan2.case_ids.deep_view(),
        plan1.checks.deep_view() == plan2.checks.deep_view(),
        plan1.artifact_inputs.deep_view() == plan2.artifact_inputs.deep_view(),
        plan1.isolation@.len() == plan2.isolation@.len(),
        forall|k: int|
            0 <= k < plan1.isolation@.len() ==> (#[trigger] plan1.isolation@[k]).0@ == plan2.isolation@[k].0@
                && plan1.isolation@[k].1 == plan2.isolation@[k].1,
{
    lemma_sorted_unique(plan1.changed_files.deep_view(), plan2.changed_files.deep_view());
    lemma_sorted_unique(plan1.full_reasons.deep_view(), plan2.full_reasons.deep_view());
    lemma_sorted_unique(plan1.changed_modules.deep_view(), plan2.changed_modules.deep_view());
    lemma_sorted_unique(plan1.reverse_consumers.deep_view(), plan2.reverse_consumers.deep_view());
    lemma_sorted_unique(plan1.selected_modules.deep_view(), plan2.selected_modules.deep_view());
    lemma_sorted_unique(plan1.selected_shards.deep_view(), plan2.selected_shards.deep_view());
    lemma_sorted_unique(plan1.producer_ids.deep_view(), plan2.producer_ids.deep_view());
    lemma_sorted_unique(plan1.evidence_ids.deep_view(), plan2.evidence_ids.deep_view());
    lemma_sorted_unique(plan1.case_ids.deep_view(), plan2.case_ids.deep_view());
    lemma_sorted_unique(plan1.checks.deep_view(), plan2.checks.deep_view());
    lemma_sorted_unique(plan1.artifact_inputs.deep_view(), plan2.artifact_inputs.deep_view());
    assert(plan1.selected_shards.deep_view().len() == plan1.selected_shards@.len());
    assert(plan2.selected_shards.deep_view().len() == plan2.selected_shards@.len());
    assert(plan1.isolation@.len() == plan2.isolation@.len());
    assert forall|k: int|
        0 <= k < plan1.isolation@.len() implies (#[trigger] plan1.isolation@[k]).0@ == plan2.isolation@[k].0@
            && plan1.isolation@[k].1 == plan2.isolation@[k].1 by {
        assert(plan1.isolation@[k].0@ == plan1.selected_shards.deep_view()[k]);
        assert(plan2.isolation@[k].0@ == plan2.selected_shards.deep_view()[k]);
        let ss = reg.shards@;
        assert(isolation_matches(ss, plan1.selected_shards.deep_view()[k], plan1.isolation@[k].1));
        assert(isolation_matches(ss, plan2.selected_shards.deep_view()[k], plan2.isolation@[k].1));
    }
}


proof fn lemma_least_exact(ms: Seq<ImpactModule>, path: Seq<char>, i: int) -> (k: int)
    requires
        0 <= i < ms.len(),
        exact_owner(ms[i], path),
    ensures
        0 <= k <= i,
        exact_owner(ms[k], path),
        forall|j: int| 0 <= j < k ==> !exact_owner(#[trigger] ms[j], path),
    decreases i,
{
    if exists|j: int| 0 <= j < i && exact_owner(#[trigger] ms[j], path) {
        let j = choose|j: int| 0 <= j < i && exact_owner(#[trigger] ms[j], path);
        lemma_least_exact(ms, path, j)
    } else {
        i
    }
}

proof fn lemma_classify_exact(path: Seq<char>, ms: Seq<ImpactModule>)
    ensures
        forall|k: int|
            0 <= k < ms.len() && (#[trigger] ms[k]).exact_paths.deep_view().contains(path) ==> (classify_spec(path, ms) matches Some(
                i,
            ) && i <= k && ms[i].exact_paths.deep_view().contains(path)),
{
    assert forall|k: int| 0 <= k < ms.len() && (#[trigger] ms[k]).exact_paths.deep_view().contains(path) implies (classify_spec(
        path,
        ms,
    ) matches Some(i) && i <= k && ms[i].exact_paths.deep_view().contains(path)) by {
        lemma_exact_path_owned(path, ms, k);
    }
}

/// A path some module lists exactly is owned, by the first module that
/// lists it exactly, whatever the prefixes say; so it never forces a full
/// plan as an unknown path.
pub proof fn lemma_exact_path_owned(path: Seq<char>, ms: Seq<ImpactModule>, i: int)
    requires
        0 <= i < ms.len(),
        ms[i].exact_paths.deep_view().contains(path),
    ensures
        classify_spec(path, ms) matches Some(k) && 0 <= k <= i && ms[k].exact_paths.deep_view().contains(path) && forall|j: int|
            0 <= j < k ==> !(#[trigger] ms[j]).exact_paths.deep_view().contains(path),
        path_reason(path, ms) != Some("unknown-path:"@ + path),
{
    let k = lemma_least_exact(ms, path, i);
    reveal_strlit("unknown-path:");
    reveal_strlit("full-trigger:");
    assert(("full-trigger:"@ + ms[k].module_id@)[0] != ("unknown-path:"@ + path)[0]);
    assert(forall|j: int| 0 <= j < k ==> !exact_owner(#[trigger] ms[j], path));
    lemma_first_exact(ms, path, k);
}

} // verus!
