//! Repository path ownership rules of the capability modules.
use super::ids::{unique_ids, unique_ids_spec};
use super::model::{ImpactModule, ImpactRegistry};
use crate::paths::{canonical_relative_path, is_canonical_relative_path};
use crate::strset::{contains_str_in, is_subset, sorted, strings_of};
use crate::text::{cat, cat3, ends_with, ends_with_str, eq_str, quoted, starts_with, starts_with_str, to_string};
use vstd::prelude::*;

verus! {

/// A path rule: canonical, and ending in `/` exactly when it is a prefix.
pub open spec fn repo_path_ok(v: Seq<char>, prefix: bool) -> bool {
    canonical_relative_path(v) && prefix == ends_with(v, seq!['/'])
}

pub fn validate_repo_path(value: &str, prefix: bool) -> (r: Result<(), String>)
    ensures
        r is Ok <==> repo_path_ok(value@, prefix),
{
    proof {
        reveal_strlit("/");
    }
    assert("/"@ =~= seq!['/']);
    if !is_canonical_relative_path(value) || prefix != ends_with_str(value, "/") {
        return Err(cat("acceptance-impact: invalid repository path rule ", quoted(value).as_str()));
    }
    Ok(())
}

/// The fixed topology of each capability module: whether it forces a full
/// plan, its dependencies and its shards.
pub open spec fn required_topology(id: Seq<char>) -> Option<(bool, Seq<Seq<char>>, Seq<Seq<char>>)> {
    if id == "governance-contracts"@ {
        Some((true, seq![], seq!["contract-static"@, "release-supply"@]))
    } else if id == "workspace-toolchain"@ {
        Some((true, seq![], seq!["workspace-build"@]))
    } else if id == "delivery-config"@ {
        Some((true, seq!["cli-runtime"@, "web-shell"@], seq!["docker-runtime"@, "release-supply"@, "web-ci"@]))
    } else if id == "core-authority"@ {
        Some((false, seq![], seq!["core-ci"@, "diff-ci"@, "protocol-ci"@]))
    } else if id == "cli-runtime"@ {
        Some((false, seq!["core-authority"@], seq!["diff-ci"@, "protocol-ci"@, "repo-process"@, "source-tag-contracts"@]))
    } else if id == "web-shell"@ {
        Some((false, seq!["core-authority"@], seq!["diff-ci"@, "protocol-ci"@, "source-tag-contracts"@, "web-ci"@]))
    } else if id == "desktop-adapter"@ {
        Some((false, seq!["cli-runtime"@, "core-authority"@, "web-shell"@], seq!["desktop-runtime"@, "native-ci"@]))
    } else if id == "mobile-adapter"@ {
        Some((false, seq!["cli-runtime"@, "core-authority"@, "web-shell"@], seq!["mobile-runtime"@, "native-ci"@, "protocol-ci"@]))
    } else if id == "plugin-runtime"@ {
        Some((false, seq!["cli-runtime"@, "core-authority"@], seq!["ai-plugin-ci"@]))
    } else if id == "integration-harness"@ {
        Some((false, seq!["plugin-runtime"@], seq!["ai-plugin-ci"@]))
    } else {
        None
    }
}

pub open spec fn topology_ok(id: Seq<char>, full: bool, deps: Set<Seq<char>>, shards: Set<Seq<char>>) -> bool {
    match required_topology(id) {
        Some(t) => full == t.0 && deps == t.1.to_set() && shards == t.2.to_set(),
        None => false,
    }
}

fn same_set(a: &Vec<String>, b: &Vec<String>) -> (r: bool)
    ensures
        r == (a.deep_view().to_set() == b.deep_view().to_set()),
{
    let r = is_subset(a, b) && is_subset(b, a);
    if r {
        assert(a.deep_view().to_set() =~= b.deep_view().to_set());
    }
    r
}

/// Checks a module against its fixed full-trigger flag, dependency edges
/// and shards.
pub fn validate_required_topology(
    module_id: &str,
    full_trigger: bool,
    dependencies: &Vec<String>,
    shards: &Vec<String>,
) -> (r: Result<(), String>)
    ensures
        r is Ok <==> topology_ok(
            module_id@,
            full_trigger,
            dependencies.deep_view().to_set(),
            shards.deep_view().to_set(),
        ),
{
    let ghost t = required_topology(module_id@);
    let (full, deps, sh): (bool, Vec<&str>, Vec<&str>) = if eq_str(module_id, "governance-contracts") {
        (true, vec![], vec!["contract-static", "release-supply"])
    } else if eq_str(module_id, "workspace-toolchain") {
        (true, vec![], vec!["workspace-build"])
    } else if eq_str(module_id, "delivery-config") {
        (true, vec!["cli-runtime", "web-shell"], vec!["docker-runtime", "release-supply", "web-ci"])
    } else if eq_str(module_id, "core-authority") {
        (false, vec![], vec!["core-ci", "diff-ci", "protocol-ci"])
    } else if eq_str(module_id, "cli-runtime") {
        (false, vec!["core-authority"], vec!["diff-ci", "protocol-ci", "repo-process", "source-tag-contracts"])
    } else if eq_str(module_id, "web-shell") {
        (false, vec!["core-authority"], vec!["diff-ci", "protocol-ci", "source-tag-contracts", "web-ci"])
    } else if eq_str(module_id, "desktop-adapter") {
        (false, vec!["cli-runtime", "core-authority", "web-shell"], vec!["desktop-runtime", "native-ci"])
    } else if eq_str(module_id, "mobile-adapter") {
        (false, vec!["cli-runtime", "core-authority", "web-shell"], vec!["mobile-runtime", "native-ci", "protocol-ci"])
    } else if eq_str(module_id, "plugin-runtime") {
        (false, vec!["cli-runtime", "core-authority"], vec!["ai-plugin-ci"])
    } else if eq_str(module_id, "integration-harness") {
        (false, vec!["plugin-runtime"], vec!["ai-plugin-ci"])
    } else {
        return Err(cat("acceptance-impact: unknown capability module ", module_id));
    };
    let want_deps = strings_of(&deps);
    let want_shards = strings_of(&sh);
    assert(t is Some);
    let ghost tv = t.unwrap();
    assert(want_deps.deep_view() =~= tv.1);
    assert(want_shards.deep_view() =~= tv.2);
    assert(full == tv.0);
    if full_trigger != full || !same_set(dependencies, &want_deps) || !same_set(shards, &want_shards) {
        return Err(
            cat3(
                "acceptance-impact: module ",
                module_id,
                " is missing a required dependency edge or shard",
            ),
        );
    }
    Ok(())
}

/// The capability modules the registry must declare.
pub open spec fn required_module_ids() -> Seq<Seq<char>> {
    seq![
        "cli-runtime"@,
        "core-authority"@,
        "delivery-config"@,
        "desktop-adapter"@,
        "governance-contracts"@,
        "integration-harness"@,
        "mobile-adapter"@,
        "plugin-runtime"@,
        "web-shell"@,
        "workspace-toolchain"@,
    ]
}

/// One module's own rules, given the module and shard id sets.
pub open spec fn module_rules_ok(m: ImpactModule, mids: Set<Seq<char>>, sids: Set<Seq<char>>) -> bool {
    &&& module_head_ok(m, mids, sids)
    &&& forall|k: int| 0 <= k < m.exact_paths@.len() ==> repo_path_ok(#[trigger] m.exact_paths.deep_view()[k], false)
    &&& forall|k: int| 0 <= k < m.path_prefixes@.len() ==> repo_path_ok(#[trigger] m.path_prefixes.deep_view()[k], true)
}

/// A module's rules apart from the shape of its path rules.
pub open spec fn module_head_ok(m: ImpactModule, mids: Set<Seq<char>>, sids: Set<Seq<char>>) -> bool {
    let deps = m.dependencies.deep_view();
    let shs = m.shards.deep_view();
    &&& !(m.exact_paths@.len() == 0 && m.path_prefixes@.len() == 0)
    &&& unique_ids_spec(deps)
    &&& !deps.contains(m.module_id@)
    &&& deps.to_set().subset_of(mids)
    &&& unique_ids_spec(shs)
    &&& shs.len() > 0
    &&& shs.to_set().subset_of(sids)
    &&& topology_ok(m.module_id@, m.full_trigger, deps.to_set(), shs.to_set())
}

proof fn lemma_rules_prefix(ms: Seq<ImpactModule>, j: int, n: int)
    requires
        0 <= j <= n,
    ensures
        exact_rules(ms, j).len() <= exact_rules(ms, n).len(),
        exact_rules(ms, n).take(exact_rules(ms, j).len() as int) == exact_rules(ms, j),
    decreases n,
{
    if j < n {
        lemma_rules_prefix(ms, j, n - 1);
        assert(exact_rules(ms, n).take(exact_rules(ms, j).len() as int) =~= exact_rules(ms, n - 1).take(
            exact_rules(ms, j).len() as int,
        ));
    } else {
        assert(exact_rules(ms, n).take(exact_rules(ms, j).len() as int) =~= exact_rules(ms, j));
    }
}

/// The exact paths of the first `n` modules, in order.
pub open spec fn exact_rules(ms: Seq<ImpactModule>, n: int) -> Seq<Seq<char>>
    decreases n,
{
    if n <= 0 {
        Seq::empty()
    } else {
        exact_rules(ms, n - 1) + ms[n - 1].exact_paths.deep_view()
    }
}

/// The path prefixes of the first `n` modules, in order.
pub open spec fn prefix_rules(ms: Seq<ImpactModule>, n: int) -> Seq<Seq<char>>
    decreases n,
{
    if n <= 0 {
        Seq::empty()
    } else {
        prefix_rules(ms, n - 1) + ms[n - 1].path_prefixes.deep_view()
    }
}

/// No prefix rule is a prefix of another.
pub open spec fn prefixes_disjoint(ps: Seq<Seq<char>>) -> bool {
    forall|x: int, y: int| 0 <= x < ps.len() && 0 <= y < ps.len() && x != y ==> !starts_with(#[trigger] ps[x], #[trigger] ps[y])
}

/// A committed path has an exact owner or a prefix owner.
pub open spec fn committed_owned(exact: Seq<Seq<char>>, prefixes: Seq<Seq<char>>, t: Seq<char>) -> bool {
    exact.contains(t) || exists|x: int| 0 <= x < prefixes.len() && starts_with(t, #[trigger] prefixes[x])
}

/// The module set is fixed, every module follows its rules, exact paths are
/// owned once, prefixes do not overlap and every committed path is owned.
pub open spec fn modules_valid(
    reg: ImpactRegistry,
    mids: Set<Seq<char>>,
    sids: Set<Seq<char>>,
    committed: Seq<Seq<char>>,
) -> bool {
    let ms = reg.modules@;
    let exact = exact_rules(ms, ms.len() as int);
    let prefixes = prefix_rules(ms, ms.len() as int);
    &&& mids == required_module_ids().to_set()
    &&& forall|i: int| 0 <= i < ms.len() ==> module_rules_ok(#[trigger] ms[i], mids, sids)
    &&& exact.no_duplicates()
    &&& prefixes_disjoint(prefixes)
    &&& forall|k: int| 0 <= k < committed.len() ==> committed_owned(exact, prefixes, #[trigger] committed[k])
}

fn validate_module_rules(m: &ImpactModule, module_ids: &Vec<String>, shard_ids: &Vec<String>) -> (r: Result<(), String>)
    ensures
        r is Ok <==> module_rules_ok(*m, module_ids.deep_view().to_set(), shard_ids.deep_view().to_set()),
{
    let id = m.module_id.as_str();
    if m.exact_paths.len() == 0 && m.path_prefixes.len() == 0 {
        return Err(cat3("acceptance-impact: module ", id, " has no path rules"));
    }
    let deps = unique_ids(&m.dependencies, "module dependency")?;
    assert(deps.deep_view().to_set().contains(id@) == m.dependencies.deep_view().to_set().contains(id@));
    if contains_str_in(&deps, id) || !is_subset(&deps, module_ids) {
        return Err(cat3("acceptance-impact: module ", id, " has an unknown or self dependency"));
    }
    let shards = unique_ids(&m.shards, "module shard")?;
    proof {
        crate::strset::lemma_to_set_empty(shards.deep_view());
        crate::strset::lemma_to_set_empty(m.shards.deep_view());
    }
    if shards.len() == 0 || !is_subset(&shards, shard_ids) {
        return Err(cat3("acceptance-impact: module ", id, " has an invalid shard set"));
    }
    validate_required_topology(id, m.full_trigger, &deps, &shards)?;
    let ghost mids = module_ids.deep_view().to_set();
    let ghost sids = shard_ids.deep_view().to_set();
    assert(module_head_ok(*m, mids, sids));
    let mut k: usize = 0;
    while k < m.exact_paths.len()
        invariant
            k <= m.exact_paths.len(),
            module_head_ok(*m, mids, sids),
            forall|q: int| 0 <= q < k ==> repo_path_ok(#[trigger] m.exact_paths.deep_view()[q], false),
        decreases m.exact_paths.len() - k,
    {
        assert(m.exact_paths.deep_view()[k as int] == m.exact_paths@[k as int]@);
        validate_repo_path(m.exact_paths[k].as_str(), false)?;
        k += 1;
    }
    let mut k: usize = 0;
    while k < m.path_prefixes.len()
        invariant
            k <= m.path_prefixes.len(),
            module_head_ok(*m, mids, sids),
            forall|q: int| 0 <= q < m.exact_paths@.len() ==> repo_path_ok(#[trigger] m.exact_paths.deep_view()[q], false),
            forall|q: int| 0 <= q < k ==> repo_path_ok(#[trigger] m.path_prefixes.deep_view()[q], true),
        decreases m.path_prefixes.len() - k,
    {
        assert(m.path_prefixes.deep_view()[k as int] == m.path_prefixes@[k as int]@);
        validate_repo_path(m.path_prefixes[k].as_str(), true)?;
        k += 1;
    }
    Ok(())
}

/// What the module pass establishes before prefixes and committed paths are
/// compared.
pub open spec fn modules_stage_ok(reg: ImpactRegistry, mids: Set<Seq<char>>, sids: Set<Seq<char>>) -> bool {
    let ms = reg.modules@;
    &&& mids == required_module_ids().to_set()
    &&& forall|i: int| 0 <= i < ms.len() ==> module_rules_ok(#[trigger] ms[i], mids, sids)
    &&& exact_rules(ms, ms.len() as int).no_duplicates()
}

/// Checks module ownership of repository paths against the committed files.
pub fn validate_modules(
    registry: &ImpactRegistry,
    module_ids: &Vec<String>,
    shard_ids: &Vec<String>,
    committed: &Vec<String>,
) -> (r: Result<(), String>)
    ensures
        r is Ok <==> modules_valid(
            *registry,
            module_ids.deep_view().to_set(),
            shard_ids.deep_view().to_set(),
            committed.deep_view(),
        ),
{
    let ghost ms = registry.modules@;
    let required = strings_of(
        &vec![
            "cli-runtime",
            "core-authority",
            "delivery-config",
            "desktop-adapter",
            "governance-contracts",
            "integration-harness",
            "mobile-adapter",
            "plugin-runtime",
            "web-shell",
            "workspace-toolchain",
        ],
    );
    assert(required.deep_view() =~= required_module_ids());
    if !same_set(module_ids, &required) {
        return Err(to_string("acceptance-impact: fixed capability module set is incomplete or unknown"));
    }
    let mut exact: Vec<String> = Vec::new();
    let mut prefixes: Vec<String> = Vec::new();
    let mut i: usize = 0;
    assert(exact.deep_view() =~= exact_rules(ms, 0));
    assert(prefixes.deep_view() =~= prefix_rules(ms, 0));
    while i < registry.modules.len()
        invariant
            ms == registry.modules@,
            i <= ms.len(),
            forall|q: int|
                0 <= q < i ==> module_rules_ok(
                    #[trigger] ms[q],
                    module_ids.deep_view().to_set(),
                    shard_ids.deep_view().to_set(),
                ),
            module_ids.deep_view().to_set() == required_module_ids().to_set(),
            exact.deep_view() == exact_rules(ms, i as int),
            exact.deep_view().no_duplicates(),
            prefixes.deep_view() == prefix_rules(ms, i as int),
        decreases ms.len() - i,
    {
        let m = &registry.modules[i];
        validate_module_rules(m, module_ids, shard_ids)?;
        let ghost e0 = exact.deep_view();
        let mut k: usize = 0;
        while k < m.exact_paths.len()
            invariant
                k <= m.exact_paths.len(),
                i < ms.len(),
                ms == registry.modules@,
                *m == ms[i as int],
                e0 == exact_rules(ms, i as int),
                exact.deep_view() == e0 + m.exact_paths.deep_view().take(k as int),
                exact.deep_view().no_duplicates(),
                e0.no_duplicates(),
            decreases m.exact_paths.len() - k,
        {
            let path = m.exact_paths[k].as_str();
            assert(m.exact_paths.deep_view()[k as int] == path@);
            if contains_str_in(&exact, path) {
                proof {
                    let j = choose|j: int| 0 <= j < exact.deep_view().len() && exact.deep_view()[j] == path@;
                    let full = e0 + m.exact_paths.deep_view();
                    assert(full[j] == exact.deep_view()[j]);
                    assert(full[e0.len() + k] == path@);
                    assert(full == exact_rules(ms, i + 1));
                    lemma_rules_prefix(ms, i + 1, ms.len() as int);
                    let all = exact_rules(ms, ms.len() as int);
                    assert(all[j] == full[j]);
                    assert(all[e0.len() + k] == full[e0.len() + k]);
                    assert(!all.no_duplicates());
                }
                return Err(
                    cat3(
                        "acceptance-impact: exact path ",
                        path,
                        " is owned by more than one module",
                    ),
                );
            }
            let ghost x0 = exact.deep_view();
            exact.push(m.exact_paths[k].clone());
            assert(exact.deep_view() =~= x0.push(path@));
            assert(m.exact_paths.deep_view().take(k + 1) =~= m.exact_paths.deep_view().take(k as int).push(path@));
            k += 1;
        }
        assert(m.exact_paths.deep_view().take(m.exact_paths.len() as int) =~= m.exact_paths.deep_view());
        let ghost p0 = prefixes.deep_view();
        let mut k: usize = 0;
        while k < m.path_prefixes.len()
            invariant
                k <= m.path_prefixes.len(),
                prefixes.deep_view() == p0 + m.path_prefixes.deep_view().take(k as int),
            decreases m.path_prefixes.len() - k,
        {
            let ghost x0 = prefixes.deep_view();
            prefixes.push(m.path_prefixes[k].clone());
            assert(prefixes.deep_view() =~= x0.push(m.path_prefixes.deep_view()[k as int]));
            assert(m.path_prefixes.deep_view().take(k + 1) =~= m.path_prefixes.deep_view().take(k as int).push(
                m.path_prefixes.deep_view()[k as int],
            ));
            k += 1;
        }
        assert(m.path_prefixes.deep_view().take(m.path_prefixes.len() as int) =~= m.path_prefixes.deep_view());
        i += 1;
    }
    assert(modules_stage_ok(*registry, module_ids.deep_view().to_set(), shard_ids.deep_view().to_set()));
    let mut left: usize = 0;
    while left < prefixes.len()
        invariant
            left <= prefixes.len(),
            modules_stage_ok(*registry, module_ids.deep_view().to_set(), shard_ids.deep_view().to_set()),
            exact.deep_view() == exact_rules(registry.modules@, registry.modules@.len() as int),
            prefixes.deep_view() == prefix_rules(registry.modules@, registry.modules@.len() as int),
            forall|x: int, y: int|
                0 <= x < prefixes.deep_view().len() && 0 <= y < prefixes.deep_view().len() && x != y && (x < left
                    || y < left) ==> !starts_with(#[trigger] prefixes.deep_view()[x], #[trigger] prefixes.deep_view()[y]),
        decreases prefixes.len() - left,
    {
        let mut right: usize = left + 1;
        while right < prefixes.len()
            invariant
                left < right <= prefixes.len(),
                prefixes.deep_view() == prefix_rules(registry.modules@, registry.modules@.len() as int),
                forall|x: int, y: int|
                    0 <= x < prefixes.deep_view().len() && 0 <= y < prefixes.deep_view().len() && x != y && (x
                        < left || y < left) ==> !starts_with(#[trigger] prefixes.deep_view()[x], #[trigger] prefixes.deep_view()[y]),
                forall|y: int|
                    left < y < right ==> !starts_with(#[trigger] prefixes.deep_view()[left as int], prefixes.deep_view()[y])
                        && !starts_with(prefixes.deep_view()[y], prefixes.deep_view()[left as int]),
            decreases prefixes.len() - right,
        {
            let a = prefixes[left].as_str();
            let b = prefixes[right].as_str();
            assert(prefixes.deep_view()[left as int] == a@);
            assert(prefixes.deep_view()[right as int] == b@);
            if starts_with_str(a, b) || starts_with_str(b, a) {
                let msg = cat3("acceptance-impact: overlapping prefixes ", a, " and ");
                return Err(cat3(msg.as_str(), b, " are ambiguous"));
            }
            right += 1;
        }
        left += 1;
    }
    assert(prefixes_disjoint(prefixes.deep_view()));
    let mut t: usize = 0;
    while t < committed.len()
        invariant
            t <= committed.len(),
            modules_stage_ok(*registry, module_ids.deep_view().to_set(), shard_ids.deep_view().to_set()),
            prefixes_disjoint(prefixes.deep_view()),
            exact.deep_view() == exact_rules(registry.modules@, registry.modules@.len() as int),
            prefixes.deep_view() == prefix_rules(registry.modules@, registry.modules@.len() as int),
            forall|k: int| 0 <= k < t ==> committed_owned(exact.deep_view(), prefixes.deep_view(), #[trigger] committed.deep_view()[k]),
        decreases committed.len() - t,
    {
        let path = committed[t].as_str();
        assert(committed.deep_view()[t as int] == path@);
        if !contains_str_in(&exact, path) {
            let mut x: usize = 0;
            let mut found = false;
            while x < prefixes.len() && !found
                invariant
                    x <= prefixes.len(),
                    found ==> exists|q: int| 0 <= q < prefixes.deep_view().len() && starts_with(path@, #[trigger] prefixes.deep_view()[q]),
                    !found ==> forall|q: int| 0 <= q < x ==> !starts_with(path@, #[trigger] prefixes.deep_view()[q]),
                decreases prefixes.len() - x,
            {
                assert(prefixes.deep_view()[x as int] == prefixes@[x as int]@);
                if starts_with_str(path, prefixes[x].as_str()) {
                    found = true;
                }
                x += 1;
            }
            if !found {
                return Err(
                    cat3(
                        "acceptance-impact: committed path ",
                        path,
                        " must map to exactly one module, found 0",
                    ),
                );
            }
        }
        t += 1;
    }
    Ok(())
}

} // verus!
