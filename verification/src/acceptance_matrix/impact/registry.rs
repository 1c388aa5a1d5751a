//! Fail-closed validation of the shadow-only CI impact registry.
use super::ids::{unique_ids, unique_ids_spec};
use super::model::{ArtifactInput, ImpactModule, ImpactProfile, ImpactRegistry, ImpactShard};
use super::path_rules::{modules_valid, validate_modules};
use super::plan::module_index;
use super::shards::{shards_valid, validate as validate_shards};
use crate::strset::{contains_str_in, is_subset, set_insert, sorted, strings_of};
use crate::text::{cat, cat3, eq_str, to_string};
use vstd::prelude::*;

verus! {

/// The dependencies of the module with id `id`.
pub open spec fn deps_of(ms: Seq<ImpactModule>, id: Seq<char>) -> Set<Seq<char>> {
    match module_index(ms, id) {
        Some(k) => ms[k].dependencies.deep_view().to_set(),
        None => Set::empty(),
    }
}

/// A set that contains every module whose dependencies it contains.
pub open spec fn settled_closed(t: Set<Seq<char>>, ms: Seq<ImpactModule>, ids: Set<Seq<char>>) -> bool {
    forall|id: Seq<char>| #[trigger] ids.contains(id) && deps_of(ms, id).subset_of(t) ==> t.contains(id)
}

/// Every module is reached by settling dependencies first: the dependency
/// graph has no cycle.
pub open spec fn acyclic_spec(ms: Seq<ImpactModule>, ids: Set<Seq<char>>) -> bool {
    forall|id: Seq<char>, t: Set<Seq<char>>|
        #[trigger] ids.contains(id) && #[trigger] settled_closed(t, ms, ids) ==> t.contains(id)
}

pub open spec fn count_marked(ids: Seq<Seq<char>>, s: Set<Seq<char>>, n: int) -> nat
    decreases n,
{
    if n <= 0 {
        0
    } else {
        count_marked(ids, s, n - 1) + if s.contains(ids[n - 1]) {
            1nat
        } else {
            0nat
        }
    }
}

proof fn lemma_count_marked(ids: Seq<Seq<char>>, s1: Set<Seq<char>>, s2: Set<Seq<char>>, n: int)
    requires
        s1.subset_of(s2),
        0 <= n,
    ensures
        count_marked(ids, s1, n) <= count_marked(ids, s2, n),
        count_marked(ids, s2, n) <= n,
        (exists|i: int| 0 <= i < n && s2.contains(#[trigger] ids[i]) && !s1.contains(ids[i]))
            ==> count_marked(ids, s1, n) < count_marked(ids, s2, n),
    decreases n,
{
    if n > 0 {
        lemma_count_marked(ids, s1, s2, n - 1);
    }
}

/// Rejects a dependency cycle among the modules.
pub fn validate_module_cycles(modules: &Vec<ImpactModule>, ids: &Vec<String>) -> (r: Result<(), String>)
    requires
        forall|i: int|
            0 <= i < modules@.len() ==> (#[trigger] modules@[i]).dependencies.deep_view().to_set().subset_of(
                ids.deep_view().to_set(),
            ),
        forall|i: int| 0 <= i < modules@.len() ==> ids.deep_view().to_set().contains(#[trigger] modules@[i].module_id@),
    ensures
        r is Ok <==> acyclic_spec(modules@, ids.deep_view().to_set()),
{
    let ghost ms = modules@;
    let ghost iv = ids.deep_view();
    let ghost is = iv.to_set();
    let mut marked: Vec<String> = Vec::new();
    loop
        invariant
            ms == modules@,
            iv == ids.deep_view(),
            is == iv.to_set(),
            sorted(marked.deep_view()),
            forall|t: Set<Seq<char>>| settled_closed(t, ms, is) ==> marked.deep_view().to_set().subset_of(t),
        ensures
            forall|t: Set<Seq<char>>| settled_closed(t, ms, is) ==> marked.deep_view().to_set().subset_of(t),
            settled_closed(marked.deep_view().to_set(), ms, is),
        decreases iv.len() - count_marked(iv, marked.deep_view().to_set(), iv.len() as int),
    {
        let ghost m0 = marked.deep_view().to_set();
        let mut grew = false;
        let mut i: usize = 0;
        while i < ids.len()
            invariant
                ms == modules@,
                iv == ids.deep_view(),
                is == iv.to_set(),
                i <= ids.len(),
                sorted(marked.deep_view()),
                m0.subset_of(marked.deep_view().to_set()),
                forall|t: Set<Seq<char>>| settled_closed(t, ms, is) ==> marked.deep_view().to_set().subset_of(t),
                !grew ==> marked.deep_view().to_set() == m0,
                grew ==> exists|j: int|
                    0 <= j < i && marked.deep_view().to_set().contains(#[trigger] iv[j]) && !m0.contains(iv[j]),
                !grew ==> forall|j: int| 0 <= j < i && deps_of(ms, #[trigger] iv[j]).subset_of(m0) ==> m0.contains(iv[j]),
            decreases ids.len() - i,
        {
            let id = ids[i].as_str();
            assert(iv[i as int] == id@);
            let ready = match super::plan::find_module(modules, id) {
                Some(k) => is_subset(&modules[k].dependencies, &marked),
                None => true,
            };
            assert(ready == deps_of(ms, id@).subset_of(marked.deep_view().to_set()));
            if ready {
                let ghost before = marked.deep_view().to_set();
                proof {
                    assert forall|t: Set<Seq<char>>| settled_closed(t, ms, is) implies t.contains(id@) by {
                        assert(before.subset_of(t));
                        assert(is.contains(id@));
                    }
                }
                if set_insert(&mut marked, ids[i].clone()) {
                    grew = true;
                    assert(marked.deep_view().to_set().contains(iv[i as int]));
                    assert(!m0.contains(iv[i as int]) || !grew);
                }
            }
            i += 1;
        }
        proof {
            lemma_count_marked(iv, m0, marked.deep_view().to_set(), iv.len() as int);
        }
        if !grew {
            proof {
                assert forall|x: Seq<char>| #[trigger] is.contains(x) && deps_of(ms, x).subset_of(m0) implies m0.contains(x) by {
                    let j = choose|j: int| 0 <= j < iv.len() && iv[j] == x;
                }
            }
            break;
        }
    }
    let mut i: usize = 0;
    while i < ids.len()
        invariant
            ms == modules@,
            iv == ids.deep_view(),
            is == iv.to_set(),
            i <= ids.len(),
            forall|t: Set<Seq<char>>| settled_closed(t, ms, is) ==> marked.deep_view().to_set().subset_of(t),
            settled_closed(marked.deep_view().to_set(), ms, is),
            forall|j: int| 0 <= j < i ==> marked.deep_view().to_set().contains(#[trigger] iv[j]),
        decreases ids.len() - i,
    {
        assert(iv[i as int] == ids@[i as int]@);
        if !contains_str_in(&marked, ids[i].as_str()) {
            proof {
                assert(is.contains(iv[i as int]));
                assert(!marked.deep_view().to_set().contains(iv[i as int]));
                let t = marked.deep_view().to_set();
                assert(settled_closed(t, ms, is));
                if acyclic_spec(ms, is) {
                    assert(is.contains(iv[i as int]) && settled_closed(t, ms, is));
                    assert(t.contains(iv[i as int]));
                }
            }
            return Err(cat("acceptance-impact: module dependency cycle includes ", ids[i].as_str()));
        }
        i += 1;
    }
    proof {
        assert forall|id: Seq<char>, t: Set<Seq<char>>|
            #[trigger] is.contains(id) && #[trigger] settled_closed(t, ms, is) implies t.contains(id) by {
            let j = choose|j: int| 0 <= j < iv.len() && iv[j] == id;
            assert(marked.deep_view().to_set().contains(iv[j]));
        }
    }
    Ok(())
}

/// The fixed profiles and the selection each must use, by id.
pub open spec fn expected_selection(id: Seq<char>) -> Option<Seq<char>> {
    if id == "candidate-full-release"@ {
        Some("full"@)
    } else if id == "diagnostic-module"@ {
        Some("selective"@)
    } else if id == "main-full-source"@ {
        Some("full"@)
    } else if id == "nightly-full-system"@ {
        Some("full"@)
    } else if id == "pr-selective"@ {
        Some("selective"@)
    } else {
        None
    }
}

pub open spec fn expected_profile_ids() -> Seq<Seq<char>> {
    seq![
        "candidate-full-release"@,
        "diagnostic-module"@,
        "main-full-source"@,
        "nightly-full-system"@,
        "pr-selective"@,
    ]
}

pub open spec fn profile_ids(ps: Seq<ImpactProfile>) -> Seq<Seq<char>> {
    Seq::new(ps.len(), |i: int| ps[i].profile_id@)
}

pub open spec fn layer_shards(ss: Seq<ImpactShard>, layer: Seq<char>) -> Set<Seq<char>> {
    Set::new(|id: Seq<char>| exists|i: int| 0 <= i < ss.len() && #[trigger] ss[i].shard_id@ == id && ss[i].layer@ == layer)
}

/// One profile's shard rules.
pub open spec fn profile_ok(
    p: ImpactProfile,
    sids: Set<Seq<char>>,
    source: Set<Seq<char>>,
) -> bool {
    let sel = p.shards.deep_view();
    let always = p.always_shards.deep_view();
    &&& expected_selection(p.profile_id@) == Some(p.selection@)
    &&& unique_ids_spec(sel)
    &&& sel.len() > 0
    &&& sel.to_set().subset_of(sids)
    &&& unique_ids_spec(always)
    &&& always.to_set().subset_of(sel.to_set())
    &&& (p.selection@ == "selective"@ ==> sel.to_set().subset_of(source))
    &&& (p.profile_id@ == "main-full-source"@ ==> sel.to_set() == source)
    &&& (p.profile_id@ == "nightly-full-system"@ || p.profile_id@ == "candidate-full-release"@ ==> sel.to_set() == sids)
}

/// The fixed profile set, controlled shard layers, and every profile's rules.
pub open spec fn profiles_valid(reg: ImpactRegistry, sids: Set<Seq<char>>) -> bool {
    let ss = reg.shards@;
    let ps = reg.profiles@;
    &&& unique_ids_spec(profile_ids(ps))
    &&& profile_ids(ps).to_set() == expected_profile_ids().to_set()
    &&& layer_shards(ss, "source"@) != Set::<Seq<char>>::empty()
    &&& layer_shards(ss, "runtime"@) != Set::<Seq<char>>::empty()
    &&& forall|i: int| 0 <= i < ss.len() ==> (#[trigger] ss[i].layer@ == "source"@ || ss[i].layer@ == "runtime"@)
    &&& forall|i: int| 0 <= i < ps.len() ==> profile_ok(#[trigger] ps[i], sids, layer_shards(ss, "source"@))
}

fn same_set(a: &Vec<String>, b: &Vec<String>) -> (r: bool)
    ensures
        r == (a.deep_view().to_set() == b.deep_view().to_set()),
{
    let r = is_subset(a, b) && is_subset(b, a);
    if r {
        assert(a.deep_view().to_set() =~= b.deep_view().to_set());
    }
    r
}

fn profile_id_list(ps: &Vec<ImpactProfile>) -> (r: Vec<String>)
    ensures
        r.deep_view() == profile_ids(ps@),
{
    let mut r: Vec<String> = Vec::new();
    let mut i: usize = 0;
    while i < ps.len()
        invariant
            i <= ps.len(),
            r.deep_view() =~= Seq::new(i as nat, |k: int| ps@[k].profile_id@),
        decreases ps.len() - i,
    {
        let ghost r0 = r.deep_view();
        r.push(ps[i].profile_id.clone());
        assert(r.deep_view() =~= r0.push(ps@[i as int].profile_id@));
        i += 1;
    }
    r
}

/// The ids of the shards in a layer, as an ordered set; and whether every
/// shard is in one of the two controlled layers.
fn layer_sets(ss: &Vec<ImpactShard>) -> (r: (Vec<String>, Vec<String>, bool))
    ensures
        sorted(r.0.deep_view()),
        sorted(r.1.deep_view()),
        r.0.deep_view().to_set() == layer_shards(ss@, "source"@),
        r.1.deep_view().to_set() == layer_shards(ss@, "runtime"@),
        r.2 == forall|i: int| 0 <= i < ss@.len() ==> (#[trigger] ss@[i].layer@ == "source"@ || ss@[i].layer@ == "runtime"@),
{
    let mut source: Vec<String> = Vec::new();
    let mut runtime: Vec<String> = Vec::new();
    let mut controlled = true;
    let mut i: usize = 0;
    while i < ss.len()
        invariant
            i <= ss.len(),
            sorted(source.deep_view()),
            sorted(runtime.deep_view()),
            source.deep_view().to_set() == layer_shards(ss@.take(i as int), "source"@),
            runtime.deep_view().to_set() == layer_shards(ss@.take(i as int), "runtime"@),
            controlled == forall|k: int| 0 <= k < i ==> (#[trigger] ss@[k].layer@ == "source"@ || ss@[k].layer@ == "runtime"@),
        decreases ss.len() - i,
    {
        let sh = &ss[i];
        let is_source = eq_str(sh.layer.as_str(), "source");
        let is_runtime = eq_str(sh.layer.as_str(), "runtime");
        if is_source {
            set_insert(&mut source, sh.shard_id.clone());
        }
        if is_runtime {
            set_insert(&mut runtime, sh.shard_id.clone());
        }
        assert(ss@.take(i + 1)[i as int] == ss@[i as int]);
        assert forall|k: int| 0 <= k < i implies ss@.take(i + 1)[k] == #[trigger] ss@.take(i as int)[k] by {}
        assert(source.deep_view().to_set() =~= layer_shards(ss@.take(i + 1), "source"@));
        assert(runtime.deep_view().to_set() =~= layer_shards(ss@.take(i + 1), "runtime"@));
        controlled = controlled && (is_source || is_runtime);
        i += 1;
    }
    assert(ss@.take(ss.len() as int) =~= ss@);
    (source, runtime, controlled)
}

fn validate_profile(p: &ImpactProfile, shard_ids: &Vec<String>, source: &Vec<String>) -> (r: Result<(), String>)
    ensures
        r is Ok <==> profile_ok(*p, shard_ids.deep_view().to_set(), source.deep_view().to_set()),
{
    let id = p.profile_id.as_str();
    let expected: Option<&str> = if eq_str(id, "candidate-full-release") {
        Some("full")
    } else if eq_str(id, "diagnostic-module") {
        Some("selective")
    } else if eq_str(id, "main-full-source") {
        Some("full")
    } else if eq_str(id, "nightly-full-system") {
        Some("full")
    } else if eq_str(id, "pr-selective") {
        Some("selective")
    } else {
        None
    };
    match expected {
        Some(e) => {
            if !eq_str(e, p.selection.as_str()) {
                let head = cat3("acceptance-impact: profile ", id, " must use ");
                return Err(cat3(head.as_str(), e, " selection"));
            }
        },
        None => {
            return Err(cat("acceptance-impact: unknown profile ", id));
        },
    }
    let selected = unique_ids(&p.shards, "profile shard")?;
    proof {
        crate::strset::lemma_to_set_empty(selected.deep_view());
        crate::strset::lemma_to_set_empty(p.shards.deep_view());
    }
    if selected.len() == 0 || !is_subset(&selected, shard_ids) {
        return Err(cat3("acceptance-impact: profile ", id, " has an empty or unknown shard set"));
    }
    let always = unique_ids(&p.always_shards, "always shard")?;
    if !is_subset(&always, &selected) {
        return Err(cat3("acceptance-impact: profile ", id, " always shard must be eligible in that profile"));
    }
    if eq_str(p.selection.as_str(), "selective") && !is_subset(&selected, source) {
        return Err(cat3("acceptance-impact: selective profile ", id, " may only select source shards"));
    }
    if eq_str(id, "main-full-source") && !same_set(&selected, source) {
        return Err(to_string("acceptance-impact: main-full-source must enumerate every source shard"));
    }
    if (eq_str(id, "nightly-full-system") || eq_str(id, "candidate-full-release")) && !same_set(
        &selected,
        shard_ids,
    ) {
        return Err(cat3("acceptance-impact: profile ", id, " must enumerate every system shard"));
    }
    Ok(())
}

/// Checks the fixed profile set against the registry's shards.
pub fn validate_profiles(registry: &ImpactRegistry, shard_ids: &Vec<String>) -> (r: Result<(), String>)
    ensures
        r is Ok <==> profiles_valid(*registry, shard_ids.deep_view().to_set()),
{
    let ids = profile_id_list(&registry.profiles);
    let profiles = unique_ids(&ids, "profile")?;
    let expected = strings_of(
        &vec!["candidate-full-release", "diagnostic-module", "main-full-source", "nightly-full-system", "pr-selective"],
    );
    assert(expected.deep_view() =~= expected_profile_ids());
    if !same_set(&profiles, &expected) {
        return Err(
            to_string("acceptance-impact: fixed profile set is incomplete or contains an unknown profile"),
        );
    }
    let (source, runtime, controlled) = layer_sets(&registry.shards);
    proof {
        crate::strset::lemma_to_set_empty(source.deep_view());
        crate::strset::lemma_to_set_empty(runtime.deep_view());
    }
    if source.len() == 0 || runtime.len() == 0 || !controlled {
        return Err(
            to_string(
                "acceptance-impact: registry requires nonempty controlled source and runtime shard layers",
            ),
        );
    }
    let ghost ps = registry.profiles@;
    let mut i: usize = 0;
    while i < registry.profiles.len()
        invariant
            ps == registry.profiles@,
            i <= ps.len(),
            source.deep_view().to_set() == layer_shards(registry.shards@, "source"@),
            forall|k: int|
                0 <= k < i ==> profile_ok(
                    #[trigger] ps[k],
                    shard_ids.deep_view().to_set(),
                    layer_shards(registry.shards@, "source"@),
                ),
        decreases ps.len() - i,
    {
        validate_profile(&registry.profiles[i], shard_ids, &source)?;
        i += 1;
    }
    Ok(())
}

pub open spec fn artifact_ids(a: Seq<ArtifactInput>) -> Seq<Seq<char>> {
    Seq::new(a.len(), |i: int| a[i].artifact_id@)
}

pub open spec fn module_id_seq(ms: Seq<ImpactModule>) -> Seq<Seq<char>> {
    Seq::new(ms.len(), |i: int| ms[i].module_id@)
}

pub open spec fn shard_id_seq(ss: Seq<ImpactShard>) -> Seq<Seq<char>> {
    Seq::new(ss.len(), |i: int| ss[i].shard_id@)
}

/// The identity contract each artifact must declare.
pub open spec fn artifact_contract(id: Seq<char>) -> Option<Seq<char>> {
    if id == "android-arm64-apk"@ {
        Some("apk-digest-and-signer"@)
    } else if id == "android-x86-apk"@ {
        Some("apk-digest"@)
    } else if id == "docker-image"@ {
        Some("image-id-and-archive-digest"@)
    } else if id == "macos-package"@ {
        Some("candidate-file-digest"@)
    } else if id == "receipt-bundle"@ {
        Some("producer-contract-and-head"@)
    } else if id == "remote-fixture"@ {
        Some("script-and-config-digest"@)
    } else if id == "source"@ {
        Some("exact-head"@)
    } else if id == "web-dist"@ {
        Some("content-digest"@)
    } else if id == "windows-package"@ {
        Some("candidate-file-digest"@)
    } else {
        None
    }
}

pub open spec fn expected_artifact_ids() -> Seq<Seq<char>> {
    seq![
        "android-arm64-apk"@,
        "android-x86-apk"@,
        "docker-image"@,
        "macos-package"@,
        "receipt-bundle"@,
        "remote-fixture"@,
        "source"@,
        "web-dist"@,
        "windows-package"@,
    ]
}

/// The whole impact registry is valid against the acceptance producers,
/// their CI jobs and the committed paths.
pub open spec fn registry_valid(
    reg: ImpactRegistry,
    producers: Set<Seq<char>>,
    map: Seq<(String, String)>,
    committed: Seq<Seq<char>>,
) -> bool {
    let arts = artifact_ids(reg.artifacts@);
    let mids = module_id_seq(reg.modules@);
    let sids = shard_id_seq(reg.shards@);
    &&& reg.schema == 1
    &&& reg.mode@ == "shadow-only"@
    &&& unique_ids_spec(arts)
    &&& arts.to_set() == expected_artifact_ids().to_set()
    &&& forall|i: int|
        0 <= i < reg.artifacts@.len() ==> artifact_contract(#[trigger] reg.artifacts@[i].artifact_id@) == Some(
            reg.artifacts@[i].identity@,
        )
    &&& unique_ids_spec(mids)
    &&& unique_ids_spec(sids)
    &&& profiles_valid(reg, sids.to_set())
    &&& modules_valid(reg, mids.to_set(), sids.to_set(), committed)
    &&& shards_valid(reg, arts.to_set(), producers, map)
    &&& acyclic_spec(reg.modules@, mids.to_set())
}

fn artifact_contract_ok(a: &ArtifactInput) -> (r: bool)
    ensures
        r == (artifact_contract(a.artifact_id@) == Some(a.identity@)),
{
    let id = a.artifact_id.as_str();
    let want: Option<&str> = if eq_str(id, "android-arm64-apk") {
        Some("apk-digest-and-signer")
    } else if eq_str(id, "android-x86-apk") {
        Some("apk-digest")
    } else if eq_str(id, "docker-image") {
        Some("image-id-and-archive-digest")
    } else if eq_str(id, "macos-package") {
        Some("candidate-file-digest")
    } else if eq_str(id, "receipt-bundle") {
        Some("producer-contract-and-head")
    } else if eq_str(id, "remote-fixture") {
        Some("script-and-config-digest")
    } else if eq_str(id, "source") {
        Some("exact-head")
    } else if eq_str(id, "web-dist") {
        Some("content-digest")
    } else if eq_str(id, "windows-package") {
        Some("candidate-file-digest")
    } else {
        None
    };
    match want {
        Some(w) => eq_str(w, a.identity.as_str()),
        None => false,
    }
}

/// Validates the registry document against the acceptance producers, their
/// full-CI jobs and the committed paths of the repository.
pub fn validate(
    registry: &ImpactRegistry,
    producer_ids: &Vec<String>,
    ci_job_by_producer: &Vec<(String, String)>,
    committed: &Vec<String>,
) -> (r: Result<(), String>)
    ensures
        r is Ok <==> registry_valid(
            *registry,
            producer_ids.deep_view().to_set(),
            ci_job_by_producer@,
            committed.deep_view(),
        ),
{
    if registry.schema != 1 || !eq_str(registry.mode.as_str(), "shadow-only") {
        return Err(to_string("acceptance-impact: registry must use schema 1 and shadow-only mode"));
    }
    let mut art_list: Vec<String> = Vec::new();
    let mut contracts_ok = true;
    let mut i: usize = 0;
    while i < registry.artifacts.len()
        invariant
            i <= registry.artifacts.len(),
            art_list.deep_view() =~= Seq::new(i as nat, |k: int| registry.artifacts@[k].artifact_id@),
            contracts_ok == forall|k: int|
                0 <= k < i ==> artifact_contract(#[trigger] registry.artifacts@[k].artifact_id@) == Some(
                    registry.artifacts@[k].identity@,
                ),
        decreases registry.artifacts.len() - i,
    {
        let ghost a0 = art_list.deep_view();
        art_list.push(registry.artifacts[i].artifact_id.clone());
        assert(art_list.deep_view() =~= a0.push(registry.artifacts@[i as int].artifact_id@));
        contracts_ok = contracts_ok && artifact_contract_ok(&registry.artifacts[i]);
        i += 1;
    }
    let artifacts = unique_ids(&art_list, "artifact")?;
    let expected = strings_of(
        &vec![
            "android-arm64-apk",
            "android-x86-apk",
            "docker-image",
            "macos-package",
            "receipt-bundle",
            "remote-fixture",
            "source",
            "web-dist",
            "windows-package",
        ],
    );
    assert(expected.deep_view() =~= expected_artifact_ids());
    if !same_set(&artifacts, &expected) || !contracts_ok {
        return Err(to_string("acceptance-impact: artifact identity contracts are incomplete or unknown"));
    }
    let mut mod_list: Vec<String> = Vec::new();
    let mut i: usize = 0;
    while i < registry.modules.len()
        invariant
            i <= registry.modules.len(),
            mod_list.deep_view() =~= Seq::new(i as nat, |k: int| registry.modules@[k].module_id@),
        decreases registry.modules.len() - i,
    {
        let ghost a0 = mod_list.deep_view();
        mod_list.push(registry.modules[i].module_id.clone());
        assert(mod_list.deep_view() =~= a0.push(registry.modules@[i as int].module_id@));
        i += 1;
    }
    let modules = unique_ids(&mod_list, "module")?;
    let mut shard_list: Vec<String> = Vec::new();
    let mut i: usize = 0;
    while i < registry.shards.len()
        invariant
            i <= registry.shards.len(),
            shard_list.deep_view() =~= Seq::new(i as nat, |k: int| registry.shards@[k].shard_id@),
        decreases registry.shards.len() - i,
    {
        let ghost a0 = shard_list.deep_view();
        shard_list.push(registry.shards[i].shard_id.clone());
        assert(shard_list.deep_view() =~= a0.push(registry.shards@[i as int].shard_id@));
        i += 1;
    }
    let shards = unique_ids(&shard_list, "shard")?;
    validate_profiles(registry, &shards)?;
    validate_modules(registry, &modules, &shards, committed)?;
    validate_shards(registry, &artifacts, producer_ids, ci_job_by_producer)?;
    proof {
        let ms = registry.modules@;
        let mids = module_id_seq(ms);
        assert forall|i: int| 0 <= i < ms.len() implies modules.deep_view().to_set().contains(#[trigger] ms[i].module_id@) by {
            assert(mids[i] == ms[i].module_id@);
        }
        assert forall|i: int| 0 <= i < ms.len() implies (#[trigger] ms[i]).dependencies.deep_view().to_set().subset_of(
            modules.deep_view().to_set(),
        ) by {
            assert(super::path_rules::module_rules_ok(ms[i], modules.deep_view().to_set(), shards.deep_view().to_set()));
        }
    }
    validate_module_cycles(&registry.modules, &modules)
}

} // verus!
