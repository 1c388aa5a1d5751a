//! Producer selection, host compatibility and execution preflight.
//!
//! The host operating system and which required environment variables are
//! set (and non-empty) are handed in by the caller.
use super::model::{Producer, ProducerRegistry};
use super::registry::{executable_kind, find_producer, producer_deps, producer_index, producers_acyclic, settled};
use super::run_args::RunArgs;
use crate::acceptance_matrix::model::MatrixRow;
use crate::strset::{contains_str_in, lemma_lex_asymmetric, lemma_lex_irreflexive, lemma_lex_transitive, lex_lt, str_lt};
use crate::text::{cat, cat3, chars_of, decimal, decimal_string, eq_str, join, joined, to_string};
use vstd::prelude::*;

verus! {

/// What one producer would do on this run.
#[derive(Debug)]
pub struct ProducerPlan<'a> {
    pub producer: &'a Producer,
    /// The matrix rows of the producer's evidence, in the producer's order.
    pub evidence: Vec<&'a MatrixRow>,
    pub selected: bool,
    pub host_supported: bool,
    pub tag_ready_host_supported: bool,
    pub missing_env: Vec<String>,
}

/// The last executable row binding evidence `id`.
pub open spec fn executable_row(rows: Seq<MatrixRow>, id: Seq<char>) -> Option<MatrixRow> {
    if exists|i: int|
        0 <= i < rows.len() && (#[trigger] rows[i]).evidence_id@ == id && executable_kind(rows[i].evidence_kind@)
            && forall|j: int|
            i < j < rows.len() ==> !((#[trigger] rows[j]).evidence_id@ == id && executable_kind(rows[j].evidence_kind@)) {
        Some(
            rows[choose|i: int|
                0 <= i < rows.len() && (#[trigger] rows[i]).evidence_id@ == id && executable_kind(rows[i].evidence_kind@)
                    && forall|j: int|
                    i < j < rows.len() ==> !((#[trigger] rows[j]).evidence_id@ == id && executable_kind(
                        rows[j].evidence_kind@,
                    ))],
        )
    } else {
        None
    }
}

/// The executable rows of the first `n` evidence ids, in order, skipping ids
/// without one.
pub open spec fn evidence_rows(ids: Seq<String>, rows: Seq<MatrixRow>, n: int) -> Seq<MatrixRow>
    decreases n,
{
    if n <= 0 {
        Seq::empty()
    } else {
        match executable_row(rows, ids[n - 1]@) {
            Some(r) => evidence_rows(ids, rows, n - 1).push(r),
            None => evidence_rows(ids, rows, n - 1),
        }
    }
}

pub open spec fn evidence_of(p: Producer, rows: Seq<MatrixRow>) -> Seq<MatrixRow> {
    evidence_rows(p.evidence_ids@, rows, p.evidence_ids@.len() as int)
}

/// A filter selects the producer: no producer filter or one naming it, and
/// no evidence filter or one naming any of its evidence (which selects the
/// producer's whole evidence group).
pub open spec fn is_selected(args: RunArgs, p: Producer) -> bool {
    &&& (args.producers@.len() == 0 || args.producers.deep_view().contains(p.producer_id@))
    &&& (args.evidence_ids@.len() == 0 || exists|k: int|
        0 <= k < p.evidence_ids@.len() && args.evidence_ids.deep_view().contains(#[trigger] p.evidence_ids@[k]@))
}

/// A tag-ready receipt for a surface can only be produced on its platform.
pub open spec fn tag_ready_host_supports_spec(surface: Seq<char>, host: Seq<char>) -> bool {
    if surface == "docker"@ {
        host == "linux"@
    } else if surface == "desktop"@ {
        host == "windows"@
    } else {
        true
    }
}

pub open spec fn all_rows_supported(rows: Seq<MatrixRow>, host: Seq<char>) -> bool {
    forall|i: int| 0 <= i < rows.len() ==> tag_ready_host_supports_spec((#[trigger] rows[i]).surface@, host)
}

/// The first `n` required variables that are not set.
pub open spec fn missing_of(names: Seq<String>, set_env: Seq<Seq<char>>, n: int) -> Seq<Seq<char>>
    decreases n,
{
    if n <= 0 {
        Seq::empty()
    } else if set_env.contains(names[n - 1]@) {
        missing_of(names, set_env, n - 1)
    } else {
        missing_of(names, set_env, n - 1).push(names[n - 1]@)
    }
}

pub open spec fn rows_view(v: Seq<&MatrixRow>) -> Seq<MatrixRow> {
    v.map_values(|r: &MatrixRow| *r)
}

/// The plan holds what its producer would do on `host` with the variables
/// `set_env` set.
pub open spec fn plan_matches(
    plan: ProducerPlan,
    args: RunArgs,
    rows: Seq<MatrixRow>,
    host: Seq<char>,
    set_env: Seq<Seq<char>>,
) -> bool {
    let p = *plan.producer;
    &&& rows_view(plan.evidence@) == evidence_of(p, rows)
    &&& plan.selected == is_selected(args, p)
    &&& plan.host_supported == p.host_os.deep_view().contains(host)
    &&& plan.tag_ready_host_supported == (args.tier@ != "tag-ready"@ || all_rows_supported(evidence_of(p, rows), host))
    &&& plan.missing_env.deep_view() == missing_of(p.required_env@, set_env, p.required_env@.len() as int)
}

/// The first `n` producers of the tier.
pub open spec fn tier_producers(ps: Seq<Producer>, tier: Seq<char>, n: int) -> Seq<Producer>
    decreases n,
{
    if n <= 0 {
        Seq::empty()
    } else if ps[n - 1].tiers.deep_view().contains(tier) {
        tier_producers(ps, tier, n - 1).push(ps[n - 1])
    } else {
        tier_producers(ps, tier, n - 1)
    }
}

pub open spec fn tier_of(ps: Seq<Producer>, tier: Seq<char>) -> Seq<Producer> {
    tier_producers(ps, tier, ps.len() as int)
}

/// How many dependency levels lie below a producer, looking at most `fuel`
/// levels down. Each dependency counts through the last producer registered
/// under its id; dependencies without one are ignored.
pub open spec fn depth(ps: Seq<Producer>, p: Producer, fuel: nat) -> nat
    decreases fuel, 0int, 0int,
{
    if fuel == 0 {
        0
    } else {
        deps_depth(ps, p.dependencies@, p.dependencies@.len() as int, (fuel - 1) as nat)
    }
}

/// The deepest of the first `n` dependencies, plus one; zero when none counts.
pub open spec fn deps_depth(ps: Seq<Producer>, deps: Seq<String>, n: int, fuel: nat) -> nat
    decreases fuel, 1int, n,
{
    if n <= 0 {
        0
    } else {
        let rest = deps_depth(ps, deps, n - 1, fuel);
        match producer_index(ps, deps[n - 1]@) {
            Some(k) => if 0 <= k < ps.len() {
                let d = depth(ps, ps[k], fuel) + 1;
                if d > rest {
                    d
                } else {
                    rest
                }
            } else {
                rest
            },
            None => rest,
        }
    }
}

/// The depth that orders a run: dependencies are looked up at most as many
/// levels down as there are producers, which reaches the true depth of every
/// producer of an acyclic registry.
pub open spec fn plan_depth(ps: Seq<Producer>, p: Producer) -> nat {
    depth(ps, p, ps.len())
}

/// `a` runs strictly before `b`: shallower first, then by producer id.
pub open spec fn runs_before(ps: Seq<Producer>, a: Producer, b: Producer) -> bool {
    plan_depth(ps, a) < plan_depth(ps, b) || (plan_depth(ps, a) == plan_depth(ps, b) && lex_lt(
        a.producer_id@,
        b.producer_id@,
    ))
}

pub open spec fn plan_producers(plans: Seq<ProducerPlan>) -> Seq<Producer> {
    plans.map_values(|pl: ProducerPlan| *pl.producer)
}

/// The ids of the selected producers of the tier.
pub open spec fn selected_ids(args: RunArgs, tp: Seq<Producer>) -> Set<Seq<char>> {
    Set::new(|id: Seq<char>| exists|i: int| 0 <= i < tp.len() && is_selected(args, #[trigger] tp[i]) && tp[i].producer_id@ == id)
}

/// The refusal of a selected producer whose dependency the filters left out.
pub open spec fn dependency_error(id: Seq<char>, dep: Seq<char>) -> Seq<char> {
    "acceptance-run: selected producer "@ + id + " requires dependency "@ + dep
        + "; filters may not create a partial dependency plan"@
}

/// Every selected producer's dependencies are selected too.
pub open spec fn dependencies_selected(args: RunArgs, tp: Seq<Producer>) -> bool {
    forall|i: int, d: int|
        0 <= i < tp.len() && is_selected(args, tp[i]) && 0 <= d < tp[i].dependencies@.len() ==> selected_ids(args, tp).contains(
            (#[trigger] tp[i].dependencies@[d])@,
        )
}

pub open spec fn known_id(ps: Seq<Producer>, id: Seq<char>) -> bool {
    exists|j: int| 0 <= j < ps.len() && (#[trigger] ps[j]).producer_id@ == id
}

pub open spec fn executable_id(rows: Seq<MatrixRow>, id: Seq<char>) -> bool {
    exists|j: int| 0 <= j < rows.len() && executable_kind((#[trigger] rows[j]).evidence_kind@) && rows[j].evidence_id@ == id
}

/// Every filter names a registered producer or executable evidence.
pub open spec fn filters_ok(args: RunArgs, ps: Seq<Producer>, rows: Seq<MatrixRow>) -> bool {
    &&& forall|k: int| 0 <= k < args.producers@.len() ==> known_id(ps, (#[trigger] args.producers@[k])@)
    &&& forall|k: int| 0 <= k < args.evidence_ids@.len() ==> executable_id(rows, (#[trigger] args.evidence_ids@[k])@)
}

/// The run has a plan: the filters are known, the tier has producers, the
/// filters select some of them and never cut a selected producer off from a
/// dependency.
pub open spec fn plan_ok(args: RunArgs, ps: Seq<Producer>, rows: Seq<MatrixRow>) -> bool {
    &&& filters_ok(args, ps, rows)
    &&& tier_of(ps, args.tier@).len() > 0
    &&& exists|i: int| 0 <= i < tier_of(ps, args.tier@).len() && is_selected(args, #[trigger] tier_of(ps, args.tier@)[i])
    &&& dependencies_selected(args, tier_of(ps, args.tier@))
}

impl<'a> ProducerPlan<'a> {
    /// Whether any of the plan's evidence is a receipt.
    pub fn emits_receipts(&self) -> (r: bool)
        ensures
            r == exists|i: int| 0 <= i < self.evidence@.len() && (#[trigger] self.evidence@[i]).evidence_kind@ == "receipt"@,
    {
        let mut i: usize = 0;
        while i < self.evidence.len()
            invariant
                i <= self.evidence@.len(),
                forall|q: int| 0 <= q < i ==> (#[trigger] self.evidence@[q]).evidence_kind@ != "receipt"@,
            decreases self.evidence@.len() - i,
        {
            if eq_str(self.evidence[i].evidence_kind.as_str(), "receipt") {
                return true;
            }
            i += 1;
        }
        false
    }
}

fn is_executable_kind(k: &str) -> (r: bool)
    ensures
        r == executable_kind(k@),
{
    eq_str(k, "test") || eq_str(k, "script") || eq_str(k, "receipt")
}

/// Checks that each producer filter names a registered producer and each
/// evidence filter names executable evidence of the matrix.
pub fn validate_filters(args: &RunArgs, registry: &ProducerRegistry, rows: &Vec<MatrixRow>) -> (r: Result<(), String>)
    ensures
        r is Ok <==> filters_ok(*args, registry.producers@, rows@),
{
    let ps = &registry.producers;
    let mut k: usize = 0;
    while k < args.producers.len()
        invariant
            ps@ == registry.producers@,
            k <= args.producers@.len(),
            forall|q: int| 0 <= q < k ==> known_id(ps@, (#[trigger] args.producers@[q])@),
        decreases args.producers@.len() - k,
    {
        let name = args.producers[k].as_str();
        match find_producer(ps, name) {
            Some(j) => {
                assert(ps@[j as int].producer_id@ == args.producers@[k as int]@);
            },
            None => {
                assert(forall|j: int| 0 <= j < ps@.len() ==> (#[trigger] ps@[j]).producer_id@ != args.producers@[k as int]@);
                return Err(cat("acceptance-run: unknown producer ", name));
            },
        }
        k += 1;
    }
    let mut k: usize = 0;
    while k < args.evidence_ids.len()
        invariant
            ps@ == registry.producers@,
            k <= args.evidence_ids@.len(),
            forall|q: int| 0 <= q < args.producers@.len() ==> known_id(ps@, (#[trigger] args.producers@[q])@),
            forall|q: int| 0 <= q < k ==> executable_id(rows@, (#[trigger] args.evidence_ids@[q])@),
        decreases args.evidence_ids@.len() - k,
    {
        let id = args.evidence_ids[k].as_str();
        let mut found = false;
        let mut j: usize = 0;
        while j < rows.len()
            invariant
                j <= rows@.len(),
                id@ == args.evidence_ids@[k as int]@,
                found ==> executable_id(rows@, id@),
                !found ==> forall|q: int|
                    0 <= q < j ==> !(executable_kind((#[trigger] rows@[q]).evidence_kind@) && rows@[q].evidence_id@ == id@),
            decreases rows@.len() - j,
        {
            if is_executable_kind(rows[j].evidence_kind.as_str()) && eq_str(rows[j].evidence_id.as_str(), id) {
                found = true;
            }
            j += 1;
        }
        if !found {
            return Err(cat("acceptance-run: unknown executable evidence ", id));
        }
        k += 1;
    }
    Ok(())
}

fn last_executable_row(rows: &Vec<MatrixRow>, id: &str) -> (r: Option<usize>)
    ensures
        match r {
            Some(i) => i < rows@.len() && executable_row(rows@, id@) == Some(rows@[i as int]),
            None => executable_row(rows@, id@) is None,
        },
{
    let mut i: usize = rows.len();
    while i > 0
        invariant
            i <= rows@.len(),
            forall|j: int| i <= j < rows@.len() ==> !((#[trigger] rows@[j]).evidence_id@ == id@ && executable_kind(rows@[j].evidence_kind@)),
        decreases i,
    {
        i -= 1;
        if eq_str(rows[i].evidence_id.as_str(), id) && is_executable_kind(rows[i].evidence_kind.as_str()) {
            proof {
                let c = choose|c: int|
                    0 <= c < rows@.len() && (#[trigger] rows@[c]).evidence_id@ == id@ && executable_kind(rows@[c].evidence_kind@)
                        && forall|j: int|
                        c < j < rows@.len() ==> !((#[trigger] rows@[j]).evidence_id@ == id@ && executable_kind(
                            rows@[j].evidence_kind@,
                        ));
                assert(rows@[i as int].evidence_id@ == id@ && executable_kind(rows@[i as int].evidence_kind@));
                if c < i {
                    assert(!(rows@[i as int].evidence_id@ == id@ && executable_kind(rows@[i as int].evidence_kind@)));
                } else if c > i {
                    assert(!(rows@[c].evidence_id@ == id@ && executable_kind(rows@[c].evidence_kind@)));
                }
            }
            return Some(i);
        }
    }
    None
}

fn evidence_for<'a>(p: &Producer, rows: &'a Vec<MatrixRow>) -> (r: Vec<&'a MatrixRow>)
    ensures
        rows_view(r@) == evidence_of(*p, rows@),
{
    let mut out: Vec<&'a MatrixRow> = Vec::new();
    let mut k: usize = 0;
    while k < p.evidence_ids.len()
        invariant
            k <= p.evidence_ids@.len(),
            rows_view(out@) == evidence_rows(p.evidence_ids@, rows@, k as int),
        decreases p.evidence_ids@.len() - k,
    {
        match last_executable_row(rows, p.evidence_ids[k].as_str()) {
            Some(i) => {
                let ghost before = out@;
                out.push(&rows[i]);
                assert(rows_view(out@) =~= rows_view(before).push(rows@[i as int]));
            },
            None => {},
        }
        k += 1;
    }
    out
}

fn selected_by(args: &RunArgs, p: &Producer) -> (r: bool)
    ensures
        r == is_selected(*args, *p),
{
    let by_producer = args.producers.len() == 0 || contains_str_in(&args.producers, p.producer_id.as_str());
    let mut by_evidence = args.evidence_ids.len() == 0;
    let mut k: usize = 0;
    while k < p.evidence_ids.len()
        invariant
            k <= p.evidence_ids@.len(),
            by_evidence == (args.evidence_ids@.len() == 0 || exists|q: int|
                0 <= q < k && args.evidence_ids.deep_view().contains(#[trigger] p.evidence_ids@[q]@)),
        decreases p.evidence_ids@.len() - k,
    {
        if contains_str_in(&args.evidence_ids, p.evidence_ids[k].as_str()) {
            by_evidence = true;
        }
        k += 1;
    }
    by_producer && by_evidence
}

/// Whether a tag-ready receipt row can be produced on `host`.
pub fn tag_ready_host_supports(row: &MatrixRow, host: &str) -> (r: bool)
    ensures
        r == tag_ready_host_supports_spec(row.surface@, host@),
{
    if eq_str(row.surface.as_str(), "docker") {
        eq_str(host, "linux")
    } else if eq_str(row.surface.as_str(), "desktop") {
        eq_str(host, "windows")
    } else {
        true
    }
}

fn missing_env_of(p: &Producer, set_env: &Vec<String>) -> (r: Vec<String>)
    ensures
        r.deep_view() == missing_of(p.required_env@, set_env.deep_view(), p.required_env@.len() as int),
{
    let mut out: Vec<String> = Vec::new();
    let mut k: usize = 0;
    while k < p.required_env.len()
        invariant
            k <= p.required_env@.len(),
            out.deep_view() == missing_of(p.required_env@, set_env.deep_view(), k as int),
        decreases p.required_env@.len() - k,
    {
        if !contains_str_in(set_env, p.required_env[k].as_str()) {
            let ghost before = out.deep_view();
            let name = to_string(p.required_env[k].as_str());
            out.push(name);
            assert(out.deep_view() =~= before.push(p.required_env@[k as int]@));
        }
        k += 1;
    }
    out
}

/// How many dependency levels lie below `p`, looking at most `fuel` levels
/// down.
pub fn dependency_depth(ps: &Vec<Producer>, p: &Producer, fuel: usize) -> (r: usize)
    ensures
        r == depth(ps@, *p, fuel as nat),
        r <= fuel,
    decreases fuel,
{
    if fuel == 0 {
        return 0;
    }
    let mut best: usize = 0;
    let mut k: usize = 0;
    while k < p.dependencies.len()
        invariant
            k <= p.dependencies@.len(),
            0 < fuel,
            best == deps_depth(ps@, p.dependencies@, k as int, (fuel - 1) as nat),
            best <= fuel,
        decreases p.dependencies@.len() - k,
    {
        match find_producer(ps, p.dependencies[k].as_str()) {
            Some(j) => {
                let d = dependency_depth(ps, &ps[j], fuel - 1) + 1;
                if d > best {
                    best = d;
                }
            },
            None => {},
        }
        k += 1;
    }
    best
}

/// No later producer runs strictly before an earlier one.
pub open spec fn run_ordered(ps: Seq<Producer>, s: Seq<Producer>) -> bool {
    forall|a: int, b: int| 0 <= a < b < s.len() ==> !runs_before(ps, #[trigger] s[b], #[trigger] s[a])
}

proof fn lemma_runs_before_order(ps: Seq<Producer>, a: Producer, b: Producer, c: Producer)
    ensures
        runs_before(ps, a, b) ==> !runs_before(ps, b, a),
        runs_before(ps, a, b) && runs_before(ps, b, c) ==> runs_before(ps, a, c),
{
    lemma_lex_asymmetric(a.producer_id@, b.producer_id@);
    lemma_lex_transitive(a.producer_id@, b.producer_id@, c.producer_id@);
}

proof fn lemma_insert_ordered(ps: Seq<Producer>, s: Seq<Producer>, pos: int, x: Producer)
    requires
        0 <= pos <= s.len(),
        run_ordered(ps, s),
        forall|q: int| 0 <= q < pos ==> !runs_before(ps, x, #[trigger] s[q]),
        pos < s.len() ==> runs_before(ps, x, s[pos]),
    ensures
        run_ordered(ps, s.insert(pos, x)),
{
    let t = s.insert(pos, x);
    s.insert_ensures(pos, x);
    assert forall|a: int, b: int| 0 <= a < b < t.len() implies !runs_before(ps, #[trigger] t[b], #[trigger] t[a]) by {
        if b < pos {
            assert(t[a] == s[a] && t[b] == s[b]);
        } else if b == pos {
            assert(t[a] == s[a]);
        } else if a == pos {
            assert(t[b] == s[b - 1]);
            lemma_runs_before_order(ps, x, s[pos], x);
            if b - 1 > pos {
                assert(!runs_before(ps, s[b - 1], s[pos]));
                lemma_runs_before_order(ps, s[b - 1], x, s[pos]);
            }
        } else if a < pos {
            assert(t[a] == s[a] && t[b] == s[b - 1]);
        } else {
            assert(t[a] == s[a - 1] && t[b] == s[b - 1]);
        }
    }
}

fn rows_supported(evidence: &Vec<&MatrixRow>, host: &str) -> (r: bool)
    ensures
        r == all_rows_supported(rows_view(evidence@), host@),
{
    let mut i: usize = 0;
    while i < evidence.len()
        invariant
            i <= evidence@.len(),
            forall|q: int| 0 <= q < i ==> tag_ready_host_supports_spec((#[trigger] rows_view(evidence@)[q]).surface@, host@),
        decreases evidence@.len() - i,
    {
        if !tag_ready_host_supports(evidence[i], host) {
            assert(rows_view(evidence@)[i as int] == *evidence@[i as int]);
            return false;
        }
        assert(rows_view(evidence@)[i as int] == *evidence@[i as int]);
        i += 1;
    }
    true
}

fn runs_before_exec(d: usize, id: &str, other_depth: usize, other: &str) -> (r: bool)
    ensures
        r == (d < other_depth || (d == other_depth && lex_lt(id@, other@))),
{
    d < other_depth || (d == other_depth && str_lt(id, other))
}

/// Two runs with the same members order and select the same way.
proof fn lemma_same_members(args: RunArgs, s1: Seq<Producer>, s2: Seq<Producer>)
    requires
        forall|p: Producer| s1.contains(p) <==> s2.contains(p),
    ensures
        selected_ids(args, s1) == selected_ids(args, s2),
        dependencies_selected(args, s1) <==> dependencies_selected(args, s2),
        (exists|i: int| 0 <= i < s1.len() && is_selected(args, #[trigger] s1[i])) <==> (exists|i: int|
            0 <= i < s2.len() && is_selected(args, #[trigger] s2[i])),
{
    assert forall|id: Seq<char>| selected_ids(args, s1).contains(id) implies selected_ids(args, s2).contains(id) by {
        let i = choose|i: int| 0 <= i < s1.len() && is_selected(args, #[trigger] s1[i]) && s1[i].producer_id@ == id;
        assert(s1.contains(s1[i]));
        let j = choose|j: int| 0 <= j < s2.len() && s2[j] == s1[i];
        assert(is_selected(args, s2[j]));
    }
    assert forall|id: Seq<char>| selected_ids(args, s2).contains(id) implies selected_ids(args, s1).contains(id) by {
        let i = choose|i: int| 0 <= i < s2.len() && is_selected(args, #[trigger] s2[i]) && s2[i].producer_id@ == id;
        assert(s2.contains(s2[i]));
        let j = choose|j: int| 0 <= j < s1.len() && s1[j] == s2[i];
        assert(is_selected(args, s1[j]));
    }
    assert(selected_ids(args, s1) =~= selected_ids(args, s2));
    if dependencies_selected(args, s1) {
        assert forall|i: int, d: int|
            0 <= i < s2.len() && is_selected(args, s2[i]) && 0 <= d < s2[i].dependencies@.len() implies selected_ids(
            args,
            s2,
        ).contains((#[trigger] s2[i].dependencies@[d])@) by {
            assert(s2.contains(s2[i]));
            let j = choose|j: int| 0 <= j < s1.len() && s1[j] == s2[i];
            assert(s1[j].dependencies@[d] == s2[i].dependencies@[d]);
        }
    }
    if dependencies_selected(args, s2) {
        assert forall|i: int, d: int|
            0 <= i < s1.len() && is_selected(args, s1[i]) && 0 <= d < s1[i].dependencies@.len() implies selected_ids(
            args,
            s1,
        ).contains((#[trigger] s1[i].dependencies@[d])@) by {
            assert(s1.contains(s1[i]));
            let j = choose|j: int| 0 <= j < s2.len() && s2[j] == s1[i];
            assert(s2[j].dependencies@[d] == s1[i].dependencies@[d]);
        }
    }
    if exists|i: int| 0 <= i < s1.len() && is_selected(args, #[trigger] s1[i]) {
        let i = choose|i: int| 0 <= i < s1.len() && is_selected(args, #[trigger] s1[i]);
        assert(s1.contains(s1[i]));
        let j = choose|j: int| 0 <= j < s2.len() && s2[j] == s1[i];
        assert(is_selected(args, s2[j]));
    }
    if exists|i: int| 0 <= i < s2.len() && is_selected(args, #[trigger] s2[i]) {
        let i = choose|i: int| 0 <= i < s2.len() && is_selected(args, #[trigger] s2[i]);
        assert(s2.contains(s2[i]));
        let j = choose|j: int| 0 <= j < s1.len() && s1[j] == s2[i];
        assert(is_selected(args, s1[j]));
    }
}

/// The plan of one producer, with its run depth.
fn plan_one<'a>(
    args: &RunArgs,
    ps: &Vec<Producer>,
    p: &'a Producer,
    rows: &'a Vec<MatrixRow>,
    host: &str,
    set_env: &Vec<String>,
) -> (r: (ProducerPlan<'a>, usize))
    ensures
        plan_matches(r.0, *args, rows@, host@, set_env.deep_view()),
        *r.0.producer == *p,
        r.1 == plan_depth(ps@, *p),
{
    let evidence = evidence_for(p, rows);
    let selected = selected_by(args, p);
    let host_supported = contains_str_in(&p.host_os, host);
    let tag_ready_host_supported = !eq_str(args.tier.as_str(), "tag-ready") || rows_supported(&evidence, host);
    let missing_env = missing_env_of(p, set_env);
    let d = dependency_depth(ps, p, ps.len());
    (ProducerPlan { producer: p, evidence, selected, host_supported, tag_ready_host_supported, missing_env }, d)
}

/// Plans the run of every producer of the requested tier, in run order
/// (shallower dependency depth first, then by producer id), and refuses
/// unknown filters, a tier without producers, filters that select nothing,
/// and filters that cut a selected producer off from a dependency. `host`
/// is the operating system the run is on; `set_env` names the environment
/// variables that are set and non-empty.
pub fn build_plan<'a>(
    args: &RunArgs,
    registry: &'a ProducerRegistry,
    rows: &'a Vec<MatrixRow>,
    host: &str,
    set_env: &Vec<String>,
) -> (r: Result<Vec<ProducerPlan<'a>>, String>)
    ensures
        r is Ok <==> plan_ok(*args, registry.producers@, rows@),
        r matches Ok(plans) ==> {
            &&& plan_producers(plans@).to_multiset() == tier_of(registry.producers@, args.tier@).to_multiset()
            &&& forall|i: int| 0 <= i < plans@.len() ==> plan_matches(#[trigger] plans@[i], *args, rows@, host@, set_env.deep_view())
            &&& run_ordered(registry.producers@, plan_producers(plans@))
            &&& dependencies_selected(*args, plan_producers(plans@))
        },
        r matches Err(e) ==> (filters_ok(*args, registry.producers@, rows@) && tier_of(registry.producers@, args.tier@).len()
            > 0 && (exists|i: int|
            0 <= i < tier_of(registry.producers@, args.tier@).len() && is_selected(
                *args,
                #[trigger] tier_of(registry.producers@, args.tier@)[i],
            )) ==> exists|p: Producer, d: Seq<char>|
            #![trigger tier_of(registry.producers@, args.tier@).contains(p), dependency_error(p.producer_id@, d)]
            tier_of(registry.producers@, args.tier@).contains(p) && is_selected(*args, p)
                && p.dependencies.deep_view().contains(d) && !selected_ids(
                *args,
                tier_of(registry.producers@, args.tier@),
            ).contains(d) && e@ == dependency_error(p.producer_id@, d)),
{
    broadcast use vstd::seq_lib::group_to_multiset_ensures;

    validate_filters(args, registry, rows)?;
    let ps = &registry.producers;
    let ghost pv = ps@;
    let ghost tier = args.tier@;
    let ghost env = set_env.deep_view();
    let mut plans: Vec<ProducerPlan<'a>> = Vec::new();
    let mut depths: Vec<usize> = Vec::new();
    let mut i: usize = 0;
    while i < ps.len()
        invariant
            pv == ps@,
            pv == registry.producers@,
            tier == args.tier@,
            env == set_env.deep_view(),
            i <= pv.len(),
            depths@.len() == plans@.len(),
            forall|q: int| 0 <= q < plans@.len() ==> #[trigger] depths@[q] == plan_depth(pv, *plans@[q].producer),
            forall|q: int| 0 <= q < plans@.len() ==> plan_matches(#[trigger] plans@[q], *args, rows@, host@, env),
            plan_producers(plans@).to_multiset() == tier_producers(pv, tier, i as int).to_multiset(),
            run_ordered(pv, plan_producers(plans@)),
        decreases pv.len() - i,
    {
        let p = &ps[i];
        if contains_str_in(&p.tiers, args.tier.as_str()) {
            let (plan, d) = plan_one(args, ps, p, rows, host, set_env);
            let mut pos: usize = 0;
            loop
                invariant
                    pos <= plans@.len(),
                    depths@.len() == plans@.len(),
                    forall|q: int| 0 <= q < plans@.len() ==> #[trigger] depths@[q] == plan_depth(pv, *plans@[q].producer),
                    d == plan_depth(pv, *p),
                    pv == ps@,
                    forall|q: int| 0 <= q < pos ==> !runs_before(pv, *p, #[trigger] plan_producers(plans@)[q]),
                ensures
                    pos <= plans@.len(),
                    forall|q: int| 0 <= q < pos ==> !runs_before(pv, *p, #[trigger] plan_producers(plans@)[q]),
                    pos < plans@.len() ==> runs_before(pv, *p, plan_producers(plans@)[pos as int]),
                decreases plans@.len() - pos,
            {
                if pos >= plans.len() {
                    break;
                }
                let other = plans[pos].producer;
                assert(plan_producers(plans@)[pos as int] == *other);
                if runs_before_exec(d, p.producer_id.as_str(), depths[pos], other.producer_id.as_str()) {
                    break;
                }
                pos += 1;
            }
            let ghost old_plans = plans@;
            let ghost old_depths = depths@;
            proof {
                lemma_insert_ordered(pv, plan_producers(old_plans), pos as int, *p);
                old_plans.insert_ensures(pos as int, plan);
                old_depths.insert_ensures(pos as int, d);
            }
            plans.insert(pos, plan);
            depths.insert(pos, d);
            proof {
                assert(plan_producers(plans@) =~= plan_producers(old_plans).insert(pos as int, *p));
                vstd::seq_lib::to_multiset_insert(plan_producers(old_plans), pos as int, *p);
                assert(tier_producers(pv, tier, i + 1) == tier_producers(pv, tier, i as int).push(pv[i as int]));
                vstd::seq_lib::to_multiset_build(tier_producers(pv, tier, i as int), pv[i as int]);
                assert forall|q: int| 0 <= q < plans@.len() implies #[trigger] depths@[q] == plan_depth(pv, *plans@[q].producer) by {
                    if q > pos {
                        assert(plans@[q] == old_plans[q - 1] && depths@[q] == old_depths[q - 1]);
                    } else if q < pos {
                        assert(plans@[q] == old_plans[q] && depths@[q] == old_depths[q]);
                    }
                }
                assert forall|q: int| 0 <= q < plans@.len() implies plan_matches(#[trigger] plans@[q], *args, rows@, host@, env) by {
                    if q > pos {
                        assert(plans@[q] == old_plans[q - 1]);
                    } else if q < pos {
                        assert(plans@[q] == old_plans[q]);
                    }
                }
            }
        } else {
            assert(tier_producers(pv, tier, i + 1) == tier_producers(pv, tier, i as int));
        }
        i += 1;
    }
    let ghost tp = tier_of(pv, tier);
    proof {
        assert forall|x: Producer| plan_producers(plans@).contains(x) <==> tp.contains(x) by {
            assert(plan_producers(plans@).contains(x) <==> plan_producers(plans@).to_multiset().count(x) > 0);
            assert(tp.contains(x) <==> tp.to_multiset().count(x) > 0);
        }
        lemma_same_members(*args, plan_producers(plans@), tp);
        assert(plan_producers(plans@).len() == tp.len()) by {
            assert(plan_producers(plans@).to_multiset().len() == tp.to_multiset().len());
        }
    }
    if plans.len() == 0 {
        return Err(cat3("acceptance-run: tier ", args.tier.as_str(), " has no registered producers"));
    }
    let mut selected: Vec<String> = Vec::new();
    let mut k: usize = 0;
    while k < plans.len()
        invariant
            k <= plans@.len(),
            forall|x: Seq<char>|
                selected.deep_view().contains(x) <==> exists|q: int|
                    0 <= q < k && is_selected(*args, #[trigger] plan_producers(plans@)[q]) && plan_producers(plans@)[q].producer_id@ == x,
            forall|q: int| 0 <= q < plans@.len() ==> plan_matches(#[trigger] plans@[q], *args, rows@, host@, env),
        decreases plans@.len() - k,
    {
        assert(plan_matches(plans@[k as int], *args, rows@, host@, env));
        assert(plan_producers(plans@)[k as int] == *plans@[k as int].producer);
        if plans[k].selected {
            let ghost before = selected.deep_view();
            selected.push(to_string(plans[k].producer.producer_id.as_str()));
            assert(selected.deep_view() =~= before.push(plans@[k as int].producer.producer_id@));
            assert forall|x: Seq<char>|
                selected.deep_view().contains(x) <==> exists|q: int|
                    0 <= q < k + 1 && is_selected(*args, #[trigger] plan_producers(plans@)[q]) && plan_producers(plans@)[q].producer_id@
                        == x by {
                if selected.deep_view().contains(x) && !before.contains(x) {
                    assert(x == plans@[k as int].producer.producer_id@);
                }
                if exists|q: int|
                    0 <= q < k + 1 && is_selected(*args, #[trigger] plan_producers(plans@)[q]) && plan_producers(plans@)[q].producer_id@
                        == x {
                    let q = choose|q: int|
                        0 <= q < k + 1 && is_selected(*args, #[trigger] plan_producers(plans@)[q]) && plan_producers(plans@)[q].producer_id@
                            == x;
                    if q < k {
                        assert(before.contains(x));
                        let w = choose|w: int| 0 <= w < before.len() && before[w] == x;
                        assert(selected.deep_view()[w] == x);
                    } else {
                        assert(selected.deep_view()[before.len() as int] == x);
                    }
                }
            }
        } else {
            assert forall|x: Seq<char>|
                selected.deep_view().contains(x) <==> exists|q: int|
                    0 <= q < k + 1 && is_selected(*args, #[trigger] plan_producers(plans@)[q]) && plan_producers(plans@)[q].producer_id@
                        == x by {
                if exists|q: int|
                    0 <= q < k + 1 && is_selected(*args, #[trigger] plan_producers(plans@)[q]) && plan_producers(plans@)[q].producer_id@
                        == x {
                    let q = choose|q: int|
                        0 <= q < k + 1 && is_selected(*args, #[trigger] plan_producers(plans@)[q]) && plan_producers(plans@)[q].producer_id@
                            == x;
                    assert(q < k);
                }
            }
        }
        k += 1;
    }
    let ghost pp = plan_producers(plans@);
    proof {
        assert forall|x: Seq<char>| selected.deep_view().contains(x) <==> selected_ids(*args, pp).contains(x) by {}
    }
    if selected.len() == 0 {
        proof {
            if exists|q: int| 0 <= q < pp.len() && is_selected(*args, #[trigger] pp[q]) {
                let q = choose|q: int| 0 <= q < pp.len() && is_selected(*args, #[trigger] pp[q]);
                assert(selected_ids(*args, pp).contains(pp[q].producer_id@));
                assert(selected.deep_view().contains(pp[q].producer_id@));
            }
        }
        return Err(cat3("acceptance-run: filters selected no producers for tier ", args.tier.as_str(), ""));
    }
    proof {
        let x = selected.deep_view()[0];
        assert(selected.deep_view().contains(x));
        let q = choose|q: int| 0 <= q < pp.len() && is_selected(*args, #[trigger] pp[q]) && pp[q].producer_id@ == x;
    }
    let mut k: usize = 0;
    while k < plans.len()
        invariant
            k <= plans@.len(),
            pp == plan_producers(plans@),
            plan_ok(*args, registry.producers@, rows@) ==> dependencies_selected(*args, pp),
            forall|x: Producer| pp.contains(x) <==> tier_of(registry.producers@, args.tier@).contains(x),
            selected_ids(*args, pp) == selected_ids(*args, tier_of(registry.producers@, args.tier@)),
            forall|x: Seq<char>| selected.deep_view().contains(x) <==> selected_ids(*args, pp).contains(x),
            forall|q: int| 0 <= q < plans@.len() ==> plan_matches(#[trigger] plans@[q], *args, rows@, host@, env),
            forall|q: int, d: int|
                0 <= q < k && is_selected(*args, pp[q]) && 0 <= d < pp[q].dependencies@.len() ==> selected_ids(*args, pp).contains(
                    (#[trigger] pp[q].dependencies@[d])@,
                ),
        decreases plans@.len() - k,
    {
        let plan = &plans[k];
        assert(plan_matches(plans@[k as int], *args, rows@, host@, env));
        assert(pp[k as int] == *plan.producer);
        if plan.selected {
            let deps = &plan.producer.dependencies;
            let mut j: usize = 0;
            while j < deps.len()
                invariant
                    j <= deps@.len(),
                    k < pp.len(),
                    *deps == pp[k as int].dependencies,
                    *plan.producer == pp[k as int],
                    is_selected(*args, pp[k as int]),
                    plan_ok(*args, registry.producers@, rows@) ==> dependencies_selected(*args, pp),
                    forall|x: Producer| pp.contains(x) <==> tier_of(registry.producers@, args.tier@).contains(x),
                    selected_ids(*args, pp) == selected_ids(*args, tier_of(registry.producers@, args.tier@)),
                    forall|x: Seq<char>| selected.deep_view().contains(x) <==> selected_ids(*args, pp).contains(x),
                    forall|d: int| 0 <= d < j ==> selected_ids(*args, pp).contains((#[trigger] deps@[d])@),
                decreases deps@.len() - j,
            {
                if !contains_str_in(&selected, deps[j].as_str()) {
                    assert(!selected_ids(*args, pp).contains(pp[k as int].dependencies@[j as int]@));
                    proof {
                        let tq = tier_of(registry.producers@, args.tier@);
                        assert(pp.contains(pp[k as int]));
                        assert(tq.contains(pp[k as int]));
                        assert(pp[k as int].dependencies.deep_view()[j as int] == deps@[j as int]@);
                        assert(pp[k as int].dependencies.deep_view().contains(deps@[j as int]@));
                        assert(dependency_error(pp[k as int].producer_id@, deps@[j as int]@) == dependency_error(
                            pp[k as int].producer_id@,
                            deps@[j as int]@,
                        ));
                    }
                    let head = cat3("acceptance-run: selected producer ", plan.producer.producer_id.as_str(), " requires dependency ");
                    let e = cat(
                        cat(head.as_str(), deps[j].as_str()).as_str(),
                        "; filters may not create a partial dependency plan",
                    );
                    assert(e@ =~= dependency_error(pp[k as int].producer_id@, deps@[j as int]@));
                    assert(tier_of(registry.producers@, args.tier@).contains(pp[k as int]) && is_selected(*args, pp[k as int])
                        && pp[k as int].dependencies.deep_view().contains(deps@[j as int]@) && !selected_ids(
                        *args,
                        tier_of(registry.producers@, args.tier@),
                    ).contains(deps@[j as int]@) && e@ == dependency_error(pp[k as int].producer_id@, deps@[j as int]@));
                    return Err(e);
                }
                j += 1;
            }
        }
        k += 1;
    }
    Ok(plans)
}

/// Whether the plan can run here as it stands.
pub open spec fn plan_ready(plan: ProducerPlan) -> bool {
    plan.selected && plan.host_supported && plan.tag_ready_host_supported && plan.missing_env@.len() == 0
}

/// The status a plan line reports.
pub open spec fn status_of(plan: ProducerPlan) -> Seq<char> {
    if !plan.selected {
        "filtered"@
    } else if !plan.host_supported {
        "host-unavailable"@
    } else if !plan.tag_ready_host_supported {
        "tag-ready-host-mismatch"@
    } else if plan.missing_env@.len() != 0 {
        "missing-env"@
    } else {
        "ready"@
    }
}

pub fn plan_status(plan: &ProducerPlan) -> (r: &'static str)
    ensures
        r@ == status_of(*plan),
        r@ == "filtered"@ <==> !plan.selected,
        r@ == "ready"@ <==> (plan.selected && plan.host_supported && plan.tag_ready_host_supported
            && plan.missing_env@.len() == 0),
{
    proof {
        lemma_plan_status(*plan);
    }
    if !plan.selected {
        "filtered"
    } else if !plan.host_supported {
        "host-unavailable"
    } else if !plan.tag_ready_host_supported {
        "tag-ready-host-mismatch"
    } else if plan.missing_env.len() != 0 {
        "missing-env"
    } else {
        "ready"
    }
}

pub open spec fn evidence_ids_of(plan: ProducerPlan) -> Seq<Seq<char>> {
    plan.evidence@.map_values(|r: &MatrixRow| r.evidence_id@)
}

/// One line of the printed plan.
pub open spec fn plan_line_spec(plan: ProducerPlan) -> Seq<char> {
    "- "@ + plan.producer.producer_id@ + " status="@ + status_of(plan) + " evidence="@ + joined(evidence_ids_of(plan), ","@) + if plan.missing_env@.len() == 0 {
        Seq::empty()
    } else {
        " missing_env="@ + joined(plan.missing_env.deep_view(), ","@)
    }
}

pub fn plan_line(plan: &ProducerPlan) -> (r: String)
    ensures
        r@ == plan_line_spec(*plan),
{
    let mut ids: Vec<String> = Vec::new();
    let mut k: usize = 0;
    while k < plan.evidence.len()
        invariant
            k <= plan.evidence@.len(),
            ids.deep_view() == evidence_ids_of(*plan).take(k as int),
        decreases plan.evidence@.len() - k,
    {
        let ghost before = ids.deep_view();
        ids.push(to_string(plan.evidence[k].evidence_id.as_str()));
        assert(ids.deep_view() =~= before.push(plan.evidence@[k as int].evidence_id@));
        assert(evidence_ids_of(*plan).take(k + 1) =~= evidence_ids_of(*plan).take(k as int).push(
            plan.evidence@[k as int].evidence_id@,
        ));
        k += 1;
    }
    assert(evidence_ids_of(*plan).take(plan.evidence@.len() as int) =~= evidence_ids_of(*plan));
    let head = cat3("- ", plan.producer.producer_id.as_str(), " status=");
    let with_status = cat3(head.as_str(), plan_status(plan), " evidence=");
    let line = cat(with_status.as_str(), join(&ids, ",").as_str());
    if plan.missing_env.len() == 0 {
        assert(line@ =~= plan_line_spec(*plan));
        line
    } else {
        let r = cat3(line.as_str(), " missing_env=", join(&plan.missing_env, ",").as_str());
        assert(r@ =~= plan_line_spec(*plan));
        r
    }
}

/// How many of the first `n` plans are selected, and how many of those can
/// run here.
pub open spec fn plan_counts(plans: Seq<ProducerPlan>, n: int) -> (nat, nat)
    decreases n,
{
    if n <= 0 {
        (0, 0)
    } else {
        let c = plan_counts(plans, n - 1);
        (c.0 + if plans[n - 1].selected { 1nat } else { 0nat }, c.1 + if plan_ready(plans[n - 1]) { 1nat } else { 0nat })
    }
}

pub open spec fn plan_report_spec(args: RunArgs, host: Seq<char>, plans: Seq<ProducerPlan>) -> Seq<Seq<char>> {
    let counts = plan_counts(plans, plans.len() as int);
    seq!["acceptance-run plan: tier="@ + args.tier@ + " host="@ + host + if args.plan {
        " mode=plan"@
    } else {
        " mode=execute"@
    }] + plans.map_values(|pl: ProducerPlan| plan_line_spec(pl)) + seq![
        "acceptance-run plan summary: selected="@ + decimal(counts.0) + " ready="@ + decimal(counts.1) + " unavailable="@
            + decimal((counts.0 - counts.1) as nat),
    ]
}

/// The lines of the printed plan: a header, one line per producer and a
/// summary of how many selected producers can run here.
pub fn plan_report(args: &RunArgs, host: &str, plans: &Vec<ProducerPlan>) -> (r: Vec<String>)
    ensures
        r.deep_view() == plan_report_spec(*args, host@, plans@),
{
    let head = cat3("acceptance-run plan: tier=", args.tier.as_str(), " host=");
    let header = cat3(head.as_str(), host, if args.plan { " mode=plan" } else { " mode=execute" });
    let mut out: Vec<String> = vec![header];
    assert(out.deep_view() =~= plan_report_spec(*args, host@, plans@).take(1));
    let mut selected: usize = 0;
    let mut ready: usize = 0;
    let mut k: usize = 0;
    while k < plans.len()
        invariant
            k <= plans@.len(),
            ready <= selected <= k,
            (selected as nat, ready as nat) == plan_counts(plans@, k as int),
            out.deep_view() == plan_report_spec(*args, host@, plans@).take(k + 1),
        decreases plans@.len() - k,
    {
        let ghost before = out.deep_view();
        let ghost spec = plan_report_spec(*args, host@, plans@);
        out.push(plan_line(&plans[k]));
        assert(spec[k + 1] == plan_line_spec(plans@[k as int]));
        assert(out.deep_view() =~= before.push(spec[k + 1]));
        assert(spec.take(k + 2) =~= spec.take(k + 1).push(spec[k + 1]));
        if plans[k].selected {
            selected += 1;
        }
        if plans[k].selected && plans[k].host_supported && plans[k].tag_ready_host_supported && plans[k].missing_env.len() == 0 {
            ready += 1;
        }
        k += 1;
    }
    let s1 = cat3("acceptance-run plan summary: selected=", decimal_string(selected as u128).as_str(), " ready=");
    let s2 = cat3(s1.as_str(), decimal_string(ready as u128).as_str(), " unavailable=");
    let summary = cat(s2.as_str(), decimal_string((selected - ready) as u128).as_str());
    let ghost before = out.deep_view();
    out.push(summary);
    assert(out.deep_view() =~= before.push(summary@));
    assert(plan_report_spec(*args, host@, plans@).take(plans@.len() + 1int) == before);
    assert(out.deep_view() =~= plan_report_spec(*args, host@, plans@));
    out
}

/// Execution may start: the worktree is clean (its status text is empty),
/// something is selected, and every selected producer can run here.
pub open spec fn preflight_ok(status: Seq<char>, plans: Seq<ProducerPlan>) -> bool {
    &&& status.len() == 0
    &&& exists|i: int| 0 <= i < plans.len() && (#[trigger] plans[i]).selected
    &&& forall|i: int| 0 <= i < plans.len() && (#[trigger] plans[i]).selected ==> plan_ready(plans[i])
}

/// Checks that execution may start; `status` is the worktree's status text.
pub fn preflight_execution(status: &str, args: &RunArgs, plans: &Vec<ProducerPlan>, host: &str) -> (r: Result<(), String>)
    ensures
        r is Ok <==> preflight_ok(status@, plans@),
{
    if chars_of(status).len() != 0 {
        return Err(to_string("acceptance-run: worktree must be clean before execution"));
    }
    let mut any = false;
    let mut k: usize = 0;
    while k < plans.len()
        invariant
            k <= plans@.len(),
            any == exists|q: int| 0 <= q < k && (#[trigger] plans@[q]).selected,
            forall|q: int| 0 <= q < k && (#[trigger] plans@[q]).selected ==> plan_ready(plans@[q]),
        decreases plans@.len() - k,
    {
        let plan = &plans[k];
        if plan.selected {
            any = true;
            let id = plan.producer.producer_id.as_str();
            if !plan.host_supported {
                let head = cat3("acceptance-run: producer ", id, " does not support host ");
                return Err(cat(head.as_str(), host));
            }
            if !plan.tag_ready_host_supported {
                let head = cat3("acceptance-run: producer ", id, " on ");
                return Err(cat3(head.as_str(), host, " cannot satisfy tag-ready platform constraints"));
            }
            if plan.missing_env.len() != 0 {
                let head = cat3("acceptance-run: producer ", id, " is missing required environment: ");
                return Err(cat(head.as_str(), join(&plan.missing_env, ", ").as_str()));
            }
        }
        k += 1;
    }
    if !any {
        return Err(cat("acceptance-run: filters selected no producers for tier ", args.tier.as_str()));
    }
    Ok(())
}

/// How the selected producers run.
#[derive(Debug)]
pub enum RunMode {
    /// Test and script producers, which write no receipts.
    Static,
    /// Receipt producers, which write receipts under the directory.
    Receipts(String),
}

pub open spec fn plan_emits(plan: ProducerPlan) -> bool {
    exists|i: int| 0 <= i < plan.evidence@.len() && (#[trigger] plan.evidence@[i]).evidence_kind@ == "receipt"@
}

/// How a run executes its selected plans: all of them emit receipts (into the
/// requested directory) or none does (and no directory is given).
pub open spec fn run_mode_spec(args: RunArgs, plans: Seq<ProducerPlan>) -> Option<RunMode> {
    let receipts = exists|i: int| 0 <= i < plans.len() && (#[trigger] plans[i]).selected && plan_emits(plans[i]);
    let statics = exists|i: int| 0 <= i < plans.len() && (#[trigger] plans[i]).selected && !plan_emits(plans[i]);
    if receipts && statics {
        None
    } else if statics {
        if args.receipt_dir is Some {
            None
        } else {
            Some(RunMode::Static)
        }
    } else {
        match args.receipt_dir {
            Some(d) => Some(RunMode::Receipts(d)),
            None => None,
        }
    }
}

/// Decides how the selected plans run; one tier may not mix receipt and
/// test/script producers.
pub fn run_mode(args: &RunArgs, plans: &Vec<ProducerPlan>) -> (r: Result<RunMode, String>)
    ensures
        match run_mode_spec(*args, plans@) {
            None => r is Err,
            Some(RunMode::Static) => r matches Ok(RunMode::Static),
            Some(RunMode::Receipts(d)) => r matches Ok(RunMode::Receipts(v)) && v@ == d@,
        },
{
    let mut receipts = false;
    let mut statics = false;
    let mut k: usize = 0;
    while k < plans.len()
        invariant
            k <= plans@.len(),
            receipts == exists|q: int| 0 <= q < k && (#[trigger] plans@[q]).selected && plan_emits(plans@[q]),
            statics == exists|q: int| 0 <= q < k && (#[trigger] plans@[q]).selected && !plan_emits(plans@[q]),
        decreases plans@.len() - k,
    {
        if plans[k].selected {
            if plans[k].emits_receipts() {
                receipts = true;
            } else {
                statics = true;
            }
        }
        k += 1;
    }
    if receipts && statics {
        return Err(to_string("acceptance-run: one tier may not mix receipt and test/script producers"));
    }
    if statics {
        if args.receipt_dir.is_some() {
            return Err(to_string("acceptance-run: test/script producers do not accept --receipt-dir"));
        }
        return Ok(RunMode::Static);
    }
    match &args.receipt_dir {
        Some(d) => Ok(RunMode::Receipts(to_string(d.as_str()))),
        None => Err(to_string("acceptance-run: --receipt-dir is required for receipt producers")),
    }
}

proof fn lemma_producer_index_bounds(ps: Seq<Producer>, id: Seq<char>)
    ensures
        match producer_index(ps, id) {
            Some(k) => 0 <= k < ps.len() && ps[k].producer_id@ == id,
            None => forall|j: int| 0 <= j < ps.len() ==> (#[trigger] ps[j]).producer_id@ != id,
        },
{
    if producer_index(ps, id) is None {
        assert forall|j: int| 0 <= j < ps.len() implies (#[trigger] ps[j]).producer_id@ != id by {
            if ps[j].producer_id@ == id {
                lemma_last_producer(ps, id, j);
            }
        }
    }
}

proof fn lemma_last_producer(ps: Seq<Producer>, id: Seq<char>, w: int)
    requires
        0 <= w < ps.len(),
        ps[w].producer_id@ == id,
    ensures
        exists|i: int|
            0 <= i < ps.len() && ps[i].producer_id@ == id && forall|j: int| i < j < ps.len() ==> #[trigger] ps[j].producer_id@ != id,
    decreases ps.len() - w,
{
    if exists|j: int| w < j < ps.len() && #[trigger] ps[j].producer_id@ == id {
        let j = choose|j: int| w < j < ps.len() && #[trigger] ps[j].producer_id@ == id;
        lemma_last_producer(ps, id, j);
    } else {
        assert(forall|j: int| w < j < ps.len() ==> #[trigger] ps[j].producer_id@ != id);
    }
}

/// A depth never exceeds the levels looked at.
proof fn lemma_depth_bounded(ps: Seq<Producer>, p: Producer, f: nat)
    ensures
        depth(ps, p, f) <= f,
    decreases f, 0int, 0int,
{
    if f > 0 {
        lemma_deps_depth_bounded(ps, p.dependencies@, p.dependencies@.len() as int, (f - 1) as nat);
    }
}

proof fn lemma_deps_depth_bounded(ps: Seq<Producer>, deps: Seq<String>, n: int, g: nat)
    ensures
        deps_depth(ps, deps, n, g) <= g + 1,
    decreases g, 1int, n,
{
    if n > 0 {
        lemma_deps_depth_bounded(ps, deps, n - 1, g);
        match producer_index(ps, deps[n - 1]@) {
            Some(k) => {
                if 0 <= k < ps.len() {
                    lemma_depth_bounded(ps, ps[k], g);
                }
            },
            None => {},
        }
    }
}

/// Once a depth falls short of the levels looked at, looking one level
/// deeper finds nothing more.
proof fn lemma_depth_stable(ps: Seq<Producer>, p: Producer, f: nat)
    requires
        depth(ps, p, f) < f,
    ensures
        depth(ps, p, f + 1) == depth(ps, p, f),
    decreases f, 0int, 0int,
{
    lemma_deps_depth_stable(ps, p.dependencies@, p.dependencies@.len() as int, (f - 1) as nat);
    assert(depth(ps, p, f + 1) == deps_depth(ps, p.dependencies@, p.dependencies@.len() as int, f));
}

proof fn lemma_deps_depth_stable(ps: Seq<Producer>, deps: Seq<String>, n: int, g: nat)
    requires
        deps_depth(ps, deps, n, g) <= g,
    ensures
        deps_depth(ps, deps, n, g + 1) == deps_depth(ps, deps, n, g),
    decreases g, 1int, n,
{
    if n > 0 {
        lemma_deps_depth_monotone_n(ps, deps, n - 1, g);
        lemma_deps_depth_stable(ps, deps, n - 1, g);
        match producer_index(ps, deps[n - 1]@) {
            Some(k) => {
                if 0 <= k < ps.len() {
                    assert(depth(ps, ps[k], g) + 1 <= g);
                    lemma_depth_stable(ps, ps[k], g);
                }
            },
            None => {},
        }
    }
}

proof fn lemma_deps_depth_monotone_n(ps: Seq<Producer>, deps: Seq<String>, n: int, g: nat)
    ensures
        n >= 0 ==> deps_depth(ps, deps, n, g) <= deps_depth(ps, deps, n + 1, g),
{
}

/// The depth of a producer exceeds that of each of its dependencies, one
/// level shallower.
proof fn lemma_depth_above_dependency(ps: Seq<Producer>, p: Producer, f: nat, j: int)
    requires
        0 <= j < p.dependencies@.len(),
        producer_index(ps, p.dependencies@[j]@) is Some,
    ensures
        depth(ps, ps[producer_index(ps, p.dependencies@[j]@)->0], f) + 1 <= depth(ps, p, f + 1),
{
    lemma_producer_index_bounds(ps, p.dependencies@[j]@);
    lemma_deps_depth_above(ps, p.dependencies@, p.dependencies@.len() as int, f, j);
}

proof fn lemma_deps_depth_above(ps: Seq<Producer>, deps: Seq<String>, n: int, g: nat, j: int)
    requires
        0 <= j < n <= deps.len(),
        producer_index(ps, deps[j]@) is Some,
        0 <= producer_index(ps, deps[j]@)->0 < ps.len(),
    ensures
        depth(ps, ps[producer_index(ps, deps[j]@)->0], g) + 1 <= deps_depth(ps, deps, n, g),
    decreases n,
{
    if j < n - 1 {
        lemma_deps_depth_above(ps, deps, n - 1, g, j);
    }
}

/// A saturated depth is reached through a dependency that is saturated one
/// level shallower.
proof fn lemma_saturated_dependency(ps: Seq<Producer>, p: Producer, f: nat)
    requires
        depth(ps, p, f + 1) == f + 1,
    ensures
        exists|j: int|
            0 <= j < p.dependencies@.len() && #[trigger] producer_index(ps, p.dependencies@[j]@) is Some && {
                let k = producer_index(ps, p.dependencies@[j]@)->0;
                0 <= k < ps.len() && depth(ps, ps[k], f) == f
            },
{
    lemma_deps_saturated(ps, p.dependencies@, p.dependencies@.len() as int, f);
}

proof fn lemma_deps_saturated(ps: Seq<Producer>, deps: Seq<String>, n: int, g: nat)
    requires
        deps_depth(ps, deps, n, g) == g + 1,
        n <= deps.len(),
    ensures
        exists|j: int|
            0 <= j < n && #[trigger] producer_index(ps, deps[j]@) is Some && {
                let k = producer_index(ps, deps[j]@)->0;
                0 <= k < ps.len() && depth(ps, ps[k], g) == g
            },
    decreases n,
{
    if n > 0 {
        let rest = deps_depth(ps, deps, n - 1, g);
        match producer_index(ps, deps[n - 1]@) {
            Some(k) => {
                if 0 <= k < ps.len() {
                    lemma_depth_bounded(ps, ps[k], g);
                    if depth(ps, ps[k], g) + 1 > rest {
                        assert(depth(ps, ps[k], g) == g);
                    } else {
                        lemma_deps_saturated(ps, deps, n - 1, g);
                    }
                } else {
                    lemma_deps_saturated(ps, deps, n - 1, g);
                }
            },
            None => {
                lemma_deps_saturated(ps, deps, n - 1, g);
            },
        }
    }
}

/// The ids of the registered producers.
pub open spec fn producer_ids(ps: Seq<Producer>) -> Set<Seq<char>> {
    ps.map_values(|p: Producer| p.producer_id@).to_set()
}

/// The depth of the producer registered under `id`, looking `f` levels
/// down.
pub open spec fn node_depth(ps: Seq<Producer>, id: Seq<char>, f: nat) -> nat {
    match producer_index(ps, id) {
        Some(k) => if 0 <= k < ps.len() {
            depth(ps, ps[k], f)
        } else {
            0
        },
        None => 0,
    }
}

/// The producers whose depth still reaches the `f` levels looked at.
pub open spec fn saturated(ps: Seq<Producer>, f: nat) -> Set<Seq<char>> {
    Set::new(|id: Seq<char>| producer_ids(ps).contains(id) && node_depth(ps, id, f) == f)
}

proof fn lemma_id_registered(ps: Seq<Producer>, id: Seq<char>)
    requires
        producer_index(ps, id) is Some,
    ensures
        producer_ids(ps).contains(id),
{
    lemma_producer_index_bounds(ps, id);
    let k = producer_index(ps, id)->0;
    assert(ps.map_values(|p: Producer| p.producer_id@)[k] == id);
}

proof fn lemma_saturated_step(ps: Seq<Producer>, f: nat, id: Seq<char>)
    requires
        saturated(ps, f + 1).contains(id),
    ensures
        saturated(ps, f).contains(id),
        exists|d: Seq<char>|
            #[trigger] producer_deps(ps, id).contains(d) && saturated(ps, f).contains(d),
{
    lemma_producer_index_bounds(ps, id);
    let k = producer_index(ps, id)->0;
    let p = ps[k];
    lemma_saturated_dependency(ps, p, f);
    let j = choose|j: int|
        0 <= j < p.dependencies@.len() && #[trigger] producer_index(ps, p.dependencies@[j]@) is Some && {
            let k2 = producer_index(ps, p.dependencies@[j]@)->0;
            0 <= k2 < ps.len() && depth(ps, ps[k2], f) == f
        };
    let d = p.dependencies@[j]@;
    let k2 = producer_index(ps, d)->0;
    lemma_id_registered(ps, d);
    assert(saturated(ps, f).contains(d));
    assert(p.dependencies.deep_view()[j] == d);
    assert(producer_deps(ps, id).contains(d));
    if f > 0 {
        let g = (f - 1) as nat;
        lemma_depth_bounded(ps, ps[k2], g);
        if depth(ps, ps[k2], g) < g {
            lemma_depth_stable(ps, ps[k2], g);
        }
        assert(depth(ps, ps[k2], g) == g);
        lemma_depth_above_dependency(ps, p, g, j);
        lemma_depth_bounded(ps, p, f);
    }
}

proof fn lemma_no_saturated_fixpoint(ps: Seq<Producer>, f: nat)
    requires
        producers_acyclic(ps, producer_ids(ps)),
        saturated(ps, f + 1) == saturated(ps, f),
    ensures
        saturated(ps, f).is_empty(),
{
    let ids = producer_ids(ps);
    let t = ids.difference(saturated(ps, f));
    assert forall|id: Seq<char>| #[trigger] ids.contains(id) && producer_deps(ps, id).subset_of(t) implies t.contains(id) by {
        if saturated(ps, f).contains(id) {
            assert(saturated(ps, f + 1).contains(id));
            lemma_saturated_step(ps, f, id);
            let d = choose|d: Seq<char>| #[trigger] producer_deps(ps, id).contains(d) && saturated(ps, f).contains(d);
            assert(!t.contains(d));
        }
    }
    assert(settled(t, ps, ids));
    assert forall|id: Seq<char>| !saturated(ps, f).contains(id) by {
        if saturated(ps, f).contains(id) {
            assert(ids.contains(id));
            assert(t.contains(id));
        }
    }
}

proof fn lemma_saturated_shrinks(ps: Seq<Producer>, f: nat)
    requires
        producers_acyclic(ps, producer_ids(ps)),
    ensures
        saturated(ps, f).finite(),
        saturated(ps, f).is_empty() || saturated(ps, f).len() + f <= producer_ids(ps).len(),
    decreases f,
{
    broadcast use vstd::seq_lib::seq_to_set_is_finite;

    let ids = producer_ids(ps);
    assert(saturated(ps, f).subset_of(ids));
    vstd::set_lib::lemma_len_subset(saturated(ps, f), ids);
    if f > 0 {
        let g = (f - 1) as nat;
        lemma_saturated_shrinks(ps, g);
        assert forall|id: Seq<char>| saturated(ps, f).contains(id) implies saturated(ps, g).contains(id) by {
            lemma_saturated_step(ps, g, id);
        }
        if !saturated(ps, f).is_empty() {
            if saturated(ps, f) =~= saturated(ps, g) {
                lemma_no_saturated_fixpoint(ps, g);
            } else {
                let x = choose|x: Seq<char>| saturated(ps, g).contains(x) && !saturated(ps, f).contains(x);
                assert(saturated(ps, f).subset_of(saturated(ps, g).remove(x)));
                vstd::set_lib::lemma_len_subset(saturated(ps, f), saturated(ps, g).remove(x));
            }
        }
    }
}

/// In an acyclic registry of uniquely named producers, each dependency has a
/// smaller run depth than its dependent.
pub proof fn lemma_dependency_shallower(ps: Seq<Producer>, i: int, j: int)
    requires
        producers_acyclic(ps, producer_ids(ps)),
        forall|a: int, b: int| 0 <= a < b < ps.len() ==> (#[trigger] ps[a]).producer_id@ != (#[trigger] ps[b]).producer_id@,
        0 <= i < ps.len(),
        0 <= j < ps[i].dependencies@.len(),
        producer_index(ps, ps[i].dependencies@[j]@) is Some,
    ensures
        plan_depth(ps, ps[producer_index(ps, ps[i].dependencies@[j]@)->0]) < plan_depth(ps, ps[i]),
{
    let n = ps.len();
    let a = ps[i];
    let id = a.producer_id@;
    lemma_producer_index_bounds(ps, id);
    assert(producer_index(ps, id) == Some(i)) by {
        let k = producer_index(ps, id)->0;
        if k != i {
            if k < i {
                assert(ps[k].producer_id@ != ps[i].producer_id@);
            } else {
                assert(ps[i].producer_id@ != ps[k].producer_id@);
            }
        }
    }
    lemma_saturated_shrinks(ps, n);
    ps.map_values(|p: Producer| p.producer_id@).lemma_cardinality_of_set();
    lemma_id_registered(ps, id);
    assert(!saturated(ps, n).contains(id));
    lemma_depth_bounded(ps, a, n);
    assert(depth(ps, a, n) < n);
    let d = a.dependencies@[j]@;
    lemma_producer_index_bounds(ps, d);
    let k2 = producer_index(ps, d)->0;
    let g = (n - 1) as nat;
    lemma_depth_above_dependency(ps, a, g, j);
    lemma_depth_stable(ps, ps[k2], g);
}

/// In an accepted plan over an acyclic registry of uniquely named producers,
/// every dependency of a planned producer that is itself planned runs before
/// it.
pub proof fn lemma_dependencies_run_first(ps: Seq<Producer>, plan: Seq<Producer>, a: int, b: int, i: int, j: int)
    requires
        producers_acyclic(ps, producer_ids(ps)),
        forall|x: int, y: int| 0 <= x < y < ps.len() ==> (#[trigger] ps[x]).producer_id@ != (#[trigger] ps[y]).producer_id@,
        run_ordered(ps, plan),
        0 <= a < plan.len(),
        0 <= b < plan.len(),
        0 <= i < ps.len(),
        plan[a] == ps[i],
        0 <= j < ps[i].dependencies@.len(),
        producer_index(ps, ps[i].dependencies@[j]@) matches Some(k) && plan[b] == ps[k],
    ensures
        b < a,
{
    lemma_dependency_shallower(ps, i, j);
    if b >= a {
        if b == a {
            assert(plan_depth(ps, plan[b]) < plan_depth(ps, plan[a]));
        } else {
            assert(!runs_before(ps, plan[b], plan[a]));
        }
    }
}

/// A plan reports `filtered` exactly when the filters left its producer out,
/// and `ready` exactly when its producer is selected, its host supports it
/// (also for tag-ready), and no required environment is missing. So a
/// producer the filters excluded is never reported ready.
pub proof fn lemma_plan_status(plan: ProducerPlan)
    ensures
        status_of(plan) == "filtered"@ <==> !plan.selected,
        status_of(plan) == "ready"@ <==> (plan.selected && plan.host_supported && plan.tag_ready_host_supported
            && plan.missing_env@.len() == 0),
        !plan.selected ==> status_of(plan) != "ready"@,
{
    reveal_strlit("filtered");
    reveal_strlit("host-unavailable");
    reveal_strlit("tag-ready-host-mismatch");
    reveal_strlit("missing-env");
    reveal_strlit("ready");
    assert("filtered"@.len() == 8);
    assert("host-unavailable"@.len() == 16);
    assert("tag-ready-host-mismatch"@.len() == 23);
    assert("missing-env"@.len() == 11);
    assert("ready"@.len() == 5);
}

} // verus!
