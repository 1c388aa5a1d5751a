//! Whether a producer step directly executes a matrix evidence locator.
use super::model::{Producer, ProducerArg, ProducerRegistry, ProducerStep};
use super::validation::evidence_row;
use super::validation::{program_name, program_name_spec};
use crate::acceptance_matrix::model::MatrixRow;
use crate::acceptance_matrix::test_selector::{selector_spec, TestSelector};
use crate::text::opt_view;
use crate::text::{cat, eq_str, split_ws, split_ws_str, starts_with, starts_with_str, to_string};
use vstd::prelude::*;

verus! {

/// The step's arguments when all are literals.
pub open spec fn literal_args(args: Seq<ProducerArg>) -> Option<Seq<Seq<char>>>
    decreases args.len(),
{
    if args.len() == 0 {
        Some(Seq::empty())
    } else {
        match literal_args(args.drop_last()) {
            None => None,
            Some(prev) => match args.last() {
                ProducerArg::LiteralString(s) => Some(prev.push(s@)),
                ProducerArg::Literal { literal } => Some(prev.push(literal@)),
                ProducerArg::Env { .. } => None,
            },
        }
    }
}

fn literal_list(args: &Vec<ProducerArg>) -> (r: Option<Vec<String>>)
    ensures
        match r {
            Some(v) => literal_args(args@) == Some(v.deep_view()),
            None => literal_args(args@) is None,
        },
{
    let mut out: Vec<String> = Vec::new();
    let mut i: usize = 0;
    while i < args.len()
        invariant
            i <= args.len(),
            literal_args(args@.take(i as int)) == Some(out.deep_view()),
        decreases args.len() - i,
    {
        assert(args@.take(i + 1).drop_last() =~= args@.take(i as int));
        assert(args@.take(i + 1).last() == args@[i as int]);
        let ghost o0 = out.deep_view();
        match &args[i] {
            ProducerArg::LiteralString(s) => {
                out.push(s.clone());
                assert(out.deep_view() =~= o0.push(s@));
            },
            ProducerArg::Literal { literal } => {
                out.push(literal.clone());
                assert(out.deep_view() =~= o0.push(literal@));
            },
            ProducerArg::Env { .. } => {
                proof {
                    lemma_literal_args_none(args@, i as int + 1);
                }
                return None;
            },
        }
        i += 1;
    }
    assert(args@.take(args.len() as int) =~= args@);
    Some(out)
}

proof fn lemma_literal_args_none(args: Seq<ProducerArg>, n: int)
    requires
        0 <= n <= args.len(),
        literal_args(args.take(n)) is None,
    ensures
        literal_args(args) is None,
    decreases args.len(),
{
    if n == args.len() {
        assert(args.take(n) =~= args);
    } else {
        assert(args.drop_last().take(n) =~= args.take(n));
        lemma_literal_args_none(args.drop_last(), n);
    }
}

pub open spec fn sh_family(p: Seq<char>) -> bool {
    p == "sh"@ || p == "sh.exe"@ || p == "bash"@ || p == "bash.exe"@
}

pub open spec fn powershell_family(p: Seq<char>) -> bool {
    p == "powershell"@ || p == "powershell.exe"@ || p == "pwsh"@ || p == "pwsh.exe"@
}

/// A script step runs the locator's script with exactly its arguments:
/// directly, through a POSIX shell, through `pwsh -NoProfile -File`, or
/// through node (optionally as `node --test`).
pub open spec fn script_step_matches(program: Seq<char>, args: Seq<Seq<char>>, reference: Seq<char>) -> bool {
    let ev = split_ws(reference);
    let script = if ev.len() > 0 { ev[0] } else { Seq::<char>::empty() };
    let name = program_name_spec(program);
    ||| (program == script && args == ev.skip(1))
    ||| (sh_family(name) && args == ev)
    ||| (powershell_family(name) && args == seq!["-NoProfile"@, "-File"@] + ev)
    ||| ((name == "node"@ || name == "node.exe"@) && (args == ev || args == seq!["--test"@] + ev))
}

/// The value following the first occurrence of `opt`.
pub open spec fn option_after(a: Seq<Seq<char>>, opt: Seq<char>) -> Option<Seq<char>> {
    if exists|k: int| 0 <= k < a.len() - 1 && a[k] == opt {
        let k = choose|k: int| 0 <= k < a.len() - 1 && a[k] == opt && forall|j: int| 0 <= j < k ==> #[trigger] a[j] != opt;
        Some(a[k + 1])
    } else {
        None
    }
}

/// The first `--` among `a`, if any.
pub open spec fn dashdash_index(a: Seq<Seq<char>>) -> Option<int> {
    if exists|k: int| 0 <= k < a.len() && a[k] == "--"@ {
        Some(choose|k: int| 0 <= k < a.len() && a[k] == "--"@ && forall|j: int| 0 <= j < k ==> #[trigger] a[j] != "--"@)
    } else {
        None
    }
}

pub open spec fn valued_cargo_option(v: Seq<char>) -> bool {
    v == "-p"@ || v == "--package"@ || v == "--test"@ || v == "--bin"@ || v == "--features"@ || v == "--target"@
}

pub open spec fn flag_cargo_option(v: Seq<char>) -> bool {
    v == "--locked"@ || v == "--lib"@ || v == "--release"@ || v == "--all-features"@ || v == "--no-default-features"@
}

/// The positional arguments of `cargo test` before `sep`, from `i`; `None`
/// when an unknown option occurs.
pub open spec fn positionals(a: Seq<Seq<char>>, sep: int, i: int) -> Option<Seq<Seq<char>>>
    decreases (if sep >= i { sep - i } else { 0 }),
{
    if i >= sep || i < 0 {
        Some(Seq::empty())
    } else if valued_cargo_option(a[i]) {
        positionals(a, sep, i + 2)
    } else if flag_cargo_option(a[i]) {
        positionals(a, sep, i + 1)
    } else if starts_with(a[i], "-"@) {
        None
    } else {
        match positionals(a, sep, i + 1) {
            Some(rest) => Some(seq![a[i]] + rest),
            None => None,
        }
    }
}

/// A `cargo test` step runs exactly the selected package, target and
/// filter, with only output-shaping arguments after `--`.
pub open spec fn test_step_matches(program: Seq<char>, args: Seq<Seq<char>>, sel: (Option<Seq<char>>, Option<Seq<char>>, Option<Seq<char>>)) -> bool {
    let package = match option_after(args, "-p"@) {
        Some(p) => Some(p),
        None => option_after(args, "--package"@),
    };
    let sep = match dashdash_index(args) {
        Some(k) => k,
        None => args.len() as int,
    };
    &&& program == "cargo"@
    &&& args.len() > 0 && args[0] == "test"@
    &&& package == sel.0
    &&& (sel.1 matches Some(t) ==> option_after(args, "--test"@) == Some(t))
    &&& (forall|j: int| sep < j < args.len() ==> #[trigger] args[j] == "--nocapture"@ || args[j] == "--test-threads=1"@)
    &&& match positionals(args, sep, 1) {
        Some(ps) => match sel.2 {
            Some(f) => ps == seq![f],
            None => ps.len() == 0,
        },
        None => false,
    }
}

fn find_option_after(a: &Vec<String>, opt: &str) -> (r: Option<String>)
    ensures
        opt_view(r) == option_after(a.deep_view(), opt@),
{
    let ghost av = a.deep_view();
    let mut k: usize = 0;
    while k < a.len() && k + 1 < a.len()
        invariant
            av == a.deep_view(),
            forall|j: int| 0 <= j < k ==> #[trigger] av[j] != opt@,
        decreases a.len() - k,
    {
        assert(av[k as int] == a@[k as int]@);
        if eq_str(a[k].as_str(), opt) {
            proof {
                let c = choose|c: int| 0 <= c < av.len() - 1 && av[c] == opt@ && forall|j: int| 0 <= j < c ==> #[trigger] av[j] != opt@;
                if c < k {
                    assert(av[c] != opt@);
                } else if c > k {
                    assert(av[k as int] != opt@);
                }
            }
            assert(av[k + 1] == a@[k as int + 1]@);
            return Some(a[k + 1].clone());
        }
        k += 1;
    }
    None
}

fn find_dashdash(a: &Vec<String>) -> (r: usize)
    ensures
        r as int == match dashdash_index(a.deep_view()) {
            Some(k) => k,
            None => a.len() as int,
        },
        r <= a.len(),
{
    let ghost av = a.deep_view();
    proof {
        reveal_strlit("--");
    }
    let mut k: usize = 0;
    while k < a.len()
        invariant
            av == a.deep_view(),
            k <= a.len(),
            forall|j: int| 0 <= j < k ==> #[trigger] av[j] != "--"@,
        decreases a.len() - k,
    {
        assert(av[k as int] == a@[k as int]@);
        if eq_str(a[k].as_str(), "--") {
            proof {
                let c = choose|c: int| 0 <= c < av.len() && av[c] == "--"@ && forall|j: int| 0 <= j < c ==> #[trigger] av[j] != "--"@;
                if c < k {
                    assert(av[c] != "--"@);
                } else if c > k {
                    assert(av[k as int] != "--"@);
                }
            }
            return k;
        }
        k += 1;
    }
    a.len()
}

fn positional_args(a: &Vec<String>, sep: usize) -> (r: Option<Vec<String>>)
    requires
        sep <= a.len(),
    ensures
        match r {
            Some(v) => positionals(a.deep_view(), sep as int, 1) == Some(v.deep_view()),
            None => positionals(a.deep_view(), sep as int, 1) is None,
        },
{
    let ghost av = a.deep_view();
    let mut out: Vec<String> = Vec::new();
    let mut index: usize = 1;
    assert(out.deep_view() + Seq::<Seq<char>>::empty() =~= out.deep_view());
    while index < sep
        invariant
            av == a.deep_view(),
            sep <= a.len(),
            1 <= index <= a.len() + 1,
            positionals(av, sep as int, 1) == match positionals(av, sep as int, index as int) {
                Some(rest) => Some(out.deep_view() + rest),
                None => None,
            },
        decreases a.len() + 1 - index,
    {
        let v = a[index].as_str();
        assert(av[index as int] == v@);
        if eq_str(v, "-p") || eq_str(v, "--package") || eq_str(v, "--test") || eq_str(v, "--bin") || eq_str(v, "--features")
            || eq_str(v, "--target") {
            assert(positionals(av, sep as int, index as int) == positionals(av, sep as int, index + 2));
            if index + 1 < sep {
                index += 2;
            } else {
                assert(positionals(av, sep as int, index + 2) == Some(Seq::<Seq<char>>::empty()));
                index = sep;
            }
        } else if eq_str(v, "--locked") || eq_str(v, "--lib") || eq_str(v, "--release") || eq_str(v, "--all-features")
            || eq_str(v, "--no-default-features") {
            index += 1;
        } else if starts_with_str(v, "-") {
            return None;
        } else {
            let ghost o0 = out.deep_view();
            out.push(a[index].clone());
            proof {
                match positionals(av, sep as int, index + 1) {
                    Some(rest) => {
                        assert(o0 + (seq![v@] + rest) =~= out.deep_view() + rest);
                    },
                    None => {},
                }
            }
            index += 1;
        }
    }
    assert(positionals(av, sep as int, index as int) == Some(Seq::<Seq<char>>::empty()));
    assert(out.deep_view() + Seq::<Seq<char>>::empty() =~= out.deep_view());
    Some(out)
}

fn prefixed(prefix: Vec<&str>, rest: &Vec<String>) -> (r: Vec<String>)
    ensures
        r.deep_view() == prefix@.map_values(|s: &str| s@) + rest.deep_view(),
{
    let mut r = crate::strset::strings_of(&prefix);
    let ghost p0 = r.deep_view();
    let mut i: usize = 0;
    while i < rest.len()
        invariant
            i <= rest.len(),
            r.deep_view() == p0 + rest.deep_view().take(i as int),
        decreases rest.len() - i,
    {
        let ghost r0 = r.deep_view();
        r.push(rest[i].clone());
        assert(r.deep_view() =~= r0.push(rest.deep_view()[i as int]));
        assert(rest.deep_view().take(i + 1) =~= rest.deep_view().take(i as int).push(rest.deep_view()[i as int]));
        i += 1;
    }
    assert(rest.deep_view().take(rest.len() as int) =~= rest.deep_view());
    r
}

fn script_matches(program: &str, args: &Vec<String>, reference: &str) -> (r: bool)
    requires
        split_ws(reference@).len() == 0 ==> program@.len() > 0,
    ensures
        r == script_step_matches(program@, args.deep_view(), reference@),
{
    let ev = split_ws_str(reference);
    let script: &str = if ev.len() > 0 {
        ev[0].as_str()
    } else {
        ""
    };
    proof {
        reveal_strlit("");
    }
    assert(ev.len() > 0 ==> script@ == ev.deep_view()[0]);
    let name = program_name(program);
    let n = name.as_str();
    let direct = if eq_str(program, script) {
        let mut tail: Vec<String> = Vec::new();
        let mut i: usize = 1;
        while i < ev.len()
            invariant
                1 <= i <= ev.len(),
                tail.deep_view() == ev.deep_view().subrange(1, i as int),
            decreases ev.len() - i,
        {
            let ghost t0 = tail.deep_view();
            tail.push(ev[i].clone());
            assert(tail.deep_view() =~= t0.push(ev.deep_view()[i as int]));
            assert(tail.deep_view() =~= ev.deep_view().subrange(1, i + 1));
            i += 1;
        }
        assert(tail.deep_view() =~= ev.deep_view().skip(1));
        crate::strset::strs_eq(args, &tail)
    } else {
        false
    };
    let shell = (eq_str(n, "sh") || eq_str(n, "sh.exe") || eq_str(n, "bash") || eq_str(n, "bash.exe"))
        && crate::strset::strs_eq(args, &ev);
    let ps_args = prefixed(vec!["-NoProfile", "-File"], &ev);
    assert(ps_args.deep_view() =~= seq!["-NoProfile"@, "-File"@] + ev.deep_view());
    let ps = (eq_str(n, "powershell") || eq_str(n, "powershell.exe") || eq_str(n, "pwsh") || eq_str(n, "pwsh.exe"))
        && crate::strset::strs_eq(args, &ps_args);
    let node_args = prefixed(vec!["--test"], &ev);
    assert(node_args.deep_view() =~= seq!["--test"@] + ev.deep_view());
    let node = (eq_str(n, "node") || eq_str(n, "node.exe")) && (crate::strset::strs_eq(args, &ev)
        || crate::strset::strs_eq(args, &node_args));
    direct || shell || ps || node
}

/// Only output-shaping arguments follow the first `--`.
pub open spec fn trailing_ok(args: Seq<Seq<char>>, sep: int) -> bool {
    forall|j: int| sep < j < args.len() ==> #[trigger] args[j] == "--nocapture"@ || args[j] == "--test-threads=1"@
}

fn trailing_args_ok(args: &Vec<String>, sep: usize) -> (r: bool)
    requires
        sep <= args.len(),
    ensures
        r == trailing_ok(args.deep_view(), sep as int),
{
    let ghost av = args.deep_view();
    let mut j: usize = if sep < args.len() {
        sep + 1
    } else {
        args.len()
    };
    while j < args.len()
        invariant
            av == args.deep_view(),
            sep < j || j == args.len(),
            j <= args.len(),
            forall|q: int| sep < q < j ==> #[trigger] av[q] == "--nocapture"@ || av[q] == "--test-threads=1"@,
        decreases args.len() - j,
    {
        assert(av[j as int] == args@[j as int]@);
        if !(eq_str(args[j].as_str(), "--nocapture") || eq_str(args[j].as_str(), "--test-threads=1")) {
            return false;
        }
        j += 1;
    }
    true
}

fn package_matches(args: &Vec<String>, package: &str) -> (r: bool)
    ensures
        r == ((match option_after(args.deep_view(), "-p"@) {
            Some(p) => Some(p),
            None => option_after(args.deep_view(), "--package"@),
        }) == Some(package@)),
{
    let found = match find_option_after(args, "-p") {
        Some(p) => Some(p),
        None => find_option_after(args, "--package"),
    };
    match &found {
        Some(p) => eq_str(p.as_str(), package),
        None => false,
    }
}

fn target_matches(args: &Vec<String>, target: &Option<String>) -> (r: bool)
    ensures
        r == (opt_view(*target) matches Some(t) ==> option_after(args.deep_view(), "--test"@) == Some(t)),
{
    match target {
        Some(t) => match find_option_after(args, "--test") {
            Some(v) => eq_str(v.as_str(), t.as_str()),
            None => false,
        },
        None => true,
    }
}

fn filter_matches(args: &Vec<String>, sep: usize, filter: &Option<String>) -> (r: bool)
    requires
        sep <= args.len(),
    ensures
        r == match positionals(args.deep_view(), sep as int, 1) {
            Some(ps) => match opt_view(*filter) {
                Some(f) => ps == seq![f],
                None => ps.len() == 0,
            },
            None => false,
        },
{
    let ps = match positional_args(args, sep) {
        Some(p) => p,
        None => {
            return false;
        },
    };
    let ok = match filter {
        Some(f) => ps.len() == 1 && eq_str(ps[0].as_str(), f.as_str()),
        None => ps.len() == 0,
    };
    proof {
        if ps.len() == 1 {
            assert(ps.deep_view()[0] == ps@[0]@);
        }
        match filter {
            Some(f) => {
                if ps.deep_view() == seq![f@] {
                    assert(ps.deep_view().len() == 1);
                }
                if ok {
                    assert(ps.deep_view() =~= seq![f@]);
                }
            },
            None => {},
        }
    }
    ok
}

fn cargo_step_executes_test(args: &Vec<String>, selector: &TestSelector) -> (r: bool)
    requires
        args.len() > 0 && args.deep_view()[0] == "test"@,
    ensures
        r == test_step_matches("cargo"@, args.deep_view(), (Some(selector.package@), opt_view(selector.test_target), opt_view(selector.filter))),
{
    let sep = find_dashdash(args);
    package_matches(args, selector.package.as_str()) && target_matches(args, &selector.test_target)
        && trailing_args_ok(args, sep) && filter_matches(args, sep, &selector.filter)
}

/// Whether `step` runs the row's evidence locator itself; an invalid test
/// selector is an error.
pub fn step_directly_executes(row: &MatrixRow, step: &ProducerStep) -> (r: Result<bool, String>)
    requires
        row.evidence_kind@ == "script"@ && split_ws(row.evidence_ref@).len() == 0 ==> step.program@.len() > 0,
    ensures
        match literal_args(step.args@) {
            None => r == Ok::<bool, String>(false),
            Some(args) => if row.evidence_kind@ == "script"@ {
                r == Ok::<bool, String>(script_step_matches(step.program@, args, row.evidence_ref@))
            } else if row.evidence_kind@ == "test"@ {
                if step.program@ == "cargo"@ && args.len() > 0 && args[0] == "test"@ {
                    match selector_spec(row.evidence_ref@) {
                        None => r is Err,
                        Some(sel) => r == Ok::<bool, String>(test_step_matches(step.program@, args, sel)),
                    }
                } else {
                    r == Ok::<bool, String>(false)
                }
            } else {
                r == Ok::<bool, String>(false)
            },
        },
{
    let args = match literal_list(&step.args) {
        Some(a) => a,
        None => {
            return Ok(false);
        },
    };
    let ghost av = args.deep_view();
    let kind = row.evidence_kind.as_str();
    if eq_str(kind, "script") {
        return Ok(script_matches(step.program.as_str(), &args, row.evidence_ref.as_str()));
    }
    if eq_str(kind, "test") {
        if !eq_str(step.program.as_str(), "cargo") || args.len() == 0 || !eq_str(args[0].as_str(), "test") {
            proof {
                if args.len() > 0 {
                    assert(av[0] == args@[0]@);
                }
            }
            return Ok(false);
        }
        assert(av[0] == args@[0]@);
        let selector = TestSelector::parse(row.evidence_ref.as_str())?;
        return Ok(cargo_step_executes_test(&args, &selector));
    }
    Ok(false)
}

/// What `step_directly_executes` gives: `None` for an invalid selector.
pub open spec fn step_result(row: MatrixRow, step: ProducerStep) -> Option<bool> {
    match literal_args(step.args@) {
        None => Some(false),
        Some(args) => if row.evidence_kind@ == "script"@ {
            Some(script_step_matches(step.program@, args, row.evidence_ref@))
        } else if row.evidence_kind@ == "test"@ {
            if step.program@ == "cargo"@ && args.len() > 0 && args[0] == "test"@ {
                match selector_spec(row.evidence_ref@) {
                    None => None,
                    Some(sel) => Some(test_step_matches(step.program@, args, sel)),
                }
            } else {
                Some(false)
            }
        } else {
            Some(false)
        },
    }
}

/// Evidence `e` of producer `p` is bound to something that actually runs
/// it: a receipt of a candidate or target-host producer, or a step that
/// executes its locator.
pub open spec fn directly_executed(p: Producer, row: MatrixRow) -> bool {
    ||| (row.evidence_kind@ == "receipt"@ && (p.candidate_required || p.tiers.deep_view().contains("target-host"@)))
    ||| exists|s: int| 0 <= s < p.steps@.len() && #[trigger] step_result(row, p.steps@[s]) == Some(true)
}

/// Every evidence of every producer is in the matrix, and no step has an
/// invalid test selector.
pub open spec fn bindings_resolvable(ps: Seq<Producer>, rows: Seq<MatrixRow>) -> bool {
    forall|i: int, e: int|
        0 <= i < ps.len() && 0 <= e < ps[i].evidence_ids@.len() ==> #[trigger] evidence_resolvable(ps[i], rows, e)
}

pub open spec fn evidence_resolvable(p: Producer, rows: Seq<MatrixRow>, e: int) -> bool {
    match evidence_row(rows, p.evidence_ids@[e]@) {
        Some(k) => forall|s: int| 0 <= s < p.steps@.len() ==> #[trigger] step_result(rows[k], p.steps@[s]) is Some,
        None => false,
    }
}

/// The evidence ids some producer executes directly.
pub open spec fn bound_evidence(ps: Seq<Producer>, rows: Seq<MatrixRow>) -> Set<Seq<char>> {
    Set::new(|id: Seq<char>| exists|i: int, e: int| 0 <= i < ps.len() && 0 <= e < ps[i].evidence_ids@.len() && #[trigger] ps[i].evidence_ids@[e]@ == id
        && bound_at(ps[i], rows, e))
}

pub open spec fn bound_at(p: Producer, rows: Seq<MatrixRow>, e: int) -> bool {
    match evidence_row(rows, p.evidence_ids@[e]@) {
        Some(k) => directly_executed(p, rows[k]),
        None => false,
    }
}

fn evidence_bound(p: &Producer, row: &MatrixRow) -> (r: Result<bool, String>)
    requires
        blank_script(*row) ==> forall|s: int| 0 <= s < p.steps@.len() ==> (#[trigger] p.steps@[s]).program@.len() > 0,
    ensures
        r is Ok <==> forall|s: int| 0 <= s < p.steps@.len() ==> #[trigger] step_result(*row, p.steps@[s]) is Some,
        r matches Ok(b) ==> b == directly_executed(*p, *row),
{
    let mut direct = eq_str(row.evidence_kind.as_str(), "receipt") && (p.candidate_required || crate::strset::contains_str_in(
        &p.tiers,
        "target-host",
    ));
    let ghost base = direct;
    let mut s: usize = 0;
    while s < p.steps.len()
        invariant
            s <= p.steps.len(),
            blank_script(*row) ==> forall|q: int| 0 <= q < p.steps@.len() ==> (#[trigger] p.steps@[q]).program@.len() > 0,
            forall|q: int| 0 <= q < s ==> #[trigger] step_result(*row, p.steps@[q]) is Some,
            direct == (base || exists|q: int| 0 <= q < s && #[trigger] step_result(*row, p.steps@[q]) == Some(true)),
        decreases p.steps.len() - s,
    {
        let hit = step_directly_executes(row, &p.steps[s])?;
        assert(step_result(*row, p.steps@[s as int]) == Some(hit));
        direct = direct || hit;
        s += 1;
    }
    Ok(direct)
}

/// A script row whose locator has no words: a step can only be matched
/// against it by an empty program.
pub open spec fn blank_script(row: MatrixRow) -> bool {
    row.evidence_kind@ == "script"@ && split_ws(row.evidence_ref@).len() == 0
}

/// No producer that binds a blank script row has a step with an empty
/// program (the one pairing the locator match cannot compare).
pub open spec fn no_blank_script_with_empty_program(ps: Seq<Producer>, rows: Seq<MatrixRow>) -> bool {
    forall|i: int, k: int, s: int|
        0 <= i < ps.len() && 0 <= k < rows.len() && blank_script(#[trigger] rows[k]) && ps[i].evidence_ids.deep_view().contains(
            rows[k].evidence_id@,
        ) && 0 <= s < ps[i].steps@.len() ==> (#[trigger] ps[i].steps@[s]).program@.len() > 0
}

/// The executable evidence ids that some producer step (or a candidate or
/// target-host receipt producer) actually executes.
pub fn executable_evidence_ids(registry: &ProducerRegistry, rows: &Vec<MatrixRow>) -> (r: Result<Vec<String>, String>)
    requires
        no_blank_script_with_empty_program(registry.producers@, rows@),
    ensures
        r is Ok <==> bindings_resolvable(registry.producers@, rows@),
        r matches Ok(v) ==> crate::strset::sorted(v.deep_view()) && v.deep_view().to_set() == bound_evidence(registry.producers@, rows@),
{
    let ghost ps = registry.producers@;
    let mut bound: Vec<String> = Vec::new();
    let mut i: usize = 0;
    while i < registry.producers.len()
        invariant
            ps == registry.producers@,
            i <= ps.len(),
            no_blank_script_with_empty_program(ps, rows@),
            forall|q: int, e: int| 0 <= q < i && 0 <= e < ps[q].evidence_ids@.len() ==> #[trigger] evidence_resolvable(ps[q], rows@, e),
            crate::strset::sorted(bound.deep_view()),
            bound.deep_view().to_set() == Set::new(|id: Seq<char>| exists|q: int, e: int| 0 <= q < i && 0 <= e < ps[q].evidence_ids@.len() && #[trigger] ps[q].evidence_ids@[e]@ == id
                && bound_at(ps[q], rows@, e)),
        decreases ps.len() - i,
    {
        let p = &registry.producers[i];
        let ghost b0 = bound.deep_view().to_set();
        let mut e: usize = 0;
        while e < p.evidence_ids.len()
            invariant
                ps == registry.producers@,
                i < ps.len(),
                *p == ps[i as int],
                e <= p.evidence_ids.len(),
                no_blank_script_with_empty_program(ps, rows@),
                forall|f: int| 0 <= f < e ==> #[trigger] evidence_resolvable(ps[i as int], rows@, f),
                crate::strset::sorted(bound.deep_view()),
                bound.deep_view().to_set() == b0 + Set::new(|id: Seq<char>| exists|f: int| 0 <= f < e && #[trigger] ps[i as int].evidence_ids@[f]@ == id
                    && bound_at(ps[i as int], rows@, f)),
            decreases p.evidence_ids.len() - e,
        {
            let id = p.evidence_ids[e].as_str();
            let k = match crate::acceptance_matrix::producer::validation::find_evidence_row(rows, id) {
                Some(k) => k,
                None => {
                    assert(!evidence_resolvable(ps[i as int], rows@, e as int));
                    return Err(cat("acceptance producers: missing evidence ", id));
                },
            };
            let ghost bb = bound.deep_view().to_set();
            proof {
                if blank_script(rows@[k as int]) {
                    assert(rows@[k as int].evidence_id@ == id@);
                    assert(p.evidence_ids.deep_view()[e as int] == id@);
                    assert(ps[i as int].evidence_ids.deep_view().contains(rows@[k as int].evidence_id@));
                    assert forall|s: int| 0 <= s < p.steps@.len() implies (#[trigger] p.steps@[s]).program@.len() > 0 by {
                        assert(ps[i as int].steps@[s] == p.steps@[s]);
                    }
                }
            }
            let hit = match evidence_bound(p, &rows[k]) {
                Ok(b) => b,
                Err(err) => {
                    assert(!evidence_resolvable(ps[i as int], rows@, e as int));
                    return Err(err);
                },
            };
            assert(evidence_resolvable(ps[i as int], rows@, e as int));
            assert(bound_at(ps[i as int], rows@, e as int) == hit);
            if hit {
                crate::strset::set_insert(&mut bound, p.evidence_ids[e].clone());
            }
            assert(bound.deep_view().to_set() =~= b0 + Set::new(|id: Seq<char>| exists|f: int| 0 <= f < e + 1 && #[trigger] ps[i as int].evidence_ids@[f]@ == id
                && bound_at(ps[i as int], rows@, f))) by {
                assert forall|x: Seq<char>| #[trigger] bound.deep_view().to_set().contains(x) == (b0 + Set::new(|id: Seq<char>| exists|f: int| 0 <= f < e + 1 && #[trigger] ps[i as int].evidence_ids@[f]@ == id
                    && bound_at(ps[i as int], rows@, f))).contains(x) by {
                    if hit && x == id@ {
                        assert(ps[i as int].evidence_ids@[e as int]@ == x);
                    }
                    if (exists|f: int| 0 <= f < e + 1 && #[trigger] ps[i as int].evidence_ids@[f]@ == x && bound_at(ps[i as int], rows@, f)) {
                        let f = choose|f: int| 0 <= f < e + 1 && #[trigger] ps[i as int].evidence_ids@[f]@ == x && bound_at(ps[i as int], rows@, f);
                        if f == e {
                            assert(hit);
                        }
                    }
                }
            }
            e += 1;
        }
        assert(bound.deep_view().to_set() =~= Set::new(|id: Seq<char>| exists|q: int, e: int| 0 <= q < i + 1 && 0 <= e < ps[q].evidence_ids@.len() && #[trigger] ps[q].evidence_ids@[e]@ == id
            && bound_at(ps[q], rows@, e))) by {
            assert forall|x: Seq<char>| #[trigger] bound.deep_view().to_set().contains(x) implies (exists|q: int, e: int| 0 <= q < i + 1 && 0 <= e < ps[q].evidence_ids@.len() && #[trigger] ps[q].evidence_ids@[e]@ == x
                && bound_at(ps[q], rows@, e)) by {
                if !b0.contains(x) {
                    let f = choose|f: int| 0 <= f < p.evidence_ids@.len() && #[trigger] ps[i as int].evidence_ids@[f]@ == x && bound_at(ps[i as int], rows@, f);
                }
            }
            assert forall|x: Seq<char>| (exists|q: int, e: int| 0 <= q < i + 1 && 0 <= e < ps[q].evidence_ids@.len() && #[trigger] ps[q].evidence_ids@[e]@ == x
                && bound_at(ps[q], rows@, e)) implies #[trigger] bound.deep_view().to_set().contains(x) by {
                let (q, f) = choose|q: int, e: int| 0 <= q < i + 1 && 0 <= e < ps[q].evidence_ids@.len() && #[trigger] ps[q].evidence_ids@[e]@ == x
                    && bound_at(ps[q], rows@, e);
                if q < i {
                    assert(b0.contains(x));
                }
            }
        }
        i += 1;
    }
    Ok(bound)
}

} // verus!
