//! Canonical command and toolchain policy for CI producer jobs.
use super::yaml::{
    as_mapping, as_sequence, as_string, has_key, lookup, mapping_of, optional, required, scalar_of, scalar_text,
    sequence_of, string_of, YamlNode,
};
use crate::strset::{set_insert, sorted};
use crate::text::{
    cat, cat3, chars_of, contains, contains_str, decimal, decimal_string, eq_str, is_ascii_alnum, lines, lines_of,
    split_ws, split_ws_str, starts_with, starts_with_str, to_string, trim, trim_str,
};
use vstd::prelude::*;

verus! {

/// The pinned Rust toolchain setup action.
pub const RUST_ACTION_REF: &'static str = "dtolnay/rust-toolchain@fa04a1451ff1842e2626ccb99004d0195b455a88";

/// The exact Rust toolchain CI producer jobs install.
pub const EXACT_TOOLCHAIN: &'static str = "1.97.0";

/// One filtered acceptance command: whether it only plans, and the producer
/// set it names (kept sorted).
pub struct CiCommand {
    pub plan: bool,
    pub producers: Vec<String>,
}

/// A command's view: the plan flag and the set of producers.
pub open spec fn command_view(c: CiCommand) -> (bool, Set<Seq<char>>) {
    (c.plan, c.producers.deep_view().to_set())
}

pub open spec fn ci_producer_char(c: char) -> bool {
    is_ascii_alnum(c) || c == '.' || c == '-'
}

/// A CI producer ID: `ci.` then ASCII letters, digits, `.` and `-`.
pub open spec fn ci_producer_id_ok(id: Seq<char>) -> bool {
    starts_with(id, "ci."@) && forall|i: int| 0 <= i < id.len() ==> ci_producer_char(#[trigger] id[i])
}

/// The position of the tier token in a canonical `cargo run` acceptance argv.
pub open spec fn tier_index(t: Seq<Seq<char>>) -> Option<int> {
    if t.len() >= 3 && t[0] == "cargo"@ && t[1] == "run"@ && t[2] == "--locked"@ {
        let k: int = if t.len() > 3 && t[3] == "--quiet"@ { 4 } else { 3 };
        if t.len() >= k + 5 && t[k] == "-p"@ && t[k + 1] == "deve_baseline"@ && t[k + 2] == "--"@ && t[k + 3]
            == "acceptance-run"@ && t[k + 4] == "--tier"@ {
            Some(k + 5)
        } else {
            None
        }
    } else {
        None
    }
}

/// From `j` on, the tokens are `--producer <valid id>` pairs.
pub open spec fn producer_tokens_ok(t: Seq<Seq<char>>, j: int) -> bool
    decreases t.len() - j,
{
    if j >= t.len() || j < 0 {
        true
    } else {
        t[j] == "--producer"@ && j + 1 < t.len() && ci_producer_id_ok(t[j + 1]) && producer_tokens_ok(t, j + 2)
    }
}

/// The producer IDs named from `j` on.
pub open spec fn producer_ids(t: Seq<Seq<char>>, j: int) -> Seq<Seq<char>>
    decreases t.len() - j,
{
    if j + 1 >= t.len() || j < 0 {
        Seq::empty()
    } else {
        seq![t[j + 1]] + producer_ids(t, j + 2)
    }
}

/// What one command line means: an error (`None`), a command to ignore
/// (a plan of another tier), or a CI command.
pub open spec fn command_spec(line: Seq<char>) -> Option<Option<(bool, Set<Seq<char>>)>> {
    let t = split_ws(line);
    match tier_index(t) {
        None => None,
        Some(i) => if i >= t.len() {
            None
        } else {
            let plan = i + 1 < t.len() && t[i + 1] == "--plan"@;
            let j = if plan { i + 2 } else { i + 1 };
            let ps = producer_ids(t, j);
            if !producer_tokens_ok(t, j) || !ps.no_duplicates() {
                None
            } else if t[i] != "ci"@ {
                if !plan || ps.len() > 0 {
                    None
                } else {
                    Some(None)
                }
            } else if !plan && ps.len() == 0 {
                None
            } else {
                Some(Some((plan, ps.to_set())))
            }
        },
    }
}

/// Whether a run script names the acceptance runner at all.
pub open spec fn run_has_acceptance(run: Seq<char>) -> bool {
    contains(run, "acceptance-run"@) || contains(run, "--tier ci"@)
}

/// The commands of the first `n` lines.
pub open spec fn run_commands(ls: Seq<Seq<char>>, n: int) -> Option<Seq<(bool, Set<Seq<char>>)>>
    decreases n,
{
    if n <= 0 {
        Some(Seq::empty())
    } else {
        match run_commands(ls, n - 1) {
            None => None,
            Some(acc) => {
                let l = trim(ls[n - 1]);
                if l.len() == 0 {
                    Some(acc)
                } else if !contains(l, "acceptance-run"@) {
                    None
                } else {
                    match command_spec(l) {
                        None => None,
                        Some(None) => Some(acc),
                        Some(Some(c)) => Some(acc.push(c)),
                    }
                }
            },
        }
    }
}

/// The acceptance commands of a run script; every non-blank line of a script
/// that names the runner must be one canonical command.
pub open spec fn run_spec(run: Seq<char>) -> Option<Seq<(bool, Set<Seq<char>>)>> {
    if !run_has_acceptance(run) {
        Some(Seq::empty())
    } else {
        run_commands(lines(run), lines(run).len() as int)
    }
}

fn expect_token(tokens: &Vec<String>, index: usize, expected: &str, path: &str) -> (r: Result<(), String>)
    ensures
        r is Ok <==> index < tokens.deep_view().len() && tokens.deep_view()[index as int] == expected@,
{
    if index < tokens.len() && eq_str(tokens[index].as_str(), expected) {
        return Ok(());
    }
    let head = cat3("acceptance producers: ", path, " must use the canonical acceptance argv; expected ");
    let mid = cat3(head.as_str(), expected, " at token ");
    Err(cat(mid.as_str(), decimal_string(index as u128).as_str()))
}

fn is_ci_producer_id(id: &str) -> (r: bool)
    ensures
        r == ci_producer_id_ok(id@),
{
    if !starts_with_str(id, "ci.") {
        return false;
    }
    let cs = chars_of(id);
    let mut i: usize = 0;
    while i < cs.len()
        invariant
            i <= cs.len(),
            cs@ == id@,
            forall|k: int| 0 <= k < i ==> ci_producer_char(#[trigger] cs@[k]),
        decreases cs.len() - i,
    {
        let c = cs[i];
        if !(('a' <= c && c <= 'z') || ('A' <= c && c <= 'Z') || ('0' <= c && c <= '9') || c == '.' || c == '-') {
            return false;
        }
        i += 1;
    }
    true
}

proof fn lemma_producer_ids_step(t: Seq<Seq<char>>, j: int)
    requires
        0 <= j,
        j + 1 < t.len(),
    ensures
        producer_ids(t, j) == seq![t[j + 1]] + producer_ids(t, j + 2),
{
}

pub(crate) proof fn lemma_dup_prefix(seen: Seq<Seq<char>>, x: Seq<char>, rest: Seq<Seq<char>>)
    requires
        seen.contains(x),
    ensures
        !(seen + (seq![x] + rest)).no_duplicates(),
{
    let s = seen + (seq![x] + rest);
    let a = choose|a: int| 0 <= a < seen.len() && seen[a] == x;
    assert(s[a] == x);
    assert(s[seen.len() as int] == x);
}

pub(crate) proof fn lemma_no_dup_push(seen: Seq<Seq<char>>, x: Seq<char>)
    requires
        seen.no_duplicates(),
        !seen.contains(x),
    ensures
        seen.push(x).no_duplicates(),
{
    let s = seen.push(x);
    assert forall|a: int, b: int| 0 <= a < s.len() && 0 <= b < s.len() && a != b implies s[a] != s[b] by {
        if a < seen.len() && b < seen.len() {
        } else if a == seen.len() {
            assert(s[b] == seen[b]);
        } else {
            assert(s[a] == seen[a]);
        }
    }
}

/// Parses one acceptance command line.
pub fn parse_command(command: &str, path: &str) -> (r: Result<Option<CiCommand>, String>)
    ensures
        r is Ok <==> command_spec(command@) is Some,
        r matches Ok(Some(c)) ==> command_spec(command@) == Some(Some(command_view(c))) && sorted(c.producers.deep_view()),
        r matches Ok(None) ==> command_spec(command@) == Some(None::<(bool, Set<Seq<char>>)>),
{
    let tokens = split_ws_str(command);
    let ghost t = tokens.deep_view();
    assert(t == split_ws(command@));
    let mut index: usize = 0;
    expect_token(&tokens, index, "cargo", path)?;
    index += 1;
    expect_token(&tokens, index, "run", path)?;
    index += 1;
    expect_token(&tokens, index, "--locked", path)?;
    index += 1;
    if index < tokens.len() && eq_str(tokens[index].as_str(), "--quiet") {
        index += 1;
    }
    assert(index == if t.len() > 3 && t[3] == "--quiet"@ { 4int } else { 3int });
    expect_token(&tokens, index, "-p", path)?;
    index += 1;
    expect_token(&tokens, index, "deve_baseline", path)?;
    index += 1;
    expect_token(&tokens, index, "--", path)?;
    index += 1;
    expect_token(&tokens, index, "acceptance-run", path)?;
    index += 1;
    expect_token(&tokens, index, "--tier", path)?;
    index += 1;
    assert(tier_index(t) == Some(index as int));
    if index >= tokens.len() {
        return Err(cat3("acceptance producers: ", path, " is missing the acceptance tier"));
    }
    let tier_at = index;
    index += 1;
    let plan = index < tokens.len() && eq_str(tokens[index].as_str(), "--plan");
    if plan {
        index += 1;
    }
    let ghost j0 = index as int;
    let mut producers: Vec<String> = Vec::new();
    let ghost mut seen: Seq<Seq<char>> = Seq::empty();
    while index < tokens.len()
        invariant
            t == tokens.deep_view(),
            t == split_ws(command@),
            tier_index(t) == Some(tier_at as int),
            tier_at < t.len(),
            plan == (tier_at + 1 < t.len() && t[tier_at + 1] == "--plan"@),
            j0 == if plan { tier_at + 2 } else { tier_at + 1 },
            j0 <= index,
            (index - j0) % 2 == 0,
            index <= tokens.len(),
            producer_tokens_ok(t, j0) == producer_tokens_ok(t, index as int),
            producer_ids(t, j0) == seen + producer_ids(t, index as int),
            seen.no_duplicates(),
            sorted(producers.deep_view()),
            producers.deep_view().to_set() == seen.to_set(),
            producers.deep_view().len() == seen.len(),
        decreases tokens.len() - index,
    {
        expect_token(&tokens, index, "--producer", path)?;
        index += 1;
        if index >= tokens.len() {
            return Err(cat3("acceptance producers: ", path, " has --producer without an ID"));
        }
        let id = tokens[index].as_str();
        assert(t[index as int] == id@);
        if !is_ci_producer_id(id) {
            let head = cat3("acceptance producers: ", path, " has invalid CI producer ID ");
            return Err(cat(head.as_str(), id));
        }
        proof {
            lemma_producer_ids_step(t, index - 1);
            assert(seen.to_set().contains(id@) == seen.contains(id@));
        }
        let ghost before = producers.deep_view();
        if !set_insert(&mut producers, to_string(id)) {
            assert(before.contains(id@));
            assert(before.to_set().contains(id@));
            proof {
                assert(seen.to_set().contains(id@));
                lemma_dup_prefix(seen, id@, producer_ids(t, index + 1));
            }
            let head = cat3("acceptance producers: ", path, " repeats producer ");
            return Err(cat(head.as_str(), id));
        }
        proof {
            lemma_no_dup_push(seen, id@);
            seen.lemma_push_to_set_commute(id@);
            assert(seen + (seq![id@] + producer_ids(t, index + 1)) == seen.push(id@) + producer_ids(t, index + 1));
            seen = seen.push(id@);
        }
        index += 1;
    }
    assert(producer_ids(t, index as int) == Seq::<Seq<char>>::empty());
    assert(seen + Seq::<Seq<char>>::empty() == seen);
    if !eq_str(tokens[tier_at].as_str(), "ci") {
        if !plan || producers.len() > 0 {
            return Err(cat3("acceptance producers: ", path, " may only plan non-CI tiers in check.yml"));
        }
        return Ok(None);
    }
    if !plan && producers.len() == 0 {
        return Err(cat3(
            "acceptance producers: ",
            path,
            " executes the multi-host CI tier without explicit --producer filters",
        ));
    }
    Ok(Some(CiCommand { plan, producers }))
}


proof fn lemma_run_commands_stays_none(ls: Seq<Seq<char>>, n: int, m: int)
    requires
        0 <= n <= m,
        run_commands(ls, n) is None,
    ensures
        run_commands(ls, m) is None,
    decreases m - n,
{
    if m > n {
        lemma_run_commands_stays_none(ls, n, m - 1);
    }
}

/// The commands of a run script, in order.
pub fn parse_run(run: &str, path: &str) -> (r: Result<Vec<CiCommand>, String>)
    ensures
        r is Ok <==> run_spec(run@) is Some,
        r matches Ok(v) ==> run_spec(run@) == Some(v@.map_values(|c: CiCommand| command_view(c)))
            && forall|k: int| 0 <= k < v@.len() ==> sorted((#[trigger] v@[k]).producers.deep_view()),
{
    let mut commands: Vec<CiCommand> = Vec::new();
    if !contains_str(run, "acceptance-run") && !contains_str(run, "--tier ci") {
        assert(commands@.map_values(|c: CiCommand| command_view(c)) =~= Seq::empty());
        return Ok(commands);
    }
    let ls = lines_of(run);
    let ghost lv = ls.deep_view();
    let mut k: usize = 0;
    while k < ls.len()
        invariant
            lv == ls.deep_view(),
            lv == lines(run@),
            run_has_acceptance(run@),
            k <= ls.len(),
            run_commands(lv, k as int) == Some(commands@.map_values(|c: CiCommand| command_view(c))),
            forall|q: int| 0 <= q < commands@.len() ==> sorted((#[trigger] commands@[q]).producers.deep_view()),
        decreases ls.len() - k,
    {
        let line = trim_str(ls[k].as_str());
        assert(line@ == trim(lv[k as int]));
        if !line.as_str().is_empty() {
            if !contains_str(line.as_str(), "acceptance-run") {
                proof {
                    lemma_run_commands_stays_none(lv, k + 1, lv.len() as int);
                }
                return Err(cat3(
                    "acceptance producers: ",
                    path,
                    " mixes an acceptance command with inert or compound shell text",
                ));
            }
            let parsed = parse_command(line.as_str(), path);
            if parsed.is_err() {
                proof {
                    lemma_run_commands_stays_none(lv, k + 1, lv.len() as int);
                }
            }
            match parsed? {
                Some(c) => {
                    let ghost before = commands@;
                    commands.push(c);
                    assert(commands@.map_values(|c: CiCommand| command_view(c)) =~= before.map_values(
                        |c: CiCommand| command_view(c),
                    ).push(command_view(commands@[commands@.len() - 1])));
                },
                None => {},
            }
        } else {
            assert(line@.len() == 0);
        }
        k += 1;
    }
    Ok(commands)
}

/// The step or job declares `if` or `continue-on-error`.
pub open spec fn tolerated_or_conditional(h: Seq<(YamlNode, YamlNode)>) -> bool {
    has_key(h, "if"@) || has_key(h, "continue-on-error"@)
}

/// The step reinterprets how its command runs.
pub open spec fn step_modified(h: Seq<(YamlNode, YamlNode)>) -> bool {
    has_key(h, "shell"@) || has_key(h, "timeout-minutes"@) || has_key(h, "env"@) || has_key(h, "working-directory"@)
}

/// The job expands or reinterprets its host execution.
pub open spec fn job_modified(h: Seq<(YamlNode, YamlNode)>) -> bool {
    has_key(h, "strategy"@) || has_key(h, "defaults"@) || has_key(h, "env"@) || has_key(h, "container"@) || has_key(
        h,
        "services"@,
    )
}

fn declared(path: &str, key: &str, tail: &str) -> (r: String)
    ensures
        r@ == "acceptance producers: "@ + path@ + " may not declare "@ + key@ + tail@,
{
    let head = cat3("acceptance producers: ", path, " may not declare ");
    cat3(head.as_str(), key, tail)
}

pub fn reject_tolerated_or_conditional(h: &Vec<(YamlNode, YamlNode)>, path: &str) -> (r: Result<(), String>)
    ensures
        r is Ok <==> !tolerated_or_conditional(h@),
{
    let tail = "; required producer execution cannot be skipped or tolerated";
    if optional(h, "if").is_some() {
        return Err(declared(path, "if", tail));
    }
    if optional(h, "continue-on-error").is_some() {
        return Err(declared(path, "continue-on-error", tail));
    }
    Ok(())
}

pub fn reject_step_execution_modifiers(h: &Vec<(YamlNode, YamlNode)>, path: &str) -> (r: Result<(), String>)
    ensures
        r is Ok <==> !step_modified(h@),
{
    let tail = "; canonical producer execution may not be reinterpreted";
    if optional(h, "shell").is_some() {
        return Err(declared(path, "shell", tail));
    }
    if optional(h, "timeout-minutes").is_some() {
        return Err(declared(path, "timeout-minutes", tail));
    }
    if optional(h, "env").is_some() {
        return Err(declared(path, "env", tail));
    }
    if optional(h, "working-directory").is_some() {
        return Err(declared(path, "working-directory", tail));
    }
    Ok(())
}

pub fn reject_job_execution_modifiers(h: &Vec<(YamlNode, YamlNode)>, path: &str) -> (r: Result<(), String>)
    ensures
        r is Ok <==> !job_modified(h@),
{
    let tail = "; producer jobs must preserve one canonical host execution";
    if optional(h, "strategy").is_some() {
        return Err(declared(path, "strategy", tail));
    }
    if optional(h, "defaults").is_some() {
        return Err(declared(path, "defaults", tail));
    }
    if optional(h, "env").is_some() {
        return Err(declared(path, "env", tail));
    }
    if optional(h, "container").is_some() {
        return Err(declared(path, "container", tail));
    }
    if optional(h, "services").is_some() {
        return Err(declared(path, "services", tail));
    }
    Ok(())
}


/// The acceptance commands of a job's steps: plan commands, execution
/// commands, and the first step that runs one.
pub struct JobCommands {
    pub plans: Vec<Vec<String>>,
    pub executions: Vec<Vec<String>>,
    pub first_command_step: Option<usize>,
}

pub open spec fn sets_of(v: Seq<Vec<String>>) -> Seq<Set<Seq<char>>> {
    v.map_values(|p: Vec<String>| p.deep_view().to_set())
}

pub open spec fn all_sorted(v: Seq<Vec<String>>) -> bool {
    forall|k: int| 0 <= k < v.len() ==> sorted((#[trigger] v[k]).deep_view())
}

pub open spec fn opt_int(o: Option<usize>) -> Option<int> {
    match o {
        Some(i) => Some(i as int),
        None => None,
    }
}

/// Files the first `m` commands under plans or executions.
pub open spec fn add_commands(
    acc: (Seq<Set<Seq<char>>>, Seq<Set<Seq<char>>>),
    cmds: Seq<(bool, Set<Seq<char>>)>,
    m: int,
) -> (Seq<Set<Seq<char>>>, Seq<Set<Seq<char>>>)
    decreases m,
{
    if m <= 0 {
        acc
    } else {
        let a = add_commands(acc, cmds, m - 1);
        if cmds[m - 1].0 {
            (a.0.push(cmds[m - 1].1), a.1)
        } else {
            (a.0, a.1.push(cmds[m - 1].1))
        }
    }
}

/// The acceptance commands of one step, or an error (`None`).
pub open spec fn step_spec(step: YamlNode) -> Option<Seq<(bool, Set<Seq<char>>)>> {
    match mapping_of(step) {
        None => None,
        Some(h) => match lookup(h, "run"@) {
            None => Some(Seq::empty()),
            Some(v) => match string_of(v) {
                None => None,
                Some(run) => match run_spec(run) {
                    None => None,
                    Some(cmds) => if cmds.len() > 0 && (tolerated_or_conditional(h) || step_modified(h)) {
                        None
                    } else {
                        Some(cmds)
                    },
                },
            },
        },
    }
}

/// The acceptance commands of the first `n` steps.
pub open spec fn step_fold(steps: Seq<YamlNode>, n: int) -> Option<
    (Seq<Set<Seq<char>>>, Seq<Set<Seq<char>>>, Option<int>),
>
    decreases n,
{
    if n <= 0 {
        Some((Seq::empty(), Seq::empty(), None))
    } else {
        match step_fold(steps, n - 1) {
            None => None,
            Some(acc) => match step_spec(steps[n - 1]) {
                None => None,
                Some(cmds) => if cmds.len() == 0 {
                    Some(acc)
                } else {
                    let a = add_commands((acc.0, acc.1), cmds, cmds.len() as int);
                    Some((a.0, a.1, if acc.2 is Some { acc.2 } else { Some(n - 1) }))
                },
            },
        }
    }
}

/// A job's acceptance commands; a job without steps has none.
pub open spec fn job_commands_spec(job: Seq<(YamlNode, YamlNode)>) -> Option<
    (Seq<Set<Seq<char>>>, Seq<Set<Seq<char>>>, Option<int>),
> {
    match lookup(job, "steps"@) {
        None => Some((Seq::empty(), Seq::empty(), None)),
        Some(v) => match sequence_of(v) {
            None => None,
            Some(steps) => step_fold(steps, steps.len() as int),
        },
    }
}

proof fn lemma_step_fold_stays_none(steps: Seq<YamlNode>, n: int, m: int)
    requires
        0 <= n <= m,
        step_fold(steps, n) is None,
    ensures
        step_fold(steps, m) is None,
    decreases m - n,
{
    if m > n {
        lemma_step_fold_stays_none(steps, n, m - 1);
    }
}

/// `base`, `field` and the index in brackets: the path of one list item.
#[verifier::opaque]
pub open spec fn indexed_path_spec(base: Seq<char>, field: Seq<char>, index: nat) -> Seq<char> {
    base + field + "["@ + crate::text::decimal(index) + "]"@
}

fn indexed_path(base: &str, field: &str, index: usize) -> (r: String)
    ensures
        r@ == indexed_path_spec(base@, field@, index as nat),
{
    proof {
        reveal(indexed_path_spec);
    }
    let head = cat3(base, field, "[");
    cat3(head.as_str(), decimal_string(index as u128).as_str(), "]")
}

fn step_commands(node: &YamlNode, step_path: &str) -> (r: Result<Vec<CiCommand>, String>)
    ensures
        r is Ok <==> step_spec(*node) is Some,
        r matches Ok(v) ==> step_spec(*node) == Some(v@.map_values(|c: CiCommand| command_view(c)))
            && forall|k: int| 0 <= k < v@.len() ==> sorted((#[trigger] v@[k]).producers.deep_view()),
{
    let step = as_mapping(node, step_path)?;
    let run = match optional(step, "run") {
        Some(v) => v,
        None => {
            let none: Vec<CiCommand> = Vec::new();
            assert(none@.map_values(|c: CiCommand| command_view(c)) =~= Seq::empty());
            return Ok(none);
        },
    };
    let run_path = cat(step_path, ".run");
    let run_text = as_string(run, run_path.as_str())?;
    let commands = parse_run(run_text, run_path.as_str())?;
    if commands.len() > 0 {
        reject_tolerated_or_conditional(step, step_path)?;
        reject_step_execution_modifiers(step, step_path)?;
    }
    Ok(commands)
}

fn file_commands(plans: &mut Vec<Vec<String>>, executions: &mut Vec<Vec<String>>, commands: &Vec<CiCommand>)
    requires
        all_sorted(old(plans)@),
        all_sorted(old(executions)@),
        forall|k: int| 0 <= k < commands@.len() ==> sorted((#[trigger] commands@[k]).producers.deep_view()),
    ensures
        (sets_of(final(plans)@), sets_of(final(executions)@)) == add_commands(
            (sets_of(old(plans)@), sets_of(old(executions)@)),
            commands@.map_values(|c: CiCommand| command_view(c)),
            commands@.len() as int,
        ),
        all_sorted(final(plans)@),
        all_sorted(final(executions)@),
{
    let ghost acc = (sets_of(plans@), sets_of(executions@));
    let ghost cv = commands@.map_values(|c: CiCommand| command_view(c));
    let mut q: usize = 0;
    while q < commands.len()
        invariant
            cv == commands@.map_values(|c: CiCommand| command_view(c)),
            forall|k: int| 0 <= k < commands@.len() ==> sorted((#[trigger] commands@[k]).producers.deep_view()),
            q <= commands@.len(),
            (sets_of(plans@), sets_of(executions@)) == add_commands(acc, cv, q as int),
            all_sorted(plans@),
            all_sorted(executions@),
        decreases commands@.len() - q,
    {
        let c = &commands[q];
        let ps = clone_set(&c.producers);
        let ghost p0 = plans@;
        let ghost e0 = executions@;
        if c.plan {
            plans.push(ps);
            assert(sets_of(plans@) =~= sets_of(p0).push(cv[q as int].1));
        } else {
            executions.push(ps);
            assert(sets_of(executions@) =~= sets_of(e0).push(cv[q as int].1));
        }
        q += 1;
    }
}

#[verifier::rlimit(40)]
pub fn job_commands(job: &Vec<(YamlNode, YamlNode)>, job_path: &str) -> (r: Result<JobCommands, String>)
    ensures
        r is Ok <==> job_commands_spec(job@) is Some,
        r matches Ok(c) ==> job_commands_spec(job@) == Some(
            (sets_of(c.plans@), sets_of(c.executions@), opt_int(c.first_command_step)),
        ) && all_sorted(c.plans@) && all_sorted(c.executions@),
{
    let mut plans: Vec<Vec<String>> = Vec::new();
    let mut executions: Vec<Vec<String>> = Vec::new();
    let mut first_command_step: Option<usize> = None;
    assert(sets_of(plans@) =~= Seq::empty() && sets_of(executions@) =~= Seq::empty());
    let raw_steps = match optional(job, "steps") {
        Some(v) => v,
        None => {
            return Ok(JobCommands { plans, executions, first_command_step });
        },
    };
    let steps = as_sequence(raw_steps, cat(job_path, ".steps").as_str())?;
    let ghost sv = steps@;
    let mut index: usize = 0;
    while index < steps.len()
        invariant
            sv == steps@,
            job_commands_spec(job@) == step_fold(sv, sv.len() as int),
            index <= sv.len(),
            step_fold(sv, index as int) == Some(
                (sets_of(plans@), sets_of(executions@), opt_int(first_command_step)),
            ),
            all_sorted(plans@),
            all_sorted(executions@),
        decreases sv.len() - index,
    {
        let step_path = indexed_path(job_path, ".steps", index);
        let found = step_commands(&steps[index], step_path.as_str());
        if found.is_err() {
            proof {
                lemma_step_fold_stays_none(sv, index + 1, sv.len() as int);
            }
        }
        let commands = found?;
        if commands.len() > 0 {
            if first_command_step.is_none() {
                first_command_step = Some(index);
            }
            file_commands(&mut plans, &mut executions, &commands);
        }
        index += 1;
    }
    Ok(JobCommands { plans, executions, first_command_step })
}

pub(crate) fn clone_set(v: &Vec<String>) -> (r: Vec<String>)
    ensures
        r.deep_view() == v.deep_view(),
{
    let mut r: Vec<String> = Vec::new();
    let mut i: usize = 0;
    while i < v.len()
        invariant
            i <= v.len(),
            r.deep_view() == v.deep_view().take(i as int),
        decreases v.len() - i,
    {
        let x = to_string(v[i].as_str());
        let ghost before = r.deep_view();
        r.push(x);
        assert(r.deep_view() =~= before.push(x@));
        assert(r.deep_view() =~= v.deep_view().take(i + 1));
        i += 1;
    }
    assert(v.deep_view().take(v.len() as int) =~= v.deep_view());
    r
}

/// Scans the steps before `before` for the setup action `action`: an error
/// (`None`), or whether its `with.input` is `expected`.
pub open spec fn setup_scan(
    steps: Seq<YamlNode>,
    k: int,
    before: int,
    action: Seq<char>,
    input: Seq<char>,
    expected: Seq<char>,
) -> Option<bool>
    decreases before - k,
{
    if k >= before || k >= steps.len() || k < 0 {
        Some(false)
    } else {
        match mapping_of(steps[k]) {
            None => None,
            Some(h) => match lookup(h, "uses"@) {
                None => setup_scan(steps, k + 1, before, action, input, expected),
                Some(u) => match string_of(u) {
                    None => None,
                    Some(us) => if us != action {
                        setup_scan(steps, k + 1, before, action, input, expected)
                    } else if tolerated_or_conditional(h) || step_modified(h) {
                        None
                    } else {
                        match lookup(h, "with"@) {
                            None => None,
                            Some(w) => match mapping_of(w) {
                                None => None,
                                Some(wh) => match lookup(wh, input) {
                                    None => None,
                                    Some(iv) => match scalar_of(iv) {
                                        None => None,
                                        Some(t) => Some(t == expected),
                                    },
                                },
                            },
                        }
                    },
                },
            },
        }
    }
}

fn has_setup_action(steps: &Vec<YamlNode>, before: usize, action_ref: &str, input: &str, expected: &str) -> (r: Result<
    bool,
    String,
>)
    ensures
        match r {
            Ok(b) => setup_scan(steps@, 0, before as int, action_ref@, input@, expected@) == Some(b),
            Err(_) => setup_scan(steps@, 0, before as int, action_ref@, input@, expected@) is None,
        },
{
    let mut k: usize = 0;
    while k < before && k < steps.len()
        invariant
            k <= steps@.len(),
            setup_scan(steps@, 0, before as int, action_ref@, input@, expected@) == setup_scan(
                steps@,
                k as int,
                before as int,
                action_ref@,
                input@,
                expected@,
            ),
        decreases steps@.len() - k,
    {
        let path = cat3("check.yml setup step[", decimal_string(k as u128).as_str(), "]");
        let step = as_mapping(&steps[k], path.as_str())?;
        let uses = match optional(step, "uses") {
            Some(u) => u,
            None => {
                k += 1;
                continue;
            },
        };
        let action = as_string(uses, cat(path.as_str(), ".uses").as_str())?;
        if !eq_str(action, action_ref) {
            k += 1;
            continue;
        }
        reject_tolerated_or_conditional(step, path.as_str())?;
        reject_step_execution_modifiers(step, path.as_str())?;
        let with = as_mapping(required(step, "with", path.as_str())?, cat(path.as_str(), ".with").as_str())?;
        let text = scalar_text(required(with, input, path.as_str())?)?;
        return Ok(eq_str(text.as_str(), expected));
    }
    Ok(false)
}

/// The exact Rust toolchain is installed before step `before`.
pub open spec fn rust_installed(steps: Seq<YamlNode>, before: int) -> Option<bool> {
    setup_scan(steps, 0, before, RUST_ACTION_REF@, "toolchain"@, EXACT_TOOLCHAIN@)
}

/// Node.js 24 is installed before step `before`.
pub open spec fn node_installed(steps: Seq<YamlNode>, before: int) -> Option<bool> {
    setup_scan(steps, 0, before, "actions/setup-node@v6"@, "node-version"@, "24"@)
}

pub fn require_rust_toolchain(steps: &Vec<YamlNode>, before: usize, job_path: &str) -> (r: Result<(), String>)
    ensures
        r is Ok <==> rust_installed(steps@, before as int) == Some(true),
{
    if has_setup_action(steps, before, RUST_ACTION_REF, "toolchain", EXACT_TOOLCHAIN)? {
        Ok(())
    } else {
        let head = cat3("acceptance producers: ", job_path, " must install exact Rust ");
        Err(cat3(head.as_str(), EXACT_TOOLCHAIN, " before producer commands"))
    }
}

pub fn require_node_24(steps: &Vec<YamlNode>, before: usize, job_path: &str) -> (r: Result<(), String>)
    ensures
        r is Ok <==> node_installed(steps@, before as int) == Some(true),
{
    if has_setup_action(steps, before, "actions/setup-node@v6", "node-version", "24")? {
        Ok(())
    } else {
        Err(cat3("acceptance producers: ", job_path, " must install exact Node.js 24"))
    }
}

} // verus!
