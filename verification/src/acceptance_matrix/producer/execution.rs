//! How a producer's registered steps become commands: its environment, its
//! bound inputs and its resolved steps.
//!
//! An environment is a list of (name, value) pairs read as a map in which a
//! later pair overrides an earlier one with the same name.
use super::model::{Producer, ProducerArg, ProducerStep};
use crate::strset::{copy_strings, lemma_lex_asymmetric, lemma_lex_irreflexive, lemma_lex_total, lemma_lex_transitive, lex_lt, str_lt};
use crate::text::{cat, cat3, chars_of, eq_str, push_char, to_string};
use vstd::prelude::*;

verus! {

/// One command to run: a program, its arguments and its whole environment.
#[derive(Debug)]
pub struct CommandStep {
    pub program: String,
    pub args: Vec<String>,
    pub env: Vec<(String, String)>,
}

/// Everything one producer execution runs and records.
#[derive(Debug)]
pub struct ExecutionSpec {
    pub producer_id: String,
    pub producer_contract: String,
    pub command_artifacts: Vec<String>,
    pub producer_inputs: Vec<(String, String)>,
    pub steps: Vec<CommandStep>,
    pub finally_steps: Vec<CommandStep>,
    pub timeout_seconds: u64,
}

/// The map an environment list denotes.
pub open spec fn env_map(v: Seq<(String, String)>) -> Map<Seq<char>, Seq<char>>
    decreases v.len(),
{
    if v.len() == 0 {
        Map::empty()
    } else {
        env_map(v.drop_last()).insert(v.last().0@, v.last().1@)
    }
}

/// Sets `name` to `value`, overriding any earlier value.
pub fn env_set(env: &mut Vec<(String, String)>, name: &str, value: &str)
    ensures
        env_map(final(env)@) == env_map(old(env)@).insert(name@, value@),
{
    let ghost before = env@;
    let mut kept: Vec<(String, String)> = Vec::new();
    let mut i: usize = 0;
    while i < env.len()
        invariant
            i <= env@.len(),
            env@ == before,
            env_map(kept@) == env_map(before.take(i as int)).remove(name@),
        decreases env@.len() - i,
    {
        assert(before.take(i + 1).drop_last() =~= before.take(i as int));
        assert(before.take(i + 1).last() == before[i as int]);
        if !eq_str(env[i].0.as_str(), name) {
            let ghost prev = kept@;
            let entry = (to_string(env[i].0.as_str()), to_string(env[i].1.as_str()));
            kept.push(entry);
            assert(kept@.drop_last() =~= prev);
            assert(env_map(kept@) =~= env_map(before.take(i + 1)).remove(name@));
        } else {
            assert(env_map(kept@) =~= env_map(before.take(i + 1)).remove(name@));
        }
        i += 1;
    }
    assert(before.take(before.len() as int) =~= before);
    let ghost prev = kept@;
    kept.push((to_string(name), to_string(value)));
    assert(kept@.drop_last() =~= prev);
    assert(env_map(kept@) =~= env_map(before).insert(name@, value@));
    *env = kept;
}

/// The value of `name`, where it is set.
pub fn env_get<'a>(env: &'a Vec<(String, String)>, name: &str) -> (r: Option<&'a str>)
    ensures
        match r {
            Some(v) => env_map(env@).contains_key(name@) && env_map(env@)[name@] == v@,
            None => !env_map(env@).contains_key(name@),
        },
{
    let mut i: usize = env.len();
    while i > 0
        invariant
            i <= env@.len(),
            forall|j: int| i <= j < env@.len() ==> (#[trigger] env@[j]).0@ != name@,
        decreases i,
    {
        i -= 1;
        if eq_str(env[i].0.as_str(), name) {
            proof {
                lemma_env_map_lookup(env@, name@, i as int);
            }
            return Some(env[i].1.as_str());
        }
    }
    proof {
        lemma_env_map_absent(env@, name@);
    }
    None
}

proof fn lemma_env_map_lookup(v: Seq<(String, String)>, name: Seq<char>, i: int)
    requires
        0 <= i < v.len(),
        v[i].0@ == name,
        forall|j: int| i < j < v.len() ==> (#[trigger] v[j]).0@ != name,
    ensures
        env_map(v).contains_key(name),
        env_map(v)[name] == v[i].1@,
    decreases v.len(),
{
    if i < v.len() - 1 {
        lemma_env_map_lookup(v.drop_last(), name, i);
    }
}

proof fn lemma_env_map_absent(v: Seq<(String, String)>, name: Seq<char>)
    requires
        forall|j: int| 0 <= j < v.len() ==> (#[trigger] v[j]).0@ != name,
    ensures
        !env_map(v).contains_key(name),
    decreases v.len(),
{
    if v.len() > 0 {
        lemma_env_map_absent(v.drop_last(), name);
    }
}

/// The text with each backslash turned into a forward slash.
pub open spec fn forward_slashes(s: Seq<char>) -> Seq<char> {
    s.map_values(|c: char| if c == '\\' { '/' } else { c })
}

/// `m` with the first `n` required variables set from `lookup`.
pub open spec fn with_required(
    m: Map<Seq<char>, Seq<char>>,
    names: Seq<String>,
    lookup: Map<Seq<char>, Seq<char>>,
    n: int,
) -> Map<Seq<char>, Seq<char>>
    decreases n,
{
    if n <= 0 {
        m
    } else {
        with_required(m, names, lookup, n - 1).insert(names[n - 1]@, lookup[names[n - 1]@])
    }
}

/// The environment a producer runs with: its registered environment, the
/// baseline executable, its state directory (with forward slashes) and its
/// required variables from `process_env`; `None` where a required variable
/// is not set there.
pub open spec fn producer_env_spec(
    p: Producer,
    baseline_bin: Seq<char>,
    state_root: Seq<char>,
    process_env: Seq<(String, String)>,
) -> Option<Map<Seq<char>, Seq<char>>> {
    if forall|k: int| 0 <= k < p.required_env@.len() ==> env_map(process_env).contains_key((#[trigger] p.required_env@[k])@) {
        Some(
            with_required(
                env_map(p.environment@).insert("DEVE_BASELINE_BIN"@, baseline_bin).insert(
                    "DEVE_ACCEPTANCE_PRODUCER_STATE_DIR"@,
                    forward_slashes(state_root),
                ),
                p.required_env@,
                env_map(process_env),
                p.required_env@.len() as int,
            ),
        )
    } else {
        None
    }
}

/// Every bound input is set in the environment.
pub open spec fn inputs_bound(p: Producer, env: Map<Seq<char>, Seq<char>>) -> bool {
    forall|k: int| 0 <= k < p.bound_env@.len() ==> env.contains_key((#[trigger] p.bound_env@[k])@)
}

fn replace_backslashes(s: &str) -> (r: String)
    ensures
        r@ == forward_slashes(s@),
{
    let cs = chars_of(s);
    let mut out = String::new();
    let mut i: usize = 0;
    while i < cs.len()
        invariant
            i <= cs@.len(),
            cs@ == s@,
            out@ == forward_slashes(s@).take(i as int),
        decreases cs@.len() - i,
    {
        let c = if cs[i] == '\\' {
            '/'
        } else {
            cs[i]
        };
        push_char(&mut out, c);
        assert(forward_slashes(s@).take(i + 1) =~= forward_slashes(s@).take(i as int).push(c));
        i += 1;
    }
    assert(forward_slashes(s@).take(cs@.len() as int) =~= forward_slashes(s@));
    out
}

fn copy_env(v: &Vec<(String, String)>) -> (r: Vec<(String, String)>)
    ensures
        env_map(r@) == env_map(v@),
{
    let mut out: Vec<(String, String)> = Vec::new();
    let mut i: usize = 0;
    while i < v.len()
        invariant
            i <= v@.len(),
            env_map(out@) == env_map(v@.take(i as int)),
        decreases v@.len() - i,
    {
        let ghost prev = out@;
        out.push((to_string(v[i].0.as_str()), to_string(v[i].1.as_str())));
        assert(out@.drop_last() =~= prev);
        assert(v@.take(i + 1).drop_last() =~= v@.take(i as int));
        i += 1;
    }
    assert(v@.take(v@.len() as int) =~= v@);
    out
}

/// The environment a producer runs with, and its bound inputs by name.
/// `baseline_bin` is the path of the running baseline executable,
/// `state_root` the producer's state directory, and `process_env` the
/// values of the producer's required variables that are set.
pub fn producer_environment(
    producer: &Producer,
    baseline_bin: &str,
    state_root: &str,
    process_env: &Vec<(String, String)>,
) -> (r: Result<(Vec<(String, String)>, Vec<(String, String)>), String>)
    ensures
        match producer_env_spec(*producer, baseline_bin@, state_root@, process_env@) {
            None => r is Err,
            Some(m) => if inputs_bound(*producer, m) {
                r matches Ok((env, inputs)) && env_map(env@) == m && env_map(inputs@) == m.restrict(
                    producer.bound_env.deep_view().to_set(),
                ) && keys_sorted(inputs@)
            } else {
                r is Err
            },
        },
{
    let mut environment = copy_env(&producer.environment);
    env_set(&mut environment, "DEVE_BASELINE_BIN", baseline_bin);
    env_set(&mut environment, "DEVE_ACCEPTANCE_PRODUCER_STATE_DIR", replace_backslashes(state_root).as_str());
    let ghost base = env_map(environment@);
    let ghost lookup = env_map(process_env@);
    let mut k: usize = 0;
    while k < producer.required_env.len()
        invariant
            k <= producer.required_env@.len(),
            base == env_map(producer.environment@).insert("DEVE_BASELINE_BIN"@, baseline_bin@).insert(
                "DEVE_ACCEPTANCE_PRODUCER_STATE_DIR"@,
                forward_slashes(state_root@),
            ),
            lookup == env_map(process_env@),
            forall|q: int| 0 <= q < k ==> lookup.contains_key((#[trigger] producer.required_env@[q])@),
            env_map(environment@) == with_required(base, producer.required_env@, lookup, k as int),
        decreases producer.required_env@.len() - k,
    {
        let name = producer.required_env[k].as_str();
        match env_get(process_env, name) {
            Some(value) => {
                env_set(&mut environment, name, value);
            },
            None => {
                let head = cat3("acceptance-run: producer ", producer.producer_id.as_str(), " missing required environment ");
                return Err(cat(head.as_str(), name));
            },
        }
        k += 1;
    }
    let ghost m = env_map(environment@);
    assert(producer_env_spec(*producer, baseline_bin@, state_root@, process_env@) == Some(m));
    let mut inputs: Vec<(String, String)> = Vec::new();
    let ghost bound = producer.bound_env.deep_view();
    let mut k: usize = 0;
    assert(m.restrict(bound.take(0).to_set()) =~= Map::empty());
    while k < producer.bound_env.len()
        invariant
            k <= producer.bound_env@.len(),
            bound == producer.bound_env.deep_view(),
            m == env_map(environment@),
            producer_env_spec(*producer, baseline_bin@, state_root@, process_env@) == Some(m),
            forall|q: int| 0 <= q < k ==> m.contains_key((#[trigger] producer.bound_env@[q])@),
            env_map(inputs@) == m.restrict(bound.take(k as int).to_set()),
            keys_sorted(inputs@),
        decreases producer.bound_env@.len() - k,
    {
        let name = producer.bound_env[k].as_str();
        match env_get(&environment, name) {
            Some(value) => {
                let ghost prev = inputs@;
                env_insert_sorted(&mut inputs, name, value);
                assert(bound.take(k + 1) =~= bound.take(k as int).push(name@));
                assert(bound[k as int] == name@);
                proof {
                    bound.take(k as int).lemma_push_to_set_commute(name@);
                }
                assert(bound.take(k + 1).to_set() =~= bound.take(k as int).to_set().insert(name@));
                assert(m.restrict(bound.take(k as int).to_set().insert(name@)) =~= m.restrict(bound.take(k as int).to_set()).insert(
                    name@,
                    m[name@],
                ));
                assert(env_map(inputs@) =~= m.restrict(bound.take(k + 1).to_set()));
            },
            None => {
                assert(!m.contains_key(producer.bound_env@[k as int]@));
                let head = cat3("acceptance-run: producer ", producer.producer_id.as_str(), " missing bound environment ");
                return Err(cat(head.as_str(), name));
            },
        }
        k += 1;
    }
    assert(bound.take(bound.len() as int) =~= bound);
    Ok((environment, inputs))
}

/// The value of one argument in `env`: a literal as written, a variable as
/// set (`None` where it is not).
pub open spec fn arg_value(a: ProducerArg, env: Map<Seq<char>, Seq<char>>) -> Option<Seq<char>> {
    match a {
        ProducerArg::LiteralString(l) => Some(l@),
        ProducerArg::Literal { literal } => Some(literal@),
        ProducerArg::Env { env: name } => if env.contains_key(name@) {
            Some(env[name@])
        } else {
            None
        },
    }
}

/// The values of the first `n` arguments, where every one has a value.
pub open spec fn arg_values(args: Seq<ProducerArg>, env: Map<Seq<char>, Seq<char>>, n: int) -> Option<Seq<Seq<char>>>
    decreases n,
{
    if n <= 0 {
        Some(Seq::empty())
    } else {
        match (arg_values(args, env, n - 1), arg_value(args[n - 1], env)) {
            (Some(vs), Some(v)) => Some(vs.push(v)),
            _ => None,
        }
    }
}

/// The program a step runs: `bash` is the resolved shell, anything else is
/// run as named.
pub open spec fn program_of(program: Seq<char>, bash: Seq<char>) -> Seq<char> {
    if program == "bash"@ {
        bash
    } else {
        program
    }
}

/// Whether every step's arguments have values in `env`.
pub open spec fn steps_resolve(steps: Seq<ProducerStep>, env: Map<Seq<char>, Seq<char>>) -> bool {
    forall|i: int| 0 <= i < steps.len() ==> (#[trigger] arg_values(steps[i].args@, env, steps[i].args@.len() as int)) is Some
}

/// The command a step becomes.
pub open spec fn command_matches(
    c: CommandStep,
    step: ProducerStep,
    env: Map<Seq<char>, Seq<char>>,
    bash: Seq<char>,
) -> bool {
    &&& c.program@ == program_of(step.program@, bash)
    &&& arg_values(step.args@, env, step.args@.len() as int) == Some(c.args.deep_view())
    &&& env_map(c.env@) == env
}

proof fn lemma_arg_values_none(args: Seq<ProducerArg>, env: Map<Seq<char>, Seq<char>>, n: int, m: int)
    requires
        0 <= n <= m,
        arg_values(args, env, n) is None,
    ensures
        arg_values(args, env, m) is None,
    decreases m - n,
{
    if n < m {
        lemma_arg_values_none(args, env, n, m - 1);
    }
}

fn resolve_step(
    producer: &Producer,
    step: &ProducerStep,
    environment: &Vec<(String, String)>,
    bash: &str,
) -> (r: Result<CommandStep, String>)
    ensures
        match arg_values(step.args@, env_map(environment@), step.args@.len() as int) {
            None => r is Err,
            Some(_) => r matches Ok(c) && command_matches(c, *step, env_map(environment@), bash@),
        },
{
    let ghost env = env_map(environment@);
    let mut args: Vec<String> = Vec::new();
    let mut k: usize = 0;
    while k < step.args.len()
        invariant
            k <= step.args@.len(),
            env == env_map(environment@),
            arg_values(step.args@, env, k as int) == Some(args.deep_view()),
        decreases step.args@.len() - k,
    {
        let value = match &step.args[k] {
            ProducerArg::LiteralString(l) => to_string(l.as_str()),
            ProducerArg::Literal { literal } => to_string(literal.as_str()),
            ProducerArg::Env { env: name } => match env_get(environment, name.as_str()) {
                Some(v) => to_string(v),
                None => {
                    proof {
                        lemma_arg_values_none(step.args@, env, k + 1, step.args@.len() as int);
                    }
                    let head = cat3("acceptance-run: producer ", producer.producer_id.as_str(), " missing argument env ");
                    return Err(cat(head.as_str(), name.as_str()));
                },
            },
        };
        let ghost prev = args.deep_view();
        args.push(value);
        assert(args.deep_view() =~= prev.push(value@));
        k += 1;
    }
    let program = if eq_str(step.program.as_str(), "bash") {
        to_string(bash)
    } else {
        to_string(step.program.as_str())
    };
    Ok(CommandStep { program, args, env: copy_env(environment) })
}

/// The commands the steps become in `environment`, with `bash` as the
/// shell; an argument naming an unset variable is an error.
pub fn resolve_steps(
    producer: &Producer,
    steps: &Vec<ProducerStep>,
    environment: &Vec<(String, String)>,
    bash: &str,
) -> (r: Result<Vec<CommandStep>, String>)
    ensures
        steps_resolve(steps@, env_map(environment@)) <==> r is Ok,
        r matches Ok(cs) ==> cs@.len() == steps@.len() && forall|i: int|
            0 <= i < steps@.len() ==> command_matches(#[trigger] cs@[i], steps@[i], env_map(environment@), bash@),
{
    let mut out: Vec<CommandStep> = Vec::new();
    let mut i: usize = 0;
    while i < steps.len()
        invariant
            i <= steps@.len(),
            out@.len() == i,
            forall|q: int| 0 <= q < i ==> (#[trigger] arg_values(steps@[q].args@, env_map(environment@), steps@[q].args@.len() as int)) is Some,
            forall|q: int| 0 <= q < i ==> command_matches(#[trigger] out@[q], steps@[q], env_map(environment@), bash@),
        decreases steps@.len() - i,
    {
        let c = resolve_step(producer, &steps[i], environment, bash)?;
        out.push(c);
        i += 1;
    }
    Ok(out)
}

/// Everything one execution of the producer runs and records;
/// `fingerprint` is its contract fingerprint.
pub fn execution_spec(
    producer: &Producer,
    environment: &Vec<(String, String)>,
    producer_inputs: Vec<(String, String)>,
    fingerprint: &str,
    bash: &str,
) -> (r: Result<ExecutionSpec, String>)
    ensures
        r is Ok <==> steps_resolve(producer.steps@, env_map(environment@)) && steps_resolve(
            producer.finally_steps@,
            env_map(environment@),
        ),
        r matches Ok(spec) ==> {
            &&& spec.producer_id@ == producer.producer_id@
            &&& spec.producer_contract@ == fingerprint@
            &&& spec.command_artifacts.deep_view() == producer.artifacts.deep_view()
            &&& spec.producer_inputs@ == producer_inputs@
            &&& spec.steps@.len() == producer.steps@.len()
            &&& (forall|i: int|
                0 <= i < producer.steps@.len() ==> command_matches(
                    #[trigger] spec.steps@[i],
                    producer.steps@[i],
                    env_map(environment@),
                    bash@,
                ))
            &&& spec.finally_steps@.len() == producer.finally_steps@.len()
            &&& (forall|i: int|
                0 <= i < producer.finally_steps@.len() ==> command_matches(
                    #[trigger] spec.finally_steps@[i],
                    producer.finally_steps@[i],
                    env_map(environment@),
                    bash@,
                ))
            &&& spec.timeout_seconds == producer.timeout_seconds
        },
{
    let steps = resolve_steps(producer, &producer.steps, environment, bash)?;
    let finally_steps = resolve_steps(producer, &producer.finally_steps, environment, bash)?;
    Ok(ExecutionSpec {
        producer_id: to_string(producer.producer_id.as_str()),
        producer_contract: to_string(fingerprint),
        command_artifacts: copy_strings(&producer.artifacts),
        producer_inputs,
        steps,
        finally_steps,
        timeout_seconds: producer.timeout_seconds,
    })
}

/// The names are in strictly increasing order (as in an ordered map).
pub open spec fn keys_sorted(v: Seq<(String, String)>) -> bool {
    forall|i: int, j: int| 0 <= i < j < v.len() ==> lex_lt((#[trigger] v[i]).0@, (#[trigger] v[j]).0@)
}

proof fn lemma_sorted_env_map(v: Seq<(String, String)>, k: int)
    requires
        keys_sorted(v),
        0 <= k < v.len(),
    ensures
        env_map(v).contains_key(v[k].0@),
        env_map(v)[v[k].0@] == v[k].1@,
{
    assert forall|j: int| k < j < v.len() implies (#[trigger] v[j]).0@ != v[k].0@ by {
        assert(lex_lt(v[k].0@, v[j].0@));
        lemma_lex_irreflexive(v[k].0@);
    }
    lemma_env_map_lookup(v, v[k].0@, k);
}

proof fn lemma_sorted_env_map_keys(v: Seq<(String, String)>, name: Seq<char>)
    ensures
        env_map(v).contains_key(name) <==> exists|k: int| 0 <= k < v.len() && (#[trigger] v[k]).0@ == name,
    decreases v.len(),
{
    if v.len() > 0 {
        lemma_sorted_env_map_keys(v.drop_last(), name);
        if env_map(v.drop_last()).contains_key(name) {
            let k = choose|k: int| 0 <= k < v.drop_last().len() && (#[trigger] v.drop_last()[k]).0@ == name;
            assert(v[k].0@ == name);
        }
        if exists|k: int| 0 <= k < v.len() && (#[trigger] v[k]).0@ == name {
            let k = choose|k: int| 0 <= k < v.len() && (#[trigger] v[k]).0@ == name;
            if k < v.len() - 1 {
                assert(v.drop_last()[k].0@ == name);
            }
        }
    }
}

/// Sets `name` to `value` in an environment kept in name order.
pub fn env_insert_sorted(env: &mut Vec<(String, String)>, name: &str, value: &str)
    requires
        keys_sorted(old(env)@),
    ensures
        keys_sorted(final(env)@),
        env_map(final(env)@) == env_map(old(env)@).insert(name@, value@),
{
    let ghost before = env@;
    let mut pos: usize = 0;
    while pos < env.len()
        invariant
            pos <= env@.len(),
            env@ == before,
            forall|q: int| 0 <= q < pos ==> lex_lt((#[trigger] before[q]).0@, name@),
        ensures
            pos <= env@.len(),
            env@ == before,
            forall|q: int| 0 <= q < pos ==> lex_lt((#[trigger] before[q]).0@, name@),
            pos < env@.len() ==> !lex_lt(before[pos as int].0@, name@),
        decreases env@.len() - pos,
    {
        if !str_lt(env[pos].0.as_str(), name) {
            break;
        }
        pos += 1;
    }
    proof {
        lemma_sorted_env_map_keys(before, name@);
    }
    if pos < env.len() && eq_str(env[pos].0.as_str(), name) {
        let entry = (to_string(name), to_string(value));
        env.set(pos, entry);
        proof {
            let after = env@;
            assert(after == before.update(pos as int, entry));
            assert(keys_sorted(after)) by {
                assert forall|i: int, j: int| 0 <= i < j < after.len() implies lex_lt((#[trigger] after[i]).0@, (#[trigger] after[j]).0@) by {
                    assert(lex_lt(before[i].0@, before[j].0@));
                }
            }
            lemma_sorted_env_map_keys(after, name@);
            assert forall|x: Seq<char>| #[trigger] env_map(after).contains_key(x) <==> env_map(before).insert(name@, value@).contains_key(x) by {
                lemma_sorted_env_map_keys(after, x);
                lemma_sorted_env_map_keys(before, x);
                if exists|k: int| 0 <= k < before.len() && (#[trigger] before[k]).0@ == x {
                    let k = choose|k: int| 0 <= k < before.len() && (#[trigger] before[k]).0@ == x;
                    assert(after[k].0@ == x);
                }
                if exists|k: int| 0 <= k < after.len() && (#[trigger] after[k]).0@ == x {
                    let k = choose|k: int| 0 <= k < after.len() && (#[trigger] after[k]).0@ == x;
                    assert(before[k].0@ == x);
                }
            }
            assert forall|x: Seq<char>| #[trigger] env_map(after).contains_key(x) implies env_map(after)[x] == env_map(before).insert(name@, value@)[x] by {
                lemma_sorted_env_map_keys(after, x);
                let k = choose|k: int| 0 <= k < after.len() && (#[trigger] after[k]).0@ == x;
                lemma_sorted_env_map(after, k);
                if k != pos {
                    lemma_sorted_env_map(before, k);
                    assert(x != name@) by {
                        lemma_lex_irreflexive(name@);
                        if k < pos {
                            assert(lex_lt(before[k].0@, before[pos as int].0@));
                        } else {
                            assert(lex_lt(before[pos as int].0@, before[k].0@));
                        }
                    }
                }
            }
            assert(env_map(after) =~= env_map(before).insert(name@, value@));
        }
    } else {
        let entry = (to_string(name), to_string(value));
        env.insert(pos, entry);
        proof {
            let after = env@;
            before.insert_ensures(pos as int, entry);
            assert(after == before.insert(pos as int, entry));
            if pos < before.len() {
                lemma_lex_total(before[pos as int].0@, name@);
            }
            assert(keys_sorted(after)) by {
                assert forall|i: int, j: int| 0 <= i < j < after.len() implies lex_lt((#[trigger] after[i]).0@, (#[trigger] after[j]).0@) by {
                    if j < pos {
                        assert(lex_lt(before[i].0@, before[j].0@));
                    } else if j == pos {
                        assert(lex_lt(before[i].0@, name@));
                    } else if i < pos {
                        assert(lex_lt(before[i].0@, name@));
                        assert(lex_lt(name@, before[pos as int].0@));
                        if j - 1 > pos {
                            assert(lex_lt(before[pos as int].0@, before[j - 1].0@));
                            lemma_lex_transitive(name@, before[pos as int].0@, before[j - 1].0@);
                        }
                        lemma_lex_transitive(before[i].0@, name@, before[j - 1].0@);
                    } else if i == pos {
                        assert(lex_lt(name@, before[pos as int].0@));
                        if j - 1 > pos {
                            assert(lex_lt(before[pos as int].0@, before[j - 1].0@));
                            lemma_lex_transitive(name@, before[pos as int].0@, before[j - 1].0@);
                        }
                    } else {
                        assert(lex_lt(before[i - 1].0@, before[j - 1].0@));
                    }
                }
            }
            assert forall|x: Seq<char>| #[trigger] env_map(after).contains_key(x) <==> env_map(before).insert(name@, value@).contains_key(x) by {
                lemma_sorted_env_map_keys(after, x);
                lemma_sorted_env_map_keys(before, x);
                if exists|k: int| 0 <= k < before.len() && (#[trigger] before[k]).0@ == x {
                    let k = choose|k: int| 0 <= k < before.len() && (#[trigger] before[k]).0@ == x;
                    if k < pos {
                        assert(after[k].0@ == x);
                    } else {
                        assert(after[k + 1].0@ == x);
                    }
                }
                if exists|k: int| 0 <= k < after.len() && (#[trigger] after[k]).0@ == x {
                    let k = choose|k: int| 0 <= k < after.len() && (#[trigger] after[k]).0@ == x;
                    if k < pos {
                        assert(before[k].0@ == x);
                    } else if k > pos {
                        assert(before[k - 1].0@ == x);
                    }
                }
                assert(after[pos as int].0@ == name@);
            }
            assert forall|x: Seq<char>| #[trigger] env_map(after).contains_key(x) implies env_map(after)[x] == env_map(before).insert(name@, value@)[x] by {
                lemma_sorted_env_map_keys(after, x);
                let k = choose|k: int| 0 <= k < after.len() && (#[trigger] after[k]).0@ == x;
                lemma_sorted_env_map(after, k);
                if k < pos {
                    lemma_sorted_env_map(before, k);
                    assert(x != name@) by {
                        assert(lex_lt(before[k].0@, name@));
                        lemma_lex_irreflexive(name@);
                    }
                } else if k > pos {
                    lemma_sorted_env_map(before, k - 1);
                    assert(x != name@) by {
                        assert(lex_lt(name@, after[k].0@));
                        lemma_lex_irreflexive(name@);
                    }
                }
            }
            assert(env_map(after) =~= env_map(before).insert(name@, value@));
        }
    }
}

} // verus!
