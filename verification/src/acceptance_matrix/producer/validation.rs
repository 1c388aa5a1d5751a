//! Per-producer command, environment, and evidence contract rules.
use super::model::{Producer, ProducerArg, ProducerStep};
use crate::acceptance_matrix::model::MatrixRow;
use crate::paths::{has_special_component, special_component};
use crate::text::{
    ascii_lower, cat, cat3, chars_of, ends_with, ends_with_str, eq_ignore_ascii_case, eq_str,
    lemma_split_char_nonempty, split_char, split_str, starts_with, starts_with_str, to_ascii_lowercase,
    to_string,
};
use vstd::prelude::*;

verus! {

pub open spec fn identifier_char(c: char) -> bool {
    ('a' <= c <= 'z') || ('0' <= c <= '9') || c == '.' || c == '_' || c == '-'
}

/// Nonempty, lowercase ASCII letters, digits and `._-`.
pub open spec fn valid_identifier_spec(v: Seq<char>) -> bool {
    v.len() > 0 && forall|i: int| 0 <= i < v.len() ==> identifier_char(#[trigger] v[i])
}

pub fn valid_identifier(value: &str) -> (r: bool)
    ensures
        r == valid_identifier_spec(value@),
{
    let cs = chars_of(value);
    if cs.len() == 0 {
        return false;
    }
    let mut i: usize = 0;
    while i < cs.len()
        invariant
            i <= cs.len(),
            cs@ == value@,
            forall|k: int| 0 <= k < i ==> identifier_char(#[trigger] cs@[k]),
        decreases cs.len() - i,
    {
        let c = cs[i];
        if !(('a' <= c && c <= 'z') || ('0' <= c && c <= '9') || c == '.' || c == '_' || c == '-') {
            assert(!identifier_char(cs@[i as int]));
            return false;
        }
        i += 1;
    }
    true
}

pub open spec fn env_head_char(c: char) -> bool {
    c == '_' || ('A' <= c <= 'Z')
}

pub open spec fn env_tail_char(c: char) -> bool {
    c == '_' || ('A' <= c <= 'Z') || ('0' <= c <= '9')
}

/// An environment variable name: `_` or an uppercase letter, then `_`,
/// uppercase letters and digits.
pub open spec fn valid_env_name_spec(v: Seq<char>) -> bool {
    v.len() > 0 && env_head_char(v[0]) && forall|i: int| 1 <= i < v.len() ==> env_tail_char(#[trigger] v[i])
}

pub fn valid_env_name(value: &str) -> (r: bool)
    ensures
        r == valid_env_name_spec(value@),
{
    let cs = chars_of(value);
    if cs.len() == 0 || !(cs[0] == '_' || ('A' <= cs[0] && cs[0] <= 'Z')) {
        return false;
    }
    let mut i: usize = 1;
    while i < cs.len()
        invariant
            1 <= i <= cs.len(),
            cs@ == value@,
            forall|k: int| 1 <= k < i ==> env_tail_char(#[trigger] cs@[k]),
        decreases cs.len() - i,
    {
        let c = cs[i];
        if !(c == '_' || ('A' <= c && c <= 'Z') || ('0' <= c && c <= '9')) {
            assert(!env_tail_char(cs@[i as int]));
            return false;
        }
        i += 1;
    }
    true
}

pub open spec fn secret_segment(s: Seq<char>) -> bool {
    s == "SECRET"@ || s == "PASSWORD"@ || s == "TOKEN"@ || s == "PRIVATE"@ || s == "CREDENTIAL"@
        || s == "CREDENTIALS"@ || s == "KEY"@
}

/// Some `_`-separated segment of the name marks it as secret-bearing.
pub open spec fn sensitive_env_name_spec(v: Seq<char>) -> bool {
    exists|i: int| 0 <= i < split_char(v, '_').len() && secret_segment(#[trigger] split_char(v, '_')[i])
}

pub fn sensitive_env_name(value: &str) -> (r: bool)
    ensures
        r == sensitive_env_name_spec(value@),
{
    let parts = split_str(value, '_');
    let mut i: usize = 0;
    while i < parts.len()
        invariant
            i <= parts.len(),
            parts.deep_view() == split_char(value@, '_'),
            forall|k: int| 0 <= k < i ==> !secret_segment(#[trigger] parts.deep_view()[k]),
        decreases parts.len() - i,
    {
        let s = parts[i].as_str();
        assert(parts.deep_view()[i as int] == s@);
        if eq_str(s, "SECRET") || eq_str(s, "PASSWORD") || eq_str(s, "TOKEN") || eq_str(s, "PRIVATE")
            || eq_str(s, "CREDENTIAL") || eq_str(s, "CREDENTIALS") || eq_str(s, "KEY") {
            return true;
        }
        i += 1;
    }
    false
}

/// The names of the pieces of a path that `Path::components` yields as
/// normal components (empty pieces and `.` are skipped).
pub open spec fn named_parts(parts: Seq<Seq<char>>) -> Seq<Seq<char>>
    decreases parts.len(),
{
    if parts.len() == 0 {
        Seq::empty()
    } else if parts.last().len() == 0 || parts.last() == seq!['.'] {
        named_parts(parts.drop_last())
    } else {
        named_parts(parts.drop_last()).push(parts.last())
    }
}

/// A producer artifact: a registered script, or a compose manifest at the
/// repository root, as a relative path of normal components.
pub open spec fn artifact_location_allowed_spec(a: Seq<char>) -> bool {
    let root_compose = named_parts(split_char(a, '/')).len() == 1 && starts_with(a, "docker-compose."@)
        && ends_with(a, ".yml"@);
    (starts_with(a, "scripts/"@) || root_compose) && !has_special_component(a)
}

fn named_part_count(a: &str) -> (r: usize)
    ensures
        r == named_parts(split_char(a@, '/')).len(),
{
    let parts = split_str(a, '/');
    let ghost pv = parts.deep_view();
    let mut n: usize = 0;
    let mut i: usize = 0;
    proof {
        reveal_strlit(".");
    }
    assert("."@ =~= seq!['.']);
    assert(pv.take(0) =~= Seq::<Seq<char>>::empty());
    while i < parts.len()
        invariant
            pv == parts.deep_view(),
            i <= parts.len(),
            "."@ == seq!['.'],
            n == named_parts(pv.take(i as int)).len(),
            n <= i,
        decreases parts.len() - i,
    {
        let p = parts[i].as_str();
        assert(pv[i as int] == p@);
        assert(pv.take(i + 1).drop_last() =~= pv.take(i as int));
        assert(pv.take(i + 1).last() == p@);
        if !(p.is_empty() || eq_str(p, ".")) {
            n += 1;
        }
        i += 1;
    }
    assert(pv.take(parts.len() as int) =~= pv);
    n
}

pub fn artifact_location_allowed(artifact: &str) -> (r: bool)
    ensures
        r == artifact_location_allowed_spec(artifact@),
{
    let root_compose = named_part_count(artifact) == 1 && starts_with_str(artifact, "docker-compose.")
        && ends_with_str(artifact, ".yml");
    (starts_with_str(artifact, "scripts/") || root_compose) && !special_component(artifact)
}

/// The final name of a program path (`Path::file_name`), or the program
/// itself when it has none.
pub open spec fn program_file_name(p: Seq<char>) -> Seq<char> {
    let named = named_parts(split_char(p, '/'));
    if named.len() > 0 && named.last() != seq!['.', '.'] && !(split_char(p, '/').len() == 1 && p == seq!['.']) {
        named.last()
    } else {
        p
    }
}

/// The lowercased file name of a step's program.
pub open spec fn program_name_spec(p: Seq<char>) -> Seq<char> {
    ascii_lower(program_file_name(p))
}

pub fn program_name(program: &str) -> (r: String)
    ensures
        r@ == program_name_spec(program@),
{
    let parts = split_str(program, '/');
    let ghost pv = parts.deep_view();
    let mut last: Option<usize> = None;
    let mut i: usize = 0;
    proof {
        reveal_strlit(".");
        reveal_strlit("..");
    }
    assert("."@ =~= seq!['.']);
    assert(".."@ =~= seq!['.', '.']);
    assert(pv.take(0) =~= Seq::<Seq<char>>::empty());
    while i < parts.len()
        invariant
            pv == parts.deep_view(),
            i <= parts.len(),
            "."@ == seq!['.'],
            match last {
                Some(k) => k < i && named_parts(pv.take(i as int)).len() > 0 && named_parts(pv.take(i as int)).last() == pv[k as int],
                None => named_parts(pv.take(i as int)).len() == 0,
            },
        decreases parts.len() - i,
    {
        let p = parts[i].as_str();
        assert(pv[i as int] == p@);
        assert(pv.take(i + 1).drop_last() =~= pv.take(i as int));
        assert(pv.take(i + 1).last() == p@);
        if !(p.is_empty() || eq_str(p, ".")) {
            last = Some(i);
        }
        i += 1;
    }
    assert(pv.take(parts.len() as int) =~= pv);
    let name = match last {
        Some(k) => {
            if eq_str(parts[k].as_str(), "..") {
                program
            } else {
                parts[k].as_str()
            }
        },
        None => program,
    };
    assert(pv.len() == 1 && program@ == seq!['.'] ==> named_parts(pv).len() == 0) by {
        if pv.len() == 1 && program@ == seq!['.'] {
            lemma_split_char_nonempty(program@, '/');
            assert(split_char(program@, '/') == split_char(program@.drop_last(), '/').update(0, split_char(program@.drop_last(), '/').last().push('.')));
            assert(program@.drop_last() =~= Seq::<char>::empty());
            assert(pv[0] =~= seq!['.']);
            assert(pv.drop_last() =~= Seq::<Seq<char>>::empty());
        }
    }
    to_ascii_lowercase(name)
}

/// The literal text of argument `i`, when it is a literal.
pub open spec fn literal_at(args: Seq<ProducerArg>, i: int) -> Option<Seq<char>> {
    if 0 <= i < args.len() {
        match args[i] {
            ProducerArg::LiteralString(s) => Some(s@),
            ProducerArg::Literal { literal } => Some(literal@),
            ProducerArg::Env { .. } => None,
        }
    } else {
        None
    }
}

pub fn literal_of(args: &Vec<ProducerArg>, i: usize) -> (r: Option<&str>)
    ensures
        match r {
            Some(s) => literal_at(args@, i as int) == Some(s@),
            None => literal_at(args@, i as int) is None,
        },
{
    if i >= args.len() {
        return None;
    }
    match &args[i] {
        ProducerArg::LiteralString(s) => Some(s.as_str()),
        ProducerArg::Literal { literal } => Some(literal.as_str()),
        ProducerArg::Env { .. } => None,
    }
}

pub open spec fn is_shell(name: Seq<char>) -> bool {
    name == "sh"@ || name == "sh.exe"@ || name == "bash"@ || name == "bash.exe"@
}

pub open spec fn is_powershell(name: Seq<char>) -> bool {
    name == "powershell"@ || name == "powershell.exe"@ || name == "pwsh"@ || name == "pwsh.exe"@
}

/// Shells run a registered script file directly; PowerShell only as
/// `-NoProfile -File <registered .ps1>`; `cmd` not at all.
pub open spec fn shell_invocation_ok(name: Seq<char>, args: Seq<ProducerArg>) -> bool {
    if is_shell(name) {
        match literal_at(args, 0) {
            Some(v) => !starts_with(v, "-"@) && starts_with(v, "scripts/"@) && ends_with(v, ".sh"@),
            None => false,
        }
    } else if is_powershell(name) {
        &&& literal_at(args, 0) matches Some(v0) && ascii_lower(v0) == ascii_lower("-NoProfile"@)
        &&& literal_at(args, 1) matches Some(v1) && ascii_lower(v1) == ascii_lower("-File"@)
        &&& literal_at(args, 2) matches Some(v2) && starts_with(v2, "scripts/"@) && ends_with(v2, ".ps1"@)
    } else {
        !(name == "cmd"@ || name == "cmd.exe"@)
    }
}

pub fn validate_shell_invocation(producer: &Producer, program_name: &str, args: &Vec<ProducerArg>) -> (r: Result<(), String>)
    ensures
        r is Ok <==> shell_invocation_ok(program_name@, args@),
{
    let id = producer.producer_id.as_str();
    let n = program_name;
    if eq_str(n, "sh") || eq_str(n, "sh.exe") || eq_str(n, "bash") || eq_str(n, "bash.exe") {
        let ok = match literal_of(args, 0) {
            Some(v) => !starts_with_str(v, "-") && starts_with_str(v, "scripts/") && ends_with_str(v, ".sh"),
            None => false,
        };
        if !ok {
            return Err(cat3("acceptance producers: ", id, " shell must execute a registered .sh file directly"));
        }
    } else if eq_str(n, "powershell") || eq_str(n, "powershell.exe") || eq_str(n, "pwsh") || eq_str(n, "pwsh.exe") {
        let a0 = match literal_of(args, 0) {
            Some(v) => eq_ignore_ascii_case(v, "-NoProfile"),
            None => false,
        };
        let a1 = match literal_of(args, 1) {
            Some(v) => eq_ignore_ascii_case(v, "-File"),
            None => false,
        };
        let a2 = match literal_of(args, 2) {
            Some(v) => starts_with_str(v, "scripts/") && ends_with_str(v, ".ps1"),
            None => false,
        };
        if !(a0 && a1 && a2) {
            return Err(
                cat3("acceptance producers: ", id, " PowerShell must use -NoProfile -File <registered.ps1>"),
            );
        }
    } else if eq_str(n, "cmd") || eq_str(n, "cmd.exe") {
        return Err(cat3("acceptance producers: ", id, " may not use cmd command-string execution"));
    }
    Ok(())
}

/// A CI-tier `cargo test` step names a narrow target.
pub open spec fn ci_cargo_ok(p: Producer, name: Seq<char>, args: Seq<ProducerArg>) -> bool {
    (p.tiers.deep_view().contains("ci"@) && (name == "cargo"@ || name == "cargo.exe"@)) ==> !(
    (exists|i: int| #[trigger] literal_at(args, i) == Some("test"@)) && !(exists|i: int| #[trigger] target_literal(args, i)))
}

/// Argument `i` is `--lib`, `--bin` or `--test`.
pub open spec fn target_literal(args: Seq<ProducerArg>, i: int) -> bool {
    match literal_at(args, i) {
        Some(v) => v == "--lib"@ || v == "--bin"@ || v == "--test"@,
        None => false,
    }
}

pub fn validate_ci_cargo_target(producer: &Producer, program_name: &str, args: &Vec<ProducerArg>) -> (r: Result<(), String>)
    ensures
        r is Ok <==> ci_cargo_ok(*producer, program_name@, args@),
{
    if !crate::strset::contains_str_in(&producer.tiers, "ci") || !(eq_str(program_name, "cargo") || eq_str(program_name, "cargo.exe")) {
        return Ok(());
    }
    let mut saw_test = false;
    let mut saw_target = false;
    let mut i: usize = 0;
    while i < args.len()
        invariant
            i <= args.len(),
            saw_test == exists|k: int| 0 <= k < i && #[trigger] literal_at(args@, k) == Some("test"@),
            saw_target == exists|k: int| 0 <= k < i && #[trigger] target_literal(args@, k),
        decreases args.len() - i,
    {
        match literal_of(args, i) {
            Some(v) => {
                if eq_str(v, "test") {
                    saw_test = true;
                }
                let is_target = eq_str(v, "--lib") || eq_str(v, "--bin") || eq_str(v, "--test");
                assert(target_literal(args@, i as int) == is_target);
                if is_target {
                    saw_target = true;
                }
            },
            None => {
                assert(!target_literal(args@, i as int));
            },
        }
        i += 1;
    }
    proof {
        assert forall|k: int| #[trigger] literal_at(args@, k) is Some implies 0 <= k < args@.len() by {}
        assert forall|k: int| #[trigger] target_literal(args@, k) implies 0 <= k < args@.len() by {}
    }
    if saw_test && !saw_target {
        return Err(
            cat3(
                "acceptance producers: ",
                producer.producer_id.as_str(),
                " CI cargo test step requires --lib, --bin, or --test",
            ),
        );
    }
    Ok(())
}

/// One argument's rules: literals carry no NUL and name only registered,
/// present scripts; environment arguments are declared and not secret.
pub open spec fn arg_ok(p: Producer, a: ProducerArg, files: Set<Seq<char>>) -> bool {
    match a {
        ProducerArg::Env { env } => valid_env_name_spec(env@) && p.required_env.deep_view().contains(env@)
            && !sensitive_env_name_spec(env@),
        ProducerArg::LiteralString(l) => literal_ok(p, l@, files),
        ProducerArg::Literal { literal } => literal_ok(p, literal@, files),
    }
}

pub open spec fn literal_ok(p: Producer, l: Seq<char>, files: Set<Seq<char>>) -> bool {
    &&& !crate::text::has_char(l, '\0')
    &&& starts_with(l, "scripts/"@) ==> files.contains(l) && p.artifacts.deep_view().contains(l)
}

/// A step's rules, given the repository paths that are files.
pub open spec fn step_ok(p: Producer, step: ProducerStep, files: Set<Seq<char>>) -> bool {
    let prog = step.program@;
    &&& crate::text::trim(prog).len() > 0
    &&& !crate::text::has_char(prog, '\0')
    &&& !(exists|i: int| 0 <= i < prog.len() && crate::text::is_ws(#[trigger] prog[i]))
    &&& forall|i: int| 0 <= i < step.args@.len() ==> arg_ok(p, #[trigger] step.args@[i], files)
    &&& ci_cargo_ok(p, program_name_spec(prog), step.args@)
    &&& shell_invocation_ok(program_name_spec(prog), step.args@)
}

fn check_literal(producer: &Producer, l: &str, files: &Vec<String>) -> (r: Result<(), String>)
    ensures
        r is Ok <==> literal_ok(*producer, l@, files.deep_view().to_set()),
{
    let id = producer.producer_id.as_str();
    if crate::text::has_char_exec(&chars_of(l), '\0') {
        return Err(cat3("acceptance producers: ", id, " has a literal argument containing NUL"));
    }
    if starts_with_str(l, "scripts/") && !crate::strset::contains_str_in(files, l) {
        let head = cat3("acceptance producers: ", id, " references missing script ");
        return Err(cat(head.as_str(), l));
    }
    if starts_with_str(l, "scripts/") && !crate::strset::contains_str_in(&producer.artifacts, l) {
        let head = cat3("acceptance producers: ", id, " step script ");
        return Err(cat3(head.as_str(), l, " is missing from artifacts"));
    }
    Ok(())
}

/// Checks one step of a producer; `files` are the repository paths that
/// are regular files.
pub fn validate_step(files: &Vec<String>, producer: &Producer, step: &ProducerStep) -> (r: Result<(), String>)
    ensures
        r is Ok <==> step_ok(*producer, *step, files.deep_view().to_set()),
{
    let id = producer.producer_id.as_str();
    let prog = step.program.as_str();
    let pc = chars_of(prog);
    let trimmed = crate::text::trim_str(prog);
    let mut ws = false;
    let mut i: usize = 0;
    while i < pc.len()
        invariant
            i <= pc.len(),
            pc@ == prog@,
            ws == exists|k: int| 0 <= k < i && crate::text::is_ws(#[trigger] pc@[k]),
        decreases pc.len() - i,
    {
        if crate::text::is_whitespace(pc[i]) {
            ws = true;
        }
        i += 1;
    }
    if trimmed.as_str().is_empty() || crate::text::has_char_exec(&pc, '\0') || ws {
        return Err(cat3("acceptance producers: ", id, " has invalid step program"));
    }
    let mut k: usize = 0;
    while k < step.args.len()
        invariant
            k <= step.args.len(),
            forall|q: int| 0 <= q < k ==> arg_ok(*producer, #[trigger] step.args@[q], files.deep_view().to_set()),
        decreases step.args.len() - k,
    {
        match &step.args[k] {
            ProducerArg::LiteralString(l) => {
                check_literal(producer, l.as_str(), files)?;
            },
            ProducerArg::Literal { literal } => {
                check_literal(producer, literal.as_str(), files)?;
            },
            ProducerArg::Env { env } => {
                if !valid_env_name(env.as_str()) || !crate::strset::contains_str_in(&producer.required_env, env.as_str()) {
                    let head = cat3("acceptance producers: ", id, " argument env ");
                    return Err(cat3(head.as_str(), env.as_str(), " must be listed in required_env"));
                }
                if sensitive_env_name(env.as_str()) {
                    let head = cat3("acceptance producers: ", id, " may not expose sensitive environment ");
                    return Err(cat3(head.as_str(), env.as_str(), " through process arguments"));
                }
            },
        }
        k += 1;
    }
    let name = program_name(prog);
    validate_ci_cargo_target(producer, name.as_str(), &step.args)?;
    validate_shell_invocation(producer, name.as_str(), &step.args)?;
    Ok(())
}

/// Values that are nonblank and distinct.
pub open spec fn unique_nonempty(v: Seq<Seq<char>>) -> bool {
    v.no_duplicates() && forall|i: int| 0 <= i < v.len() ==> crate::text::trim(#[trigger] v[i]).len() > 0
}

pub fn require_unique_nonempty(values: &Vec<String>, field: &str, producer: &Producer) -> (r: Result<(), String>)
    ensures
        r is Ok <==> unique_nonempty(values.deep_view()),
{
    let ghost vs = values.deep_view();
    let id = producer.producer_id.as_str();
    let mut i: usize = 0;
    while i < values.len()
        invariant
            vs == values.deep_view(),
            i <= values.len(),
            forall|k: int| 0 <= k < i ==> crate::text::trim(#[trigger] vs[k]).len() > 0,
        decreases values.len() - i,
    {
        assert(vs[i as int] == values@[i as int]@);
        if crate::text::trim_str(values[i].as_str()).as_str().is_empty() {
            let head = cat3("acceptance producers: ", id, " has an empty ");
            return Err(cat3(head.as_str(), field, " value"));
        }
        i += 1;
    }
    let mut seen: Vec<String> = Vec::new();
    let mut i: usize = 0;
    while i < values.len()
        invariant
            vs == values.deep_view(),
            i <= values.len(),
            crate::strset::sorted(seen.deep_view()),
            seen.deep_view().to_set() == vs.take(i as int).to_set(),
            vs.take(i as int).no_duplicates(),
            forall|k: int| 0 <= k < vs.len() ==> crate::text::trim(#[trigger] vs[k]).len() > 0,
        decreases values.len() - i,
    {
        let x = values[i].clone();
        assert(x@ == vs[i as int]);
        assert(vs.take(i + 1) =~= vs.take(i as int).push(x@));
        proof {
            vs.take(i as int).lemma_push_to_set_commute(x@);
        }
        let ghost before = seen.deep_view();
        let fresh = crate::strset::set_insert(&mut seen, x);
        if !fresh {
            proof {
                assert(before.contains(vs[i as int]));
                assert(before.to_set().contains(vs[i as int]));
                assert(vs.take(i as int).to_set().contains(vs[i as int]));
                let q = choose|q: int| 0 <= q < vs.take(i as int).len() && #[trigger] vs.take(i as int)[q] == vs[i as int];
                assert(vs[q] == vs[i as int]);
            }
            let head = cat3("acceptance producers: ", id, " has duplicate ");
            return Err(cat3(head.as_str(), field, " values"));
        }
        proof {
            assert forall|a: int, b: int|
                #![trigger vs.take(i + 1)[a], vs.take(i + 1)[b]]
                0 <= a < i + 1 && 0 <= b < i + 1 && a != b implies vs.take(i + 1)[a] != vs.take(i + 1)[b] by {
                if a == i {
                    assert(vs.take(i as int).to_set().contains(vs.take(i as int)[b]));
                    assert(!before.contains(vs[i as int]));
                } else if b == i {
                    assert(vs.take(i as int).to_set().contains(vs.take(i as int)[a]));
                    assert(!before.contains(vs[i as int]));
                } else {
                    assert(vs.take(i as int)[a] == vs.take(i + 1)[a]);
                    assert(vs.take(i as int)[b] == vs.take(i + 1)[b]);
                }
            }
        }
        i += 1;
    }
    assert(vs.take(values.len() as int) =~= vs);
    Ok(())
}

pub fn require_allowed_unique(
    values: &Vec<String>,
    allowed: &Vec<String>,
    field: &str,
    producer: &Producer,
) -> (r: Result<(), String>)
    ensures
        r is Ok <==> unique_nonempty(values.deep_view()) && values.deep_view().to_set().subset_of(allowed.deep_view().to_set()),
{
    require_unique_nonempty(values, field, producer)?;
    if !crate::strset::is_subset(values, allowed) {
        let head = cat3("acceptance producers: ", producer.producer_id.as_str(), " has unsupported ");
        return Err(cat(head.as_str(), field));
    }
    Ok(())
}

/// The executable evidence row for `id` (the last one with that id).
pub open spec fn evidence_row(rows: Seq<MatrixRow>, id: Seq<char>) -> Option<int> {
    if exists|i: int| 0 <= i < rows.len() && rows[i].evidence_id@ == id && forall|j: int| i < j < rows.len() ==> #[trigger] rows[j].evidence_id@ != id {
        Some(choose|i: int| 0 <= i < rows.len() && rows[i].evidence_id@ == id && forall|j: int| i < j < rows.len() ==> #[trigger] rows[j].evidence_id@ != id)
    } else {
        None
    }
}

pub fn find_evidence_row(rows: &Vec<MatrixRow>, id: &str) -> (r: Option<usize>)
    ensures
        match r {
            Some(i) => evidence_row(rows@, id@) == Some(i as int) && i < rows.len(),
            None => evidence_row(rows@, id@) is None && forall|j: int| 0 <= j < rows@.len() ==> #[trigger] rows@[j].evidence_id@ != id@,
        },
{
    let mut i: usize = rows.len();
    while i > 0
        invariant
            i <= rows.len(),
            forall|j: int| i <= j < rows@.len() ==> #[trigger] rows@[j].evidence_id@ != id@,
        decreases i,
    {
        i -= 1;
        if eq_str(rows[i].evidence_id.as_str(), id) {
            proof {
                let c = choose|c: int| 0 <= c < rows@.len() && rows@[c].evidence_id@ == id@ && forall|j: int| c < j < rows@.len() ==> #[trigger] rows@[j].evidence_id@ != id@;
                if c < i {
                    assert(rows@[i as int].evidence_id@ != id@);
                } else if c > i {
                    assert(rows@[c].evidence_id@ != id@);
                }
            }
            return Some(i);
        }
    }
    None
}

/// The evidence kinds of a producer's evidence that the matrix knows.
pub open spec fn producer_kinds(p: Producer, rows: Seq<MatrixRow>) -> Set<Seq<char>> {
    Set::new(|k: Seq<char>| exists|e: int| 0 <= e < p.evidence_ids@.len() && #[trigger] kind_of(rows, p.evidence_ids@[e]@) == Some(k))
}

pub open spec fn kind_of(rows: Seq<MatrixRow>, id: Seq<char>) -> Option<Seq<char>> {
    match evidence_row(rows, id) {
        Some(i) => Some(rows[i].evidence_kind@),
        None => None,
    }
}

/// Receipt and test/script evidence do not mix; receipts never run on the
/// ci tier, tests and scripts only there; claims bind only receipts.
pub open spec fn evidence_mode_ok(p: Producer, rows: Seq<MatrixRow>) -> bool {
    let kinds = producer_kinds(p, rows);
    let receipts = kinds.contains("receipt"@);
    let statics = kinds.contains("test"@) || kinds.contains("script"@);
    &&& !(receipts && statics)
    &&& !(receipts && p.tiers.deep_view().contains("ci"@))
    &&& !(statics && exists|i: int| 0 <= i < p.tiers@.len() && #[trigger] p.tiers@[i]@ != "ci"@)
    &&& (!receipts ==> p.claims_env@.len() == 0)
}

pub fn validate_evidence_mode(producer: &Producer, rows: &Vec<MatrixRow>) -> (r: Result<(), String>)
    ensures
        r is Ok <==> evidence_mode_ok(*producer, rows@),
{
    let id = producer.producer_id.as_str();
    let ghost kinds = producer_kinds(*producer, rows@);
    let mut receipts = false;
    let mut statics = false;
    let mut i: usize = 0;
    proof {
        reveal_strlit("receipt");
        reveal_strlit("test");
        reveal_strlit("script");
    }
    while i < producer.evidence_ids.len()
        invariant
            i <= producer.evidence_ids.len(),
            kinds == producer_kinds(*producer, rows@),
            receipts == exists|e: int| 0 <= e < i && #[trigger] kind_of(rows@, producer.evidence_ids@[e]@) == Some("receipt"@),
            statics == exists|e: int| 0 <= e < i && (#[trigger] kind_of(rows@, producer.evidence_ids@[e]@) == Some("test"@) || kind_of(rows@, producer.evidence_ids@[e]@) == Some("script"@)),
        decreases producer.evidence_ids.len() - i,
    {
        match find_evidence_row(rows, producer.evidence_ids[i].as_str()) {
            Some(k) => {
                let kind = rows[k].evidence_kind.as_str();
                assert(kind_of(rows@, producer.evidence_ids@[i as int]@) == Some(kind@));
                if eq_str(kind, "receipt") {
                    receipts = true;
                }
                if eq_str(kind, "test") || eq_str(kind, "script") {
                    statics = true;
                }
            },
            None => {
                assert(kind_of(rows@, producer.evidence_ids@[i as int]@) is None);
            },
        }
        i += 1;
    }
    assert(receipts == kinds.contains("receipt"@));
    assert(statics == (kinds.contains("test"@) || kinds.contains("script"@))) by {
        if kinds.contains("test"@) {
            let e = choose|e: int| 0 <= e < producer.evidence_ids@.len() && #[trigger] kind_of(rows@, producer.evidence_ids@[e]@) == Some("test"@);
        }
        if kinds.contains("script"@) {
            let e = choose|e: int| 0 <= e < producer.evidence_ids@.len() && #[trigger] kind_of(rows@, producer.evidence_ids@[e]@) == Some("script"@);
        }
    }
    if receipts && statics {
        return Err(cat3("acceptance producers: ", id, " may not mix receipt and test/script evidence"));
    }
    if receipts && crate::strset::contains_str_in(&producer.tiers, "ci") {
        return Err(cat3("acceptance producers: ", id, " receipt evidence may not use the ci tier"));
    }
    let mut other_tier = false;
    let mut t: usize = 0;
    while t < producer.tiers.len()
        invariant
            t <= producer.tiers.len(),
            other_tier == exists|i: int| 0 <= i < t && #[trigger] producer.tiers@[i]@ != "ci"@,
        decreases producer.tiers.len() - t,
    {
        if !eq_str(producer.tiers[t].as_str(), "ci") {
            other_tier = true;
        }
        t += 1;
    }
    if statics && other_tier {
        return Err(cat3("acceptance producers: ", id, " test/script evidence is restricted to the ci tier"));
    }
    if !receipts && producer.claims_env.len() != 0 {
        return Err(cat3("acceptance producers: ", id, " test/script evidence may not declare claims_env"));
    }
    Ok(())
}

pub open spec fn runner_owned_env(n: Seq<char>) -> bool {
    n == "DEVE_ACCEPTANCE_PRODUCER_STATE_DIR"@ || n == "DEVE_BASELINE_BIN"@
}

/// An environment name the producer may use.
pub open spec fn usable_env_name(n: Seq<char>) -> bool {
    !runner_owned_env(n) && valid_env_name_spec(n)
}

pub open spec fn claims_var(p: Producer, n: Seq<char>) -> bool {
    exists|i: int| 0 <= i < p.claims_env@.len() && #[trigger] p.claims_env@[i].1@ == n
}

/// The producer's environment rules.
pub open spec fn environment_ok(p: Producer) -> bool {
    &&& forall|i: int| 0 <= i < p.bound_env@.len() ==> p.required_env.deep_view().contains(#[trigger] p.bound_env@[i]@)
        && !sensitive_env_name_spec(p.bound_env@[i]@)
    &&& forall|i: int| 0 <= i < p.required_env@.len() ==> usable_env_name(#[trigger] p.required_env@[i]@)
    &&& forall|i: int| 0 <= i < p.environment@.len() ==> usable_env_name(#[trigger] p.environment@[i].0@)
    &&& forall|i: int| 0 <= i < p.claims_env@.len() ==> usable_env_name(#[trigger] p.claims_env@[i].1@)
    &&& forall|i: int|
        #![trigger p.environment@[i]]
        0 <= i < p.environment@.len() ==> !crate::text::has_char(p.environment@[i].1@, '\0')
            && !claims_var(p, p.environment@[i].0@) && !p.required_env.deep_view().contains(p.environment@[i].0@)
}

fn check_env_name(id: &str, name: &str) -> (r: Result<(), String>)
    ensures
        r is Ok <==> usable_env_name(name@),
{
    if eq_str(name, "DEVE_ACCEPTANCE_PRODUCER_STATE_DIR") || eq_str(name, "DEVE_BASELINE_BIN") {
        let head = cat3("acceptance producers: ", id, " may not override runner-owned ");
        return Err(cat(head.as_str(), name));
    }
    if !valid_env_name(name) {
        let head = cat3("acceptance producers: ", id, " has invalid environment name ");
        return Err(cat(head.as_str(), name));
    }
    Ok(())
}

fn is_claims_var(p: &Producer, name: &str) -> (r: bool)
    ensures
        r == claims_var(*p, name@),
{
    let mut i: usize = 0;
    while i < p.claims_env.len()
        invariant
            i <= p.claims_env.len(),
            forall|k: int| 0 <= k < i ==> #[trigger] p.claims_env@[k].1@ != name@,
        decreases p.claims_env.len() - i,
    {
        if eq_str(p.claims_env[i].1.as_str(), name) {
            return true;
        }
        i += 1;
    }
    false
}

pub fn validate_environment(producer: &Producer) -> (r: Result<(), String>)
    ensures
        r is Ok <==> environment_ok(*producer),
{
    let id = producer.producer_id.as_str();
    let mut i: usize = 0;
    while i < producer.bound_env.len()
        invariant
            i <= producer.bound_env.len(),
            forall|k: int| 0 <= k < i ==> producer.required_env.deep_view().contains(#[trigger] producer.bound_env@[k]@)
                && !sensitive_env_name_spec(producer.bound_env@[k]@),
        decreases producer.bound_env.len() - i,
    {
        let name = producer.bound_env[i].as_str();
        if !crate::strset::contains_str_in(&producer.required_env, name) {
            let head = cat3("acceptance producers: ", id, " bound_env ");
            return Err(cat3(head.as_str(), name, " must also be listed in required_env"));
        }
        if sensitive_env_name(name) {
            let head = cat3("acceptance producers: ", id, " bound_env ");
            return Err(cat3(head.as_str(), name, " appears secret-bearing and may not be published in receipts"));
        }
        i += 1;
    }
    let ghost bound_ok = forall|k: int| 0 <= k < producer.bound_env@.len() ==> producer.required_env.deep_view().contains(#[trigger] producer.bound_env@[k]@)
        && !sensitive_env_name_spec(producer.bound_env@[k]@);
    assert(bound_ok);
    let mut i: usize = 0;
    while i < producer.required_env.len()
        invariant
            i <= producer.required_env.len(),
            bound_ok,
            forall|k: int| 0 <= k < i ==> usable_env_name(#[trigger] producer.required_env@[k]@),
        decreases producer.required_env.len() - i,
    {
        check_env_name(id, producer.required_env[i].as_str())?;
        i += 1;
    }
    let mut i: usize = 0;
    while i < producer.environment.len()
        invariant
            i <= producer.environment.len(),
            bound_ok,
            forall|k: int| 0 <= k < producer.required_env@.len() ==> usable_env_name(#[trigger] producer.required_env@[k]@),
            forall|k: int| 0 <= k < i ==> usable_env_name(#[trigger] producer.environment@[k].0@),
        decreases producer.environment.len() - i,
    {
        check_env_name(id, producer.environment[i].0.as_str())?;
        i += 1;
    }
    let mut i: usize = 0;
    while i < producer.claims_env.len()
        invariant
            i <= producer.claims_env.len(),
            bound_ok,
            forall|k: int| 0 <= k < producer.required_env@.len() ==> usable_env_name(#[trigger] producer.required_env@[k]@),
            forall|k: int| 0 <= k < producer.environment@.len() ==> usable_env_name(#[trigger] producer.environment@[k].0@),
            forall|k: int| 0 <= k < i ==> usable_env_name(#[trigger] producer.claims_env@[k].1@),
        decreases producer.claims_env.len() - i,
    {
        check_env_name(id, producer.claims_env[i].1.as_str())?;
        i += 1;
    }
    let mut i: usize = 0;
    while i < producer.environment.len()
        invariant
            i <= producer.environment.len(),
            bound_ok,
            forall|k: int| 0 <= k < producer.required_env@.len() ==> usable_env_name(#[trigger] producer.required_env@[k]@),
            forall|k: int| 0 <= k < producer.environment@.len() ==> usable_env_name(#[trigger] producer.environment@[k].0@),
            forall|k: int| 0 <= k < producer.claims_env@.len() ==> usable_env_name(#[trigger] producer.claims_env@[k].1@),
            forall|k: int|
                #![trigger producer.environment@[k]]
                0 <= k < i ==> !crate::text::has_char(producer.environment@[k].1@, '\0')
                    && !claims_var(*producer, producer.environment@[k].0@) && !producer.required_env.deep_view().contains(producer.environment@[k].0@),
        decreases producer.environment.len() - i,
    {
        let name = producer.environment[i].0.as_str();
        let value = producer.environment[i].1.as_str();
        assert(producer.environment@[i as int].0@ == name@);
        assert(producer.environment@[i as int].1@ == value@);
        if crate::text::has_char_exec(&chars_of(value), '\0') {
            let head = cat3("acceptance producers: ", id, " environment ");
            return Err(cat3(head.as_str(), name, " contains NUL"));
        }
        if is_claims_var(producer, name) {
            let head = cat3("acceptance producers: ", id, " environment overrides runner-owned claims variable ");
            return Err(cat(head.as_str(), name));
        }
        if crate::strset::contains_str_in(&producer.required_env, name) {
            let head = cat3("acceptance producers: ", id, " environment ");
            return Err(cat3(head.as_str(), name, " conflicts with required_env"));
        }
        assert(!crate::text::has_char(producer.environment@[i as int].1@, '\0'));
        assert(!claims_var(*producer, producer.environment@[i as int].0@));
        assert(!producer.required_env.deep_view().contains(producer.environment@[i as int].0@));
        i += 1;
    }
    Ok(())
}

pub open spec fn allowed_tiers() -> Seq<Seq<char>> {
    seq!["ci"@, "full"@, "target-host"@, "tag-ready"@]
}

pub open spec fn allowed_hosts() -> Seq<Seq<char>> {
    seq!["linux"@, "macos"@, "windows"@]
}

pub open spec fn allowed_tools() -> Seq<Seq<char>> {
    seq!["node"@]
}

/// A producer's own contract, given the executable matrix rows, the
/// repository paths that are files, and the artifact files the repository
/// owns (regular files inside it, not links).
pub open spec fn producer_ok(p: Producer, rows: Seq<MatrixRow>, files: Set<Seq<char>>, owned: Set<Seq<char>>) -> bool {
    &&& producer_fields_ok(p, rows, files, owned)
    &&& invokes_node(p) ==> p.required_tools.deep_view().contains("node"@)
}

/// Some step of the producer runs `node` directly.
pub open spec fn invokes_node(p: Producer) -> bool {
    exists|i: int| 0 <= i < p.steps@.len() && #[trigger] p.steps@[i].program@ == "node"@
}

/// Every check of a producer's contract but the one on declared tools.
pub open spec fn producer_fields_ok(p: Producer, rows: Seq<MatrixRow>, files: Set<Seq<char>>, owned: Set<Seq<char>>) -> bool {
    &&& valid_identifier_spec(p.producer_id@)
    &&& p.evidence_ids@.len() > 0
    &&& p.evidence_ids@.len() <= 64
    &&& unique_nonempty(p.evidence_ids.deep_view())
    &&& unique_nonempty(p.dependencies.deep_view())
    &&& unique_nonempty(p.tiers.deep_view()) && p.tiers.deep_view().to_set().subset_of(allowed_tiers().to_set())
    &&& unique_nonempty(p.host_os.deep_view()) && p.host_os.deep_view().to_set().subset_of(allowed_hosts().to_set())
    &&& unique_nonempty(p.required_tools.deep_view()) && p.required_tools.deep_view().to_set().subset_of(allowed_tools().to_set())
    &&& 1 <= p.timeout_seconds <= 14400
    &&& crate::text::trim(p.note@).len() > 0
    &&& unique_nonempty(p.required_env.deep_view())
    &&& unique_nonempty(p.bound_env.deep_view())
    &&& unique_nonempty(p.artifacts.deep_view())
    &&& evidence_mode_ok(p, rows)
    &&& environment_ok(p)
    &&& forall|i: int| 0 <= i < p.artifacts@.len() ==> artifact_location_allowed_spec(#[trigger] p.artifacts@[i]@) && owned.contains(p.artifacts@[i]@)
    &&& p.steps@.len() > 0
    &&& forall|i: int| 0 <= i < p.steps@.len() ==> step_ok(p, #[trigger] p.steps@[i], files)
    &&& forall|i: int| 0 <= i < p.finally_steps@.len() ==> step_ok(p, #[trigger] p.finally_steps@[i], files)
}

/// Checks one producer's contract.
pub fn validate_producer(
    files: &Vec<String>,
    owned: &Vec<String>,
    producer: &Producer,
    rows: &Vec<MatrixRow>,
) -> (r: Result<(), String>)
    ensures
        r is Ok <==> producer_ok(*producer, rows@, files.deep_view().to_set(), owned.deep_view().to_set()),
        producer_fields_ok(*producer, rows@, files.deep_view().to_set(), owned.deep_view().to_set()) && invokes_node(
            *producer,
        ) && !producer.required_tools.deep_view().contains("node"@) ==> (r matches Err(e) && e@ == "acceptance producers: "@
            + producer.producer_id@ + " directly invokes node without declaring required_tools node"@),
{
    let id = producer.producer_id.as_str();
    if !valid_identifier(id) {
        return Err(cat("acceptance producers: invalid producer_id ", id));
    }
    if producer.evidence_ids.len() == 0 {
        return Err(cat3("acceptance producers: ", id, " must cover at least one executable evidence"));
    }
    if producer.evidence_ids.len() > 64 {
        return Err(cat3("acceptance producers: ", id, " exceeds the atomic execution limit of 64 receipts"));
    }
    require_unique_nonempty(&producer.evidence_ids, "evidence_ids", producer)?;
    require_unique_nonempty(&producer.dependencies, "dependencies", producer)?;
    let tiers = crate::strset::strings_of(&vec!["ci", "full", "target-host", "tag-ready"]);
    assert(tiers.deep_view() =~= allowed_tiers());
    require_allowed_unique(&producer.tiers, &tiers, "tiers", producer)?;
    let hosts = crate::strset::strings_of(&vec!["linux", "macos", "windows"]);
    assert(hosts.deep_view() =~= allowed_hosts());
    require_allowed_unique(&producer.host_os, &hosts, "host_os", producer)?;
    let tools = crate::strset::strings_of(&vec!["node"]);
    assert(tools.deep_view() =~= allowed_tools());
    require_allowed_unique(&producer.required_tools, &tools, "required_tools", producer)?;
    if producer.timeout_seconds < 1 || producer.timeout_seconds > 14400 {
        return Err(cat3("acceptance producers: ", id, " timeout_seconds must be in 1..=14400"));
    }
    if crate::text::trim_str(producer.note.as_str()).as_str().is_empty() {
        return Err(cat3("acceptance producers: ", id, " requires a non-empty note"));
    }
    require_unique_nonempty(&producer.required_env, "required_env", producer)?;
    require_unique_nonempty(&producer.bound_env, "bound_env", producer)?;
    require_unique_nonempty(&producer.artifacts, "artifacts", producer)?;
    validate_evidence_mode(producer, rows)?;
    validate_environment(producer)?;
    let ghost head_ok = {
        &&& valid_identifier_spec(producer.producer_id@)
        &&& producer.evidence_ids@.len() > 0
        &&& producer.evidence_ids@.len() <= 64
        &&& unique_nonempty(producer.evidence_ids.deep_view())
        &&& unique_nonempty(producer.dependencies.deep_view())
        &&& unique_nonempty(producer.tiers.deep_view()) && producer.tiers.deep_view().to_set().subset_of(allowed_tiers().to_set())
        &&& unique_nonempty(producer.host_os.deep_view()) && producer.host_os.deep_view().to_set().subset_of(allowed_hosts().to_set())
        &&& unique_nonempty(producer.required_tools.deep_view()) && producer.required_tools.deep_view().to_set().subset_of(allowed_tools().to_set())
        &&& 1 <= producer.timeout_seconds <= 14400
        &&& crate::text::trim(producer.note@).len() > 0
        &&& unique_nonempty(producer.required_env.deep_view())
        &&& unique_nonempty(producer.bound_env.deep_view())
        &&& unique_nonempty(producer.artifacts.deep_view())
        &&& evidence_mode_ok(*producer, rows@)
        &&& environment_ok(*producer)
    };
    assert(head_ok);
    let mut i: usize = 0;
    while i < producer.artifacts.len()
        invariant
            i <= producer.artifacts.len(),
            head_ok,
            forall|k: int| 0 <= k < i ==> artifact_location_allowed_spec(#[trigger] producer.artifacts@[k]@) && owned.deep_view().to_set().contains(producer.artifacts@[k]@),
        decreases producer.artifacts.len() - i,
    {
        let a = producer.artifacts[i].as_str();
        if !artifact_location_allowed(a) || !crate::strset::contains_str_in(owned, a) {
            let head = cat3("acceptance producers: ", id, " has invalid or missing artifact ");
            return Err(cat(head.as_str(), a));
        }
        i += 1;
    }
    if producer.steps.len() == 0 {
        return Err(cat3("acceptance producers: ", id, " requires at least one step"));
    }
    let ghost arts_ok = forall|k: int| 0 <= k < producer.artifacts@.len() ==> artifact_location_allowed_spec(#[trigger] producer.artifacts@[k]@) && owned.deep_view().to_set().contains(producer.artifacts@[k]@);
    let mut i: usize = 0;
    let mut node = false;
    while i < producer.steps.len()
        invariant
            i <= producer.steps.len(),
            head_ok,
            arts_ok,
            forall|k: int| 0 <= k < i ==> step_ok(*producer, #[trigger] producer.steps@[k], files.deep_view().to_set()),
            node == exists|k: int| 0 <= k < i && #[trigger] producer.steps@[k].program@ == "node"@,
        decreases producer.steps.len() - i,
    {
        validate_step(files, producer, &producer.steps[i])?;
        if eq_str(producer.steps[i].program.as_str(), "node") {
            node = true;
        }
        i += 1;
    }
    let mut i: usize = 0;
    while i < producer.finally_steps.len()
        invariant
            i <= producer.finally_steps.len(),
            head_ok,
            arts_ok,
            forall|k: int| 0 <= k < producer.steps@.len() ==> step_ok(*producer, #[trigger] producer.steps@[k], files.deep_view().to_set()),
            node == exists|k: int| 0 <= k < producer.steps@.len() && #[trigger] producer.steps@[k].program@ == "node"@,
            forall|k: int| 0 <= k < i ==> step_ok(*producer, #[trigger] producer.finally_steps@[k], files.deep_view().to_set()),
        decreases producer.finally_steps.len() - i,
    {
        validate_step(files, producer, &producer.finally_steps[i])?;
        i += 1;
    }
    if node && !crate::strset::contains_str_in(&producer.required_tools, "node") {
        return Err(cat3("acceptance producers: ", id, " directly invokes node without declaring required_tools node"));
    }
    Ok(())
}

/// The last normal component of a path, when it has one.
pub fn program_name_raw(path: &str) -> (r: Option<String>)
    ensures
        match r {
            Some(f) => crate::acceptance_matrix::validate::file_name(path@) == Some(f@),
            None => crate::acceptance_matrix::validate::file_name(path@) is None,
        },
{
    let parts = split_str(path, '/');
    let ghost pv = parts.deep_view();
    let mut last: Option<usize> = None;
    let mut i: usize = 0;
    proof {
        reveal_strlit(".");
        reveal_strlit("..");
    }
    assert("."@ =~= seq!['.']);
    assert(".."@ =~= seq!['.', '.']);
    assert(pv.take(0) =~= Seq::<Seq<char>>::empty());
    while i < parts.len()
        invariant
            pv == parts.deep_view(),
            i <= parts.len(),
            "."@ == seq!['.'],
            match last {
                Some(k) => k < i && named_parts(pv.take(i as int)).len() > 0 && named_parts(pv.take(i as int)).last() == pv[k as int],
                None => named_parts(pv.take(i as int)).len() == 0,
            },
        decreases parts.len() - i,
    {
        let p = parts[i].as_str();
        assert(pv[i as int] == p@);
        assert(pv.take(i + 1).drop_last() =~= pv.take(i as int));
        assert(pv.take(i + 1).last() == p@);
        if !(p.is_empty() || eq_str(p, ".")) {
            last = Some(i);
        }
        i += 1;
    }
    assert(pv.take(parts.len() as int) =~= pv);
    match last {
        Some(k) => {
            if eq_str(parts[k].as_str(), "..") {
                None
            } else {
                Some(parts[k].clone())
            }
        },
        None => None,
    }
}

} // verus!
