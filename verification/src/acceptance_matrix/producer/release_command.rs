//! Canonical candidate producer command parsing and shell-settlement checks.
use super::ci_command::tier_index;
use crate::text::{
    cat, cat3, chars_of, decimal_string, eq_str, is_ascii_alnum, is_whitespace, is_ws, lines, lines_of,
    occurs_at, occurs_at_exec, starts_with, string_of, to_string, trim, trim_str,
};
use vstd::prelude::*;

verus! {

/// The candidate harness binary that may run Android producers.
pub const ANDROID_HARNESS: &'static str = "$GITHUB_WORKSPACE/target/android-candidate-harness/debug/deve_baseline";

/// Splitting state: the finished tokens, the token being read, and the quote
/// that is open, if any.
pub type TokenScan = (Seq<Seq<char>>, Seq<char>, Option<char>);

/// Reads the first `n` characters: quotes group text (and are dropped),
/// whitespace outside quotes ends a token.
pub open spec fn token_scan(s: Seq<char>, n: int) -> TokenScan
    decreases n,
{
    if n <= 0 {
        (Seq::empty(), Seq::empty(), None)
    } else {
        let (tokens, current, quote) = token_scan(s, n - 1);
        let ch = s[n - 1];
        match quote {
            Some(q) => if ch == q {
                (tokens, current, None)
            } else {
                (tokens, current.push(ch), quote)
            },
            None => if ch == '\'' || ch == '"' {
                (tokens, current, Some(ch))
            } else if is_ws(ch) {
                if current.len() > 0 {
                    (tokens.push(current), Seq::empty(), None)
                } else {
                    (tokens, current, None)
                }
            } else {
                (tokens, current.push(ch), None)
            },
        }
    }
}

/// The shell-like tokens of a command line; `None` when a quote is left
/// open.
pub open spec fn tokenize_spec(s: Seq<char>) -> Option<Seq<Seq<char>>> {
    let (tokens, current, quote) = token_scan(s, s.len() as int);
    if quote is Some {
        None
    } else if current.len() > 0 {
        Some(tokens.push(current))
    } else {
        Some(tokens)
    }
}

/// The tokens without line-continuation backslashes and backticks.
pub open spec fn drop_escapes(t: Seq<Seq<char>>) -> Seq<Seq<char>>
    decreases t.len(),
{
    if t.len() == 0 {
        Seq::empty()
    } else {
        let rest = drop_escapes(t.drop_last());
        if t.last() == "\\"@ || t.last() == "`"@ {
            rest
        } else {
            rest.push(t.last())
        }
    }
}

/// The position of the tier token: after the canonical `cargo run` prefix,
/// or after the Android candidate harness.
pub open spec fn candidate_tier_index(t: Seq<Seq<char>>) -> Option<int> {
    if t.len() > 0 && t[0] == "cargo"@ {
        tier_index(t)
    } else if t.len() >= 3 && t[0] == ANDROID_HARNESS@ && t[1] == "acceptance-run"@ && t[2] == "--tier"@ {
        Some(3)
    } else {
        None
    }
}

/// Where a run of `--producer <id>` pairs starting at `j` ends; `None` when
/// the last `--producer` has no ID.
pub open spec fn producer_run_end(t: Seq<Seq<char>>, j: int) -> Option<int>
    decreases t.len() - j,
{
    if 0 <= j < t.len() && t[j] == "--producer"@ {
        if j + 1 < t.len() {
            producer_run_end(t, j + 2)
        } else {
            None
        }
    } else {
        Some(j)
    }
}

/// The IDs of the run of `--producer <id>` pairs starting at `j`.
pub open spec fn producer_run(t: Seq<Seq<char>>, j: int) -> Seq<Seq<char>>
    decreases t.len() - j,
{
    if 0 <= j && j + 1 < t.len() && t[j] == "--producer"@ {
        seq![t[j + 1]] + producer_run(t, j + 2)
    } else {
        Seq::empty()
    }
}

pub open spec fn id_char(c: char) -> bool {
    is_ascii_alnum(c) || c == '.' || c == '-'
}

/// A producer ID: non-empty ASCII letters, digits, `.` and `-`.
pub open spec fn valid_id_spec(v: Seq<char>) -> bool {
    v.len() > 0 && forall|i: int| 0 <= i < v.len() ==> id_char(#[trigger] v[i])
}

pub open spec fn dir_char(c: char) -> bool {
    is_ascii_alnum(c) || c == '/' || c == '.' || c == '_' || c == '-'
}

/// A receipt directory under the runner's temporary directory (or `/tmp`)
/// with a plain, non-empty relative suffix.
pub open spec fn receipt_dir_ok(v: Seq<char>) -> bool {
    let suffix = if starts_with(v, "$RUNNER_TEMP/"@) {
        Some(v.skip(13))
    } else if starts_with(v, "${{ runner.temp }}/"@) {
        Some(v.skip(19))
    } else if starts_with(v, "/tmp/"@) {
        Some(v.skip(5))
    } else {
        None
    };
    match suffix {
        Some(x) => dir_suffix_ok(x),
        None => false,
    }
}

pub open spec fn dir_suffix_ok(x: Seq<char>) -> bool {
    x.len() > 0 && forall|i: int| 0 <= i < x.len() ==> dir_char(#[trigger] x[i])
}

pub open spec fn all_valid_ids(ps: Seq<Seq<char>>) -> bool {
    forall|k: int| 0 <= k < ps.len() ==> valid_id_spec(#[trigger] ps[k])
}

/// The producers a canonical candidate command executes, or `None` where the
/// command is not canonical.
pub open spec fn argv_spec(command: Seq<char>) -> Option<Seq<Seq<char>>> {
    match tokenize_spec(command) {
        None => None,
        Some(raw) => {
            let t = drop_escapes(raw);
            match candidate_tier_index(t) {
                None => None,
                Some(i) => if i >= t.len() || !(t[i] == "full"@ || t[i] == "tag-ready"@ || t[i] == "target-host"@) {
                    None
                } else if i + 1 < t.len() && t[i + 1] == "--plan"@ {
                    None
                } else {
                    match producer_run_end(t, i + 1) {
                        None => None,
                        Some(e) => {
                            let ps = producer_run(t, i + 1);
                            if ps.len() == 0 || !(e < t.len() && t[e] == "--receipt-dir"@) || !(e + 1 < t.len()
                                && receipt_dir_ok(t[e + 1])) || e + 2 != t.len() || !all_valid_ids(ps)
                                || !ps.no_duplicates() {
                                None
                            } else {
                                Some(ps)
                            }
                        },
                    }
                },
            }
        },
    }
}

/// How many times `p` occurs in `s`.
pub open spec fn occurrences(s: Seq<char>, p: Seq<char>, n: int) -> nat
    decreases n,
{
    if n <= 0 {
        0
    } else {
        occurrences(s, p, n - 1) + if occurs_at(s, p, n - 1) {
            1nat
        } else {
            0nat
        }
    }
}

/// The trimmed non-blank lines among the first `n`.
pub open spec fn nonblank(ls: Seq<Seq<char>>, n: int) -> Seq<Seq<char>>
    decreases n,
{
    if n <= 0 {
        Seq::empty()
    } else {
        let rest = nonblank(ls, n - 1);
        if trim(ls[n - 1]).len() > 0 {
            rest.push(trim(ls[n - 1]))
        } else {
            rest
        }
    }
}

/// What a workflow `run` step means for candidate producers: an error
/// (`None`), no producer command (`Some(None)`), or the producers of its one
/// canonical command. `acceptance-run` cannot overlap itself, so counting
/// every occurrence counts the disjoint ones.
#[verifier::opaque]
pub open spec fn candidate_command_spec(run: Seq<char>, shell: Option<Seq<char>>) -> Option<Option<Seq<Seq<char>>>> {
    let count = occurrences(run, "acceptance-run"@, run.len() as int);
    if count == 0 {
        Some(None)
    } else if count != 1 {
        None
    } else if !(shell is None || shell == Some("pwsh"@)) {
        None
    } else {
        let ls = nonblank(lines(run), lines(run).len() as int);
        if ls.len() != 1 {
            None
        } else {
            match argv_spec(ls[0]) {
                Some(ps) => Some(Some(ps)),
                None => None,
            }
        }
    }
}


fn tokenize_command(command: &str, path: &str) -> (r: Result<Vec<String>, String>)
    ensures
        match tokenize_spec(command@) {
            Some(t) => r matches Ok(v) && v.deep_view() == t,
            None => r is Err,
        },
{
    let cs = chars_of(command);
    let mut tokens: Vec<String> = Vec::new();
    let mut current: Vec<char> = Vec::new();
    let mut quote: Option<char> = None;
    let mut i: usize = 0;
    while i < cs.len()
        invariant
            cs@ == command@,
            i <= cs@.len(),
            (tokens.deep_view(), current@, quote) == token_scan(cs@, i as int),
        decreases cs@.len() - i,
    {
        let ch = cs[i];
        match quote {
            Some(q) => {
                if ch == q {
                    quote = None;
                } else {
                    current.push(ch);
                }
            },
            None => {
                if ch == '\'' || ch == '"' {
                    quote = Some(ch);
                } else if is_whitespace(ch) {
                    if current.len() > 0 {
                        let ghost before = tokens.deep_view();
                        let t = string_of(&current);
                        tokens.push(t);
                        assert(tokens.deep_view() =~= before.push(current@));
                        current = Vec::new();
                    }
                } else {
                    current.push(ch);
                }
            },
        }
        i += 1;
    }
    if quote.is_some() {
        return Err(cat3("acceptance producers: ", path, " has an unterminated quoted argument"));
    }
    if current.len() > 0 {
        let ghost before = tokens.deep_view();
        let t = string_of(&current);
        tokens.push(t);
        assert(tokens.deep_view() =~= before.push(current@));
    }
    Ok(tokens)
}

fn drop_escapes_exec(raw: &Vec<String>) -> (r: Vec<String>)
    ensures
        r.deep_view() == drop_escapes(raw.deep_view()),
{
    let mut out: Vec<String> = Vec::new();
    let mut i: usize = 0;
    while i < raw.len()
        invariant
            i <= raw@.len(),
            out.deep_view() == drop_escapes(raw.deep_view().take(i as int)),
        decreases raw@.len() - i,
    {
        assert(raw.deep_view().take(i + 1).drop_last() =~= raw.deep_view().take(i as int));
        let t = raw[i].as_str();
        if !eq_str(t, "\\") && !eq_str(t, "`") {
            let ghost before = out.deep_view();
            out.push(to_string(t));
            assert(out.deep_view() =~= before.push(t@));
        }
        i += 1;
    }
    assert(raw.deep_view().take(raw@.len() as int) =~= raw.deep_view());
    out
}

fn expect_candidate_token(tokens: &Vec<String>, index: usize, expected: &str, path: &str) -> (r: Result<(), String>)
    ensures
        r is Ok <==> index < tokens.deep_view().len() && tokens.deep_view()[index as int] == expected@,
{
    if index < tokens.len() && eq_str(tokens[index].as_str(), expected) {
        return Ok(());
    }
    let head = cat3("acceptance producers: ", path, " must use canonical candidate argv; expected ");
    let mid = cat3(head.as_str(), expected, " at token ");
    Err(cat(mid.as_str(), decimal_string(index as u128).as_str()))
}

pub fn valid_id(value: &str) -> (r: bool)
    ensures
        r == valid_id_spec(value@),
{
    let cs = chars_of(value);
    if cs.len() == 0 {
        return false;
    }
    let mut i: usize = 0;
    while i < cs.len()
        invariant
            cs@ == value@,
            i <= cs@.len(),
            forall|k: int| 0 <= k < i ==> id_char(#[trigger] cs@[k]),
        decreases cs@.len() - i,
    {
        let c = cs[i];
        if !(('a' <= c && c <= 'z') || ('A' <= c && c <= 'Z') || ('0' <= c && c <= '9') || c == '.' || c == '-') {
            return false;
        }
        i += 1;
    }
    true
}

pub fn valid_receipt_dir(value: &str) -> (r: bool)
    ensures
        r == receipt_dir_ok(value@),
{
    let cs = chars_of(value);
    proof {
        reveal_strlit("$RUNNER_TEMP/");
        reveal_strlit("${{ runner.temp }}/");
        reveal_strlit("/tmp/");
    }
    let start: usize = if crate::text::starts_with_str(value, "$RUNNER_TEMP/") {
        13
    } else if crate::text::starts_with_str(value, "${{ runner.temp }}/") {
        19
    } else if crate::text::starts_with_str(value, "/tmp/") {
        5
    } else {
        return false;
    };
    assert(receipt_dir_ok(value@) == dir_suffix_ok(value@.skip(start as int)));
    if start >= cs.len() {
        return false;
    }
    let mut i: usize = start;
    while i < cs.len()
        invariant
            cs@ == value@,
            start < cs@.len(),
            receipt_dir_ok(value@) == dir_suffix_ok(value@.skip(start as int)),
            start <= i <= cs@.len(),
            forall|k: int| start <= k < i ==> dir_char(#[trigger] cs@[k]),
        decreases cs@.len() - i,
    {
        let c = cs[i];
        if !(('a' <= c && c <= 'z') || ('A' <= c && c <= 'Z') || ('0' <= c && c <= '9') || c == '/' || c == '.' || c
            == '_' || c == '-') {
            assert(value@.skip(start as int)[i - start] == c);
            return false;
        }
        i += 1;
    }
    assert forall|k: int| 0 <= k < value@.skip(start as int).len() implies dir_char(#[trigger] value@.skip(start as int)[k]) by {
        assert(value@.skip(start as int)[k] == cs@[start + k]);
    }
    true
}


proof fn lemma_run_step(t: Seq<Seq<char>>, j: int)
    requires
        0 <= j,
        j + 1 < t.len(),
        t[j] == "--producer"@,
    ensures
        producer_run_end(t, j) == producer_run_end(t, j + 2),
        producer_run(t, j) == seq![t[j + 1]] + producer_run(t, j + 2),
{
}

fn check_producer_ids(producers: &Vec<String>, path: &str) -> (r: Result<(), String>)
    ensures
        r is Ok <==> all_valid_ids(producers.deep_view()) && producers.deep_view().no_duplicates(),
{
    let ghost ps = producers.deep_view();
    let mut unique: Vec<String> = Vec::new();
    let mut k: usize = 0;
    while k < producers.len()
        invariant
            ps == producers.deep_view(),
            k <= ps.len(),
            forall|q: int| 0 <= q < k ==> valid_id_spec(#[trigger] ps[q]),
            ps.take(k as int).no_duplicates(),
            crate::strset::sorted(unique.deep_view()),
            unique.deep_view().to_set() == ps.take(k as int).to_set(),
        decreases ps.len() - k,
    {
        let id = producers[k].as_str();
        assert(ps[k as int] == id@);
        assert(ps.take(k + 1) =~= ps.take(k as int).push(id@));
        if !valid_id(id) {
            let head = cat3("acceptance producers: ", path, " has invalid producer ID ");
            return Err(cat(head.as_str(), id));
        }
        let ghost before = unique.deep_view();
        if !crate::strset::set_insert(&mut unique, to_string(id)) {
            proof {
                assert(before.contains(id@));
                assert(ps.take(k as int).to_set().contains(id@));
                super::ci_command::lemma_dup_prefix(ps.take(k as int), id@, ps.skip(k + 1));
                assert(ps.take(k as int) + (seq![id@] + ps.skip(k + 1)) =~= ps);
            }
            let head = cat3("acceptance producers: ", path, " repeats producer ");
            return Err(cat(head.as_str(), id));
        }
        proof {
            assert(ps.take(k as int).to_set().contains(id@) == ps.take(k as int).contains(id@));
            super::ci_command::lemma_no_dup_push(ps.take(k as int), id@);
            ps.take(k as int).lemma_push_to_set_commute(id@);
        }
        k += 1;
    }
    assert(ps.take(ps.len() as int) =~= ps);
    Ok(())
}

fn parse_argv(command: &str, path: &str) -> (r: Result<Vec<String>, String>)
    ensures
        match argv_spec(command@) {
            Some(ps) => r matches Ok(v) && v.deep_view() == ps,
            None => r is Err,
        },
{
    let raw = tokenize_command(command, path)?;
    let tokens = drop_escapes_exec(&raw);
    let ghost t = tokens.deep_view();
    let mut index: usize = 0;
    if tokens.len() > 0 && eq_str(tokens[0].as_str(), "cargo") {
        expect_candidate_token(&tokens, index, "cargo", path)?;
        index += 1;
        expect_candidate_token(&tokens, index, "run", path)?;
        index += 1;
        expect_candidate_token(&tokens, index, "--locked", path)?;
        index += 1;
        if index < tokens.len() && eq_str(tokens[index].as_str(), "--quiet") {
            index += 1;
        }
        assert(index == if t.len() > 3 && t[3] == "--quiet"@ { 4int } else { 3int });
        expect_candidate_token(&tokens, index, "-p", path)?;
        index += 1;
        expect_candidate_token(&tokens, index, "deve_baseline", path)?;
        index += 1;
        expect_candidate_token(&tokens, index, "--", path)?;
        index += 1;
        expect_candidate_token(&tokens, index, "acceptance-run", path)?;
        index += 1;
        expect_candidate_token(&tokens, index, "--tier", path)?;
        index += 1;
        assert(tier_index(t) == Some(index as int));
    } else {
        expect_candidate_token(&tokens, index, ANDROID_HARNESS, path)?;
        index += 1;
        expect_candidate_token(&tokens, index, "acceptance-run", path)?;
        index += 1;
        expect_candidate_token(&tokens, index, "--tier", path)?;
        index += 1;
    }
    assert(candidate_tier_index(t) == Some(index as int));
    if index >= tokens.len() {
        return Err(cat3("acceptance producers: ", path, " is missing its tier"));
    }
    let tier = tokens[index].as_str();
    if !(eq_str(tier, "full") || eq_str(tier, "tag-ready") || eq_str(tier, "target-host")) {
        let head = cat3("acceptance producers: ", path, " has invalid candidate tier ");
        return Err(cat(head.as_str(), tier));
    }
    index += 1;
    if index < tokens.len() && eq_str(tokens[index].as_str(), "--plan") {
        return Err(cat3("acceptance producers: ", path, " must execute receipts, not plan them"));
    }
    let ghost j0 = index as int;
    let mut producers: Vec<String> = Vec::new();
    while tokens.len() > 0 && index < tokens.len() - 1 && eq_str(tokens[index].as_str(), "--producer")
        invariant
            t == tokens.deep_view(),
            j0 <= index <= t.len(),
            producer_run_end(t, j0) == producer_run_end(t, index as int),
            producer_run(t, j0) == producers.deep_view() + producer_run(t, index as int),
        decreases t.len() - index,
    {
        proof {
            lemma_run_step(t, index as int);
        }
        let ghost before = producers.deep_view();
        let id = to_string(tokens[index + 1].as_str());
        producers.push(id);
        assert(producers.deep_view() =~= before.push(t[index + 1]));
        assert(before + (seq![t[index + 1]] + producer_run(t, index + 2)) =~= producers.deep_view() + producer_run(t, index + 2));
        index += 2;
    }
    if index < tokens.len() && eq_str(tokens[index].as_str(), "--producer") {
        return Err(cat3("acceptance producers: ", path, " has --producer without an ID"));
    }
    assert(producer_run_end(t, index as int) == Some(index as int));
    assert(producer_run(t, index as int) =~= Seq::<Seq<char>>::empty());
    assert(producers.deep_view() + Seq::<Seq<char>>::empty() =~= producers.deep_view());
    if producers.len() == 0 {
        return Err(cat3(
            "acceptance producers: ",
            path,
            " candidate acceptance-run must bind at least one --producer",
        ));
    }
    expect_candidate_token(&tokens, index, "--receipt-dir", path)?;
    index += 1;
    if index >= tokens.len() {
        return Err(cat3("acceptance producers: ", path, " is missing its receipt directory"));
    }
    if !valid_receipt_dir(tokens[index].as_str()) {
        return Err(cat3("acceptance producers: ", path, " has an invalid receipt directory"));
    }
    index += 1;
    if index != tokens.len() {
        return Err(cat3("acceptance producers: ", path, " mixes the candidate command with trailing shell text"));
    }
    check_producer_ids(&producers, path)?;
    Ok(producers)
}


fn count_occurrences(s: &Vec<char>, p: &Vec<char>) -> (r: u64)
    ensures
        r == occurrences(s@, p@, s@.len() as int),
{
    let mut count: u64 = 0;
    let mut i: usize = 0;
    while i < s.len()
        invariant
            i <= s@.len(),
            count == occurrences(s@, p@, i as int),
            count <= i,
        decreases s@.len() - i,
    {
        if occurs_at_exec(s, p, i) {
            count += 1;
        }
        i += 1;
    }
    count
}

fn nonblank_lines(run: &str) -> (r: Vec<String>)
    ensures
        r.deep_view() == nonblank(lines(run@), lines(run@).len() as int),
{
    let ls = lines_of(run);
    let mut out: Vec<String> = Vec::new();
    let mut i: usize = 0;
    while i < ls.len()
        invariant
            ls.deep_view() == lines(run@),
            i <= ls@.len(),
            out.deep_view() == nonblank(ls.deep_view(), i as int),
        decreases ls@.len() - i,
    {
        let line = trim_str(ls[i].as_str());
        assert(line@ == trim(ls.deep_view()[i as int]));
        if !line.as_str().is_empty() {
            let ghost before = out.deep_view();
            out.push(line);
            assert(out.deep_view() =~= before.push(trim(ls.deep_view()[i as int])));
        }
        i += 1;
    }
    out
}

pub open spec fn shell_view(shell: Option<&str>) -> Option<Seq<char>> {
    match shell {
        Some(s) => Some(s@),
        None => None,
    }
}

/// Parses the `run` text (and `shell`) of a candidate workflow step: the
/// producers of its one canonical acceptance command, none when it has no
/// acceptance command, or an error.
pub fn parse_candidate_command(run: &str, shell: Option<&str>, path: &str) -> (r: Result<Option<Vec<String>>, String>)
    ensures
        match candidate_command_spec(run@, shell_view(shell)) {
            None => r is Err,
            Some(None) => r matches Ok(None),
            Some(Some(ps)) => r matches Ok(Some(v)) && v.deep_view() == ps,
        },
{
    proof {
        reveal(candidate_command_spec);
    }
    let count = count_occurrences(&chars_of(run), &chars_of("acceptance-run"));
    if count == 0 {
        return Ok(None);
    }
    if count != 1 {
        return Err(cat3("acceptance producers: ", path, " must execute exactly one acceptance-run command"));
    }
    match shell {
        Some(sh) => {
            if !eq_str(sh, "pwsh") {
                return Err(cat3("acceptance producers: ", path, " uses an uncontrolled shell"));
            }
        },
        None => {},
    }
    let commands = nonblank_lines(run);
    if commands.len() != 1 {
        return Err(cat3(
            "acceptance producers: ",
            path,
            " producer must occupy one dedicated canonical run command",
        ));
    }
    let producers = parse_argv(commands[0].as_str(), path)?;
    Ok(Some(producers))
}

} // verus!
