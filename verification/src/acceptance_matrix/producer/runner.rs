//! Producer run bookkeeping: duration reports and host tool candidates.
use crate::acceptance_matrix::receipt::{duration_diagnostic, duration_diagnostic_spec};
use crate::text::{cat, cat3, chars_of, string_from, to_string};
use std::time::{Duration, Instant};
use vstd::prelude::*;

verus! {

#[verifier::external_type_specification]
#[verifier::external_body]
pub struct ExInstant(Instant);

/// Reads the monotonic clock (`Instant::now`). Nothing is claimed of the
/// result: it depends on the time.
#[verifier::external_body]
fn clock_now() -> Instant {
    Instant::now()
}

/// The time since `started` (`Instant::elapsed`). Nothing is claimed of the
/// result: it depends on the time.
#[verifier::external_body]
fn elapsed_since(started: &Instant) -> Duration {
    started.elapsed()
}

/// The whole milliseconds of a duration (`Duration::as_millis`). A duration
/// is opaque here, so nothing is claimed of the number.
#[verifier::external_body]
fn duration_millis(d: &Duration) -> u128 {
    d.as_millis()
}

/// The fixed, secret-free report of a producer's run: its ID, whether it
/// succeeded, and how long it took in whole milliseconds.
pub fn producer_duration_diagnostic(producer_id: &str, success: bool, millis: u128) -> (r: String)
    ensures
        r@ == duration_diagnostic_spec(producer_id@, success, millis as nat),
{
    duration_diagnostic(producer_id, success, millis)
}

/// Runs `operation` and returns exactly what it returned, with the line
/// that reports how long it took (for the caller to print).
pub fn with_producer_duration<T, F: FnOnce() -> Result<T, String>>(producer_id: &str, operation: F) -> (r: (
    Result<T, String>,
    String,
))
    requires
        operation.requires(()),
    ensures
        operation.ensures((), r.0),
        exists|millis: nat| r.1@ == #[trigger] duration_diagnostic_spec(producer_id@, r.0 is Ok, millis),
{
    let started = clock_now();
    let result = operation();
    let elapsed = elapsed_since(&started);
    let line = producer_duration_diagnostic(producer_id, result.is_ok(), duration_millis(&elapsed));
    (result, line)
}

pub open spec fn is_separator(c: char) -> bool {
    c == '\\' || c == '/'
}

/// A bare root: `\`, `/`, or a drive letter with one separator.
pub open spec fn is_root(p: Seq<char>) -> bool {
    (p.len() == 1 && is_separator(p[0])) || (p.len() == 3 && p[1] == ':' && is_separator(p[2]))
}

/// The last separator of `p`, where it has one.
pub open spec fn last_separator(p: Seq<char>) -> Option<int> {
    if exists|i: int| 0 <= i < p.len() && is_separator(#[trigger] p[i]) {
        Some(choose|i: int| 0 <= i < p.len() && is_separator(#[trigger] p[i]) && forall|j: int| i < j < p.len() ==> !is_separator(#[trigger] p[j]))
    } else {
        None
    }
}

/// The parent of a Windows path given without trailing separators: the text
/// before its last separator, keeping a root's separator; none for a root or
/// a single component.
pub open spec fn windows_parent(p: Seq<char>) -> Option<Seq<char>> {
    if is_root(p) {
        None
    } else {
        match last_separator(p) {
            None => None,
            Some(i) => if i == 0 || (i == 2 && p[1] == ':') {
                Some(p.take(i + 1))
            } else {
                Some(p.take(i))
            },
        }
    }
}

/// The path and its first `n - 1` ancestors, nearest first.
pub open spec fn ancestors(p: Seq<char>, n: nat) -> Seq<Seq<char>>
    decreases n,
{
    if n == 0 {
        Seq::empty()
    } else {
        seq![p] + match windows_parent(p) {
            Some(q) => if q.len() < p.len() { ancestors(q, (n - 1) as nat) } else { Seq::empty() },
            None => Seq::empty(),
        }
    }
}

/// `p` joined with a relative Windows path.
pub open spec fn windows_join(p: Seq<char>, tail: Seq<char>) -> Seq<char> {
    if p.len() > 0 && is_separator(p.last()) {
        p + tail
    } else {
        p + seq!['\\'] + tail
    }
}

/// Where Git Bash may live relative to one ancestor of Git's exec path.
pub open spec fn bash_candidates_of(a: Seq<char>) -> Seq<Seq<char>> {
    seq![windows_join(a, "bin\\bash.exe"@), windows_join(a, "usr\\bin\\bash.exe"@)]
}

pub open spec fn flat_candidates(ancs: Seq<Seq<char>>) -> Seq<Seq<char>>
    decreases ancs.len(),
{
    if ancs.len() == 0 {
        Seq::empty()
    } else {
        flat_candidates(ancs.drop_last()) + bash_candidates_of(ancs.last())
    }
}

fn is_separator_exec(c: char) -> (r: bool)
    ensures
        r == is_separator(c),
{
    c == '\\' || c == '/'
}

fn parent_of(p: &Vec<char>) -> (r: Option<Vec<char>>)
    ensures
        match windows_parent(p@) {
            Some(q) => r matches Some(v) && v@ == q,
            None => r is None,
        },
{
    if (p.len() == 1 && is_separator_exec(p[0])) || (p.len() == 3 && p[1] == ':' && is_separator_exec(p[2])) {
        return None;
    }
    let mut i: usize = p.len();
    while i > 0
        invariant
            i <= p@.len(),
            !is_root(p@),
            forall|j: int| i <= j < p@.len() ==> !is_separator(#[trigger] p@[j]),
        decreases i,
    {
        if is_separator_exec(p[i - 1]) {
            let k = i - 1;
            proof {
                let c = choose|c: int| 0 <= c < p@.len() && is_separator(#[trigger] p@[c]) && forall|j: int| c < j < p@.len() ==> !is_separator(#[trigger] p@[j]);
                if c < k {
                    assert(!is_separator(p@[k as int]));
                }
                if c > k {
                    assert(!is_separator(p@[c]));
                }
                assert(last_separator(p@) == Some(k as int));
            }
            let end = if k == 0 || (k == 2 && p[1] == ':') { k + 1 } else { k };
            let mut q: Vec<char> = Vec::new();
            let mut t: usize = 0;
            while t < end
                invariant
                    t <= end <= p@.len(),
                    q@ == p@.take(t as int),
                    !is_root(p@),
                    last_separator(p@) == Some(k as int),
                    end == (if k == 0 || (k == 2 && p@[1] == ':') { k + 1 } else { k as int }),
                decreases end - t,
            {
                q.push(p[t]);
                assert(q@ =~= p@.take(t + 1));
                t += 1;
            }
            return Some(q);
        }
        i -= 1;
    }
    None
}

fn push_candidates(out: &mut Vec<String>, current: &Vec<char>)
    ensures
        final(out).deep_view() == old(out).deep_view() + bash_candidates_of(current@),
{
    let s = string_from(current, 0, current.len());
    assert(current@.subrange(0, current@.len() as int) =~= current@);
    let ends_sep = current.len() > 0 && is_separator_exec(current[current.len() - 1]);
    proof {
        reveal_strlit("\\");
    }
    assert("\\"@ =~= seq!['\\']);
    let bin = if ends_sep { cat(s.as_str(), "bin\\bash.exe") } else { cat3(s.as_str(), "\\", "bin\\bash.exe") };
    let usr = if ends_sep { cat(s.as_str(), "usr\\bin\\bash.exe") } else { cat3(s.as_str(), "\\", "usr\\bin\\bash.exe") };
    let ghost before = out.deep_view();
    out.push(bin);
    out.push(usr);
    assert(out.deep_view() =~= before + bash_candidates_of(current@));
}

proof fn lemma_ancestors_step(p: Seq<char>, n: nat)
    requires
        n > 0,
    ensures
        ancestors(p, n) == seq![p] + match windows_parent(p) {
            Some(q) => if q.len() < p.len() { ancestors(q, (n - 1) as nat) } else { Seq::empty() },
            None => Seq::empty(),
        },
{
}

proof fn lemma_flat_push(done: Seq<Seq<char>>, a: Seq<char>)
    ensures
        flat_candidates(done.push(a)) == flat_candidates(done) + bash_candidates_of(a),
{
    assert(done.push(a).drop_last() =~= done);
}

/// Where Git Bash may be installed, from Git's `--exec-path`: under `bin`
/// and `usr\bin` of the path and its nearest ancestors, eight at most.
pub fn git_bash_candidates(exec_path: &str) -> (r: Vec<String>)
    ensures
        r.deep_view() == flat_candidates(ancestors(exec_path@, 8)),
{
    let mut out: Vec<String> = Vec::new();
    let mut current: Vec<char> = chars_of(exec_path);
    let mut n: usize = 8;
    let ghost start = exec_path@;
    let ghost mut done: Seq<Seq<char>> = Seq::empty();
    let mut more = true;
    while more && n > 0
        invariant
            n <= 8,
            more ==> ancestors(start, 8) == done + ancestors(current@, n as nat),
            !more ==> ancestors(start, 8) == done,
            out.deep_view() == flat_candidates(done),
        decreases n,
    {
        push_candidates(&mut out, &current);
        let ghost old_done = done;
        proof {
            lemma_flat_push(done, current@);
            lemma_ancestors_step(current@, n as nat);
            done = done.push(current@);
        }
        match parent_of(&current) {
            Some(q) => {
                if q.len() < current.len() {
                    assert(old_done + (seq![current@] + ancestors(q@, (n - 1) as nat)) =~= done + ancestors(q@, (n - 1) as nat));
                    current = q;
                } else {
                    assert(old_done + (seq![current@] + Seq::<Seq<char>>::empty()) =~= done);
                    more = false;
                }
            },
            None => {
                assert(old_done + (seq![current@] + Seq::<Seq<char>>::empty()) =~= done);
                more = false;
            },
        }
        n -= 1;
    }
    proof {
        if more {
            assert(ancestors(current@, 0) =~= Seq::<Seq<char>>::empty());
            assert(done + Seq::<Seq<char>>::empty() =~= done);
        }
    }
    out
}

} // verus!
