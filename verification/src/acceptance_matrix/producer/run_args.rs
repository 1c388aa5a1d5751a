//! Arguments of an acceptance run.
use crate::text::opt_view;
use crate::strset::{set_insert, sorted};
use crate::text::{cat, eq_str, to_string};
use vstd::prelude::*;

verus! {

/// Parsed `acceptance-run` arguments.
#[derive(Debug)]
pub struct RunArgs {
    pub tier: String,
    pub plan: bool,
    pub receipt_dir: Option<String>,
    /// Producer filters, as an ordered set.
    pub producers: Vec<String>,
    /// Evidence filters, as an ordered set.
    pub evidence_ids: Vec<String>,
}

/// What a run of options sets: the last tier, whether `--plan` occurred, the
/// last receipt directory, and the producer and evidence filters.
pub type RunScan = (Option<Seq<char>>, bool, Option<Seq<char>>, Set<Seq<char>>, Set<Seq<char>>);

pub open spec fn later(a: Option<Seq<char>>, b: Option<Seq<char>>) -> Option<Seq<char>> {
    match b {
        Some(x) => Some(x),
        None => a,
    }
}

/// The effect of `p` followed by `r`.
pub open spec fn join(p: RunScan, r: Option<RunScan>) -> Option<RunScan> {
    match r {
        None => None,
        Some(r) => Some((later(p.0, r.0), p.1 || r.1, later(p.2, r.2), p.3 + r.3, p.4 + r.4)),
    }
}

pub open spec fn empty_scan() -> RunScan {
    (None, false, None, Set::empty(), Set::empty())
}

/// The options that take a value.
pub open spec fn valued_option(o: Seq<char>) -> bool {
    o == "--tier"@ || o == "--receipt-dir"@ || o == "--producer"@ || o == "--evidence-id"@
}

/// The effect of one option with its value.
pub open spec fn valued_effect(o: Seq<char>, v: Seq<char>) -> RunScan {
    if o == "--tier"@ {
        (Some(v), false, None, Set::empty(), Set::empty())
    } else if o == "--receipt-dir"@ {
        (None, false, Some(v), Set::empty(), Set::empty())
    } else if o == "--producer"@ {
        (None, false, None, set![v], Set::empty())
    } else {
        (None, false, None, Set::empty(), set![v])
    }
}

/// Scans the options left to right; `None` for an unknown option or a
/// missing value.
pub open spec fn run_scan(a: Seq<Seq<char>>) -> Option<RunScan>
    decreases a.len(),
{
    if a.len() == 0 {
        Some(empty_scan())
    } else if a[0] == "--plan"@ {
        join((None, true, None, Set::empty(), Set::empty()), run_scan(a.skip(1)))
    } else if valued_option(a[0]) {
        if a.len() < 2 {
            None
        } else {
            join(valued_effect(a[0], a[1]), run_scan(a.skip(2)))
        }
    } else {
        None
    }
}

pub open spec fn tier_ok(t: Seq<char>) -> bool {
    t == "ci"@ || t == "full"@ || t == "target-host"@ || t == "tag-ready"@
}

/// Arguments that `RunArgs::parse` accepts.
pub open spec fn run_args_accepted(a: Seq<Seq<char>>) -> bool {
    match run_scan(a) {
        Some(s) => s.0 matches Some(t) && tier_ok(t) && !(s.1 && s.2 is Some),
        None => false,
    }
}

proof fn lemma_join_assoc(p: RunScan, q: RunScan, r: Option<RunScan>)
    ensures
        join(p, join(q, r)) == join(join(p, Some(q))->0, r),
{
    match r {
        None => {},
        Some(x) => {
            assert((p.3 + q.3) + x.3 =~= p.3 + (q.3 + x.3));
            assert((p.4 + q.4) + x.4 =~= p.4 + (q.4 + x.4));
        },
    }
}

proof fn lemma_join_empty(p: RunScan)
    ensures
        join(p, Some(empty_scan())) == Some(p),
{
    assert(p.3 + Set::empty() =~= p.3);
    assert(p.4 + Set::empty() =~= p.4);
}

impl RunArgs {
    /// Parses `--tier <tier>`, `--plan`, `--receipt-dir <dir>` and repeated
    /// `--producer <id>` / `--evidence-id <id>` filters.
    pub fn parse(args: &Vec<String>) -> (r: Result<RunArgs, String>)
        ensures
            r is Ok <==> run_args_accepted(args.deep_view()),
            r matches Ok(p) ==> {
                let s = run_scan(args.deep_view())->0;
                &&& Some(p.tier@) == s.0
                &&& p.plan == s.1
                &&& match p.receipt_dir {
                    Some(d) => s.2 == Some(d@),
                    None => s.2 is None,
                }
                &&& sorted(p.producers.deep_view()) && p.producers.deep_view().to_set() == s.3
                &&& sorted(p.evidence_ids.deep_view()) && p.evidence_ids.deep_view().to_set() == s.4
            },
    {
        let ghost a = args.deep_view();
        let mut tier: Option<String> = None;
        let mut plan = false;
        let mut receipt_dir: Option<String> = None;
        let mut producers: Vec<String> = Vec::new();
        let mut evidence_ids: Vec<String> = Vec::new();
        let mut index: usize = 0;
        assert(a.skip(0) =~= a);
        proof {
            lemma_join_empty(empty_scan());
        }
        while index < args.len()
            invariant
                a == args.deep_view(),
                index <= args.len(),
                sorted(producers.deep_view()),
                sorted(evidence_ids.deep_view()),
                run_scan(a) == join(
                    (
                        opt_view(tier),
                        plan,
                        opt_view(receipt_dir),
                        producers.deep_view().to_set(),
                        evidence_ids.deep_view().to_set(),
                    ),
                    run_scan(a.skip(index as int)),
                ),
            decreases args.len() - index,
        {
            let ghost cur: RunScan = (
                opt_view(tier),
                plan,
                opt_view(receipt_dir),
                producers.deep_view().to_set(),
                evidence_ids.deep_view().to_set(),
            );
            let ghost rest = a.skip(index as int);
            proof {
                reveal_strlit("--plan");
                reveal_strlit("--tier");
                reveal_strlit("--receipt-dir");
                reveal_strlit("--producer");
                reveal_strlit("--evidence-id");
            }
            assert(rest[0] == a[index as int]);
            let option = args[index].as_str();
            if eq_str(option, "--plan") {
                assert(rest.skip(1) =~= a.skip(index + 1));
                proof {
                    lemma_join_assoc(cur, (None, true, None, Set::empty(), Set::empty()), run_scan(rest.skip(1)));
                }
                plan = true;
                assert(cur.3 + Set::empty() =~= cur.3);
                assert(cur.4 + Set::empty() =~= cur.4);
                index += 1;
            } else if eq_str(option, "--tier") || eq_str(option, "--receipt-dir") || eq_str(option, "--producer")
                || eq_str(option, "--evidence-id") {
                if index + 1 >= args.len() {
                    assert(run_scan(rest) is None);
                    return Err(cat("acceptance-run: missing value for ", option));
                }
                let value = args[index + 1].as_str();
                assert(rest[1] == value@);
                assert(rest.skip(2) =~= a.skip(index + 2));
                let ghost eff = valued_effect(option@, value@);
                proof {
                    lemma_join_assoc(cur, eff, run_scan(rest.skip(2)));
                }
                if eq_str(option, "--tier") {
                    tier = Some(to_string(value));
                } else if eq_str(option, "--receipt-dir") {
                    receipt_dir = Some(to_string(value));
                } else if eq_str(option, "--producer") {
                    set_insert(&mut producers, to_string(value));
                } else {
                    set_insert(&mut evidence_ids, to_string(value));
                }
                assert(producers.deep_view().to_set() =~= cur.3 + eff.3);
                assert(evidence_ids.deep_view().to_set() =~= cur.4 + eff.4);
                index += 2;
            } else {
                assert(run_scan(rest) is None);
                return Err(cat("acceptance-run: unknown option ", option));
            }
        }
        assert(a.skip(index as int) =~= Seq::<Seq<char>>::empty());
        proof {
            lemma_join_empty((
                opt_view(tier),
                plan,
                opt_view(receipt_dir),
                producers.deep_view().to_set(),
                evidence_ids.deep_view().to_set(),
            ));
        }
        let tier = match tier {
            Some(t) => t,
            None => {
                return Err(to_string("acceptance-run: --tier is required"));
            },
        };
        let t = tier.as_str();
        if !(eq_str(t, "ci") || eq_str(t, "full") || eq_str(t, "target-host") || eq_str(t, "tag-ready")) {
            return Err(cat("acceptance-run: unsupported tier ", t));
        }
        if plan && receipt_dir.is_some() {
            return Err(to_string("acceptance-run: --plan may not be combined with --receipt-dir"));
        }
        Ok(RunArgs { tier, plan, receipt_dir, producers, evidence_ids })
    }
}

} // verus!
