//! Validated change-set inputs for deterministic impact planning.
use crate::paths::{canonical_relative_path, is_canonical_relative_path};
use crate::text::{cat, cat3, chars_of, eq_str, quoted, to_string};
use crate::text::opt_view;
use vstd::prelude::*;

verus! {

/// Planning arguments: a profile and either a revision range or an
/// explicit change set.
#[derive(Debug)]
pub struct PlanArgs {
    pub profile: String,
    pub base: Option<String>,
    pub head: Option<String>,
    pub changed_files: Vec<String>,
}


pub open spec fn revision_char(c: char) -> bool {
    ||| ('a' <= c <= 'z')
    ||| ('A' <= c <= 'Z')
    ||| ('0' <= c <= '9')
    ||| c == '.'
    ||| c == '_'
    ||| c == '-'
    ||| c == '/'
    ||| c == '~'
    ||| c == '^'
}

/// A git revision that cannot be read as an option: nonempty, not starting
/// with `-`, made of ASCII letters, digits and `._-/~^`.
pub open spec fn valid_revision_spec(v: Seq<char>) -> bool {
    v.len() > 0 && v[0] != '-' && forall|i: int| 0 <= i < v.len() ==> revision_char(#[trigger] v[i])
}

/// Checks a git revision argument.
pub fn validate_revision(value: &str) -> (r: Result<String, String>)
    ensures
        r is Ok <==> valid_revision_spec(value@),
        r matches Ok(v) ==> v@ == value@,
{
    let cs = chars_of(value);
    if cs.len() == 0 || cs[0] == '-' {
        return Err(cat("acceptance-impact: invalid git revision ", quoted(value).as_str()));
    }
    let mut i: usize = 0;
    while i < cs.len()
        invariant
            i <= cs.len(),
            cs@ == value@,
            forall|k: int| 0 <= k < i ==> revision_char(#[trigger] cs@[k]),
        decreases cs.len() - i,
    {
        let c = cs[i];
        if !(('a' <= c && c <= 'z') || ('A' <= c && c <= 'Z') || ('0' <= c && c <= '9') || c == '.'
            || c == '_' || c == '-' || c == '/' || c == '~' || c == '^') {
            assert(!revision_char(cs@[i as int]));
            return Err(cat("acceptance-impact: invalid git revision ", quoted(value).as_str()));
        }
        i += 1;
    }
    Ok(to_string(value))
}

/// Checks one changed path: canonical, relative, forward slashes only.
pub fn validate_changed_path(value: &str) -> (r: Result<String, String>)
    ensures
        r is Ok <==> canonical_relative_path(value@),
        r matches Ok(v) ==> v@ == value@,
{
    if !is_canonical_relative_path(value) {
        return Err(cat("acceptance-impact: invalid changed path ", quoted(value).as_str()));
    }
    Ok(to_string(value))
}

pub open spec fn single_option(o: Seq<char>) -> bool {
    o == "--profile"@ || o == "--base"@ || o == "--head"@
}

/// An option with an acceptable value.
pub open spec fn plan_pair_ok(o: Seq<char>, v: Seq<char>) -> bool {
    ||| o == "--profile"@
    ||| ((o == "--base"@ || o == "--head"@) && valid_revision_spec(v))
    ||| (o == "--changed-file"@ && canonical_relative_path(v))
}

/// The arguments are option/value pairs, each acceptable, with `--profile`,
/// `--base` and `--head` each given at most once.
pub open spec fn plan_pairs_ok(a: Seq<Seq<char>>) -> bool {
    &&& a.len() % 2 == 0
    &&& forall|k: int| 0 <= k < a.len() / 2 ==> plan_pair_ok(#[trigger] a[2 * k], a[2 * k + 1])
    &&& forall|k1: int, k2: int|
        0 <= k1 < k2 < a.len() / 2 && single_option(#[trigger] a[2 * k1]) ==> a[2 * k1] != #[trigger] a[2 * k2]
}

/// The value given to option `name`, if any.
pub open spec fn option_value(a: Seq<Seq<char>>, name: Seq<char>) -> Option<Seq<char>> {
    if exists|k: int| 0 <= k < a.len() / 2 && #[trigger] a[2 * k] == name {
        let k = choose|k: int| 0 <= k < a.len() / 2 && #[trigger] a[2 * k] == name;
        Some(a[2 * k + 1])
    } else {
        None
    }
}

/// The values of the `--changed-file` options, in order.
pub open spec fn changed_values(a: Seq<Seq<char>>) -> Seq<Seq<char>>
    decreases a.len(),
{
    if a.len() < 2 {
        Seq::empty()
    } else if a[0] == "--changed-file"@ {
        seq![a[1]] + changed_values(a.skip(2))
    } else {
        changed_values(a.skip(2))
    }
}

/// Arguments that `PlanArgs::parse` accepts.
pub open spec fn plan_args_accepted(a: Seq<Seq<char>>) -> bool {
    &&& plan_pairs_ok(a)
    &&& option_value(a, "--profile"@) is Some
    &&& (option_value(a, "--base"@) is Some) == (option_value(a, "--head"@) is Some)
    &&& !(option_value(a, "--base"@) is Some && changed_values(a).len() > 0)
}

proof fn lemma_changed_values_step(a: Seq<Seq<char>>, idx: int)
    requires
        0 <= idx,
        idx + 2 <= a.len(),
    ensures
        changed_values(a.skip(idx)) == (if a[idx] == "--changed-file"@ {
            seq![a[idx + 1]]
        } else {
            Seq::empty()
        }) + changed_values(a.skip(idx + 2)),
{
    let s = a.skip(idx);
    assert(s.skip(2) =~= a.skip(idx + 2));
    assert(s[0] == a[idx]);
    assert(s[1] == a[idx + 1]);
    if a[idx] != "--changed-file"@ {
        assert(Seq::<Seq<char>>::empty() + changed_values(a.skip(idx + 2)) =~= changed_values(
            a.skip(idx + 2),
        ));
    }
}

proof fn lemma_option_value_unique(a: Seq<Seq<char>>, name: Seq<char>, k: int)
    requires
        plan_pairs_ok(a),
        single_option(name),
        0 <= k < a.len() / 2,
        a[2 * k] == name,
    ensures
        option_value(a, name) == Some(a[2 * k + 1]),
{
    let c = choose|c: int| 0 <= c < a.len() / 2 && #[trigger] a[2 * c] == name;
    if c < k {
        assert(a[2 * c] != a[2 * k]);
    } else if c > k {
        assert(a[2 * k] != a[2 * c]);
    }
}

impl PlanArgs {
    /// Parses `--profile <id>`, `--base <rev>`, `--head <rev>` and repeated
    /// `--changed-file <path>`.
    pub fn parse(args: &Vec<String>) -> (r: Result<PlanArgs, String>)
        ensures
            r is Ok <==> plan_args_accepted(args.deep_view()),
            r matches Ok(p) ==> {
                &&& Some(p.profile@) == option_value(args.deep_view(), "--profile"@)
                &&& opt_view(p.base) == option_value(args.deep_view(), "--base"@)
                &&& opt_view(p.head) == option_value(args.deep_view(), "--head"@)
                &&& p.changed_files.deep_view() == changed_values(args.deep_view())
            },
    {
        let ghost a = args.deep_view();
        let mut profile: Option<String> = None;
        let mut base: Option<String> = None;
        let mut head: Option<String> = None;
        let mut changed_files: Vec<String> = Vec::new();
        let mut index: usize = 0;
        proof {
            reveal_strlit("--profile");
            reveal_strlit("--base");
            reveal_strlit("--head");
            reveal_strlit("--changed-file");
        }
        assert(a.skip(0) =~= a);
        while index < args.len()
            invariant
                a == args.deep_view(),
                index % 2 == 0,
                index <= args.len(),
                forall|k: int| 0 <= k < index / 2 ==> plan_pair_ok(#[trigger] a[2 * k], a[2 * k + 1]),
                forall|k1: int, k2: int|
                    0 <= k1 < k2 < index / 2 && single_option(#[trigger] a[2 * k1]) ==> a[2 * k1]
                        != #[trigger] a[2 * k2],
                profile is Some ==> exists|k: int|
                    0 <= k < index / 2 && #[trigger] a[2 * k] == "--profile"@ && a[2 * k + 1]
                        == profile->0@,
                profile is None ==> forall|k: int|
                    0 <= k < index / 2 ==> #[trigger] a[2 * k] != "--profile"@,
                base is Some ==> exists|k: int|
                    0 <= k < index / 2 && #[trigger] a[2 * k] == "--base"@ && a[2 * k + 1]
                        == base->0@,
                base is None ==> forall|k: int| 0 <= k < index / 2 ==> #[trigger] a[2 * k] != "--base"@,
                head is Some ==> exists|k: int|
                    0 <= k < index / 2 && #[trigger] a[2 * k] == "--head"@ && a[2 * k + 1]
                        == head->0@,
                head is None ==> forall|k: int| 0 <= k < index / 2 ==> #[trigger] a[2 * k] != "--head"@,
                changed_values(a) == changed_files.deep_view() + changed_values(a.skip(index as int)),
            decreases args.len() - index,
        {
            proof {
                reveal_strlit("--profile");
                reveal_strlit("--base");
                reveal_strlit("--head");
                reveal_strlit("--changed-file");
            }
            assert("--profile"@.len() == 9 && "--base"@.len() == 6 && "--head"@.len() == 6);
            assert("--changed-file"@.len() == 14);
            assert("--base"@[2] == 'b' && "--head"@[2] == 'h');
            let option = args[index].as_str();
            let ghost i = index / 2;
            assert(a[2 * i] == option@);
            if index + 1 >= args.len() {
                assert(!plan_pairs_ok(a));
                return Err(cat3("acceptance-impact: ", option, " requires a value"));
            }
            let value = args[index + 1].as_str();
            assert(a[2 * i + 1] == value@);
            proof {
                lemma_changed_values_step(a, index as int);
            }
            let ghost old_changed = changed_files.deep_view();
            if eq_str(option, "--profile") && profile.is_none() {
                profile = Some(to_string(value));
            } else if eq_str(option, "--base") && base.is_none() {
                match validate_revision(value) {
                    Ok(v) => {
                        base = Some(v);
                    },
                    Err(e) => {
                        assert(!plan_pair_ok(a[2 * i], a[2 * i + 1]));
                        return Err(e);
                    },
                }
            } else if eq_str(option, "--head") && head.is_none() {
                match validate_revision(value) {
                    Ok(v) => {
                        head = Some(v);
                    },
                    Err(e) => {
                        assert(!plan_pair_ok(a[2 * i], a[2 * i + 1]));
                        return Err(e);
                    },
                }
            } else if eq_str(option, "--changed-file") {
                match validate_changed_path(value) {
                    Ok(v) => {
                        changed_files.push(v);
                        assert(changed_files.deep_view() =~= old_changed.push(value@));
                    },
                    Err(e) => {
                        assert(!plan_pair_ok(a[2 * i], a[2 * i + 1]));
                        return Err(e);
                    },
                }
            } else {
                proof {
                    if plan_pair_ok(a[2 * i], a[2 * i + 1]) {
                        let k = choose|k: int|
                            0 <= k < i && #[trigger] a[2 * k] == option@;
                        assert(single_option(a[2 * k]));
                        assert(a[2 * k] == a[2 * i]);
                    }
                }
                return Err(cat("acceptance-impact: unknown or repeated option ", option));
            }
            index += 2;
            assert(changed_values(a) == changed_files.deep_view() + changed_values(
                a.skip(index as int),
            ));
        }
        assert(a.skip(index as int) =~= Seq::<Seq<char>>::empty());
        assert(changed_files.deep_view() + Seq::<Seq<char>>::empty() =~= changed_files.deep_view());
        assert(plan_pairs_ok(a));
        proof {
            if profile is Some {
                let k = choose|k: int|
                    0 <= k < index / 2 && #[trigger] a[2 * k] == "--profile"@ && a[2 * k + 1]
                        == profile->0@;
                lemma_option_value_unique(a, "--profile"@, k);
            }
            if base is Some {
                let k = choose|k: int|
                    0 <= k < index / 2 && #[trigger] a[2 * k] == "--base"@ && a[2 * k + 1]
                        == base->0@;
                lemma_option_value_unique(a, "--base"@, k);
            }
            if head is Some {
                let k = choose|k: int|
                    0 <= k < index / 2 && #[trigger] a[2 * k] == "--head"@ && a[2 * k + 1]
                        == head->0@;
                lemma_option_value_unique(a, "--head"@, k);
            }
        }
        if base.is_some() != head.is_some() {
            return Err(to_string("acceptance-impact: --base and --head must be supplied together"));
        }
        if base.is_some() && changed_files.len() > 0 {
            return Err(to_string("acceptance-impact: revisions and --changed-file may not be mixed"));
        }
        match profile {
            Some(profile) => Ok(PlanArgs { profile, base, head, changed_files }),
            None => Err(to_string("acceptance-impact: --profile is required")),
        }
    }
}

} // verus!
