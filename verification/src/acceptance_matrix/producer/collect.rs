//! Arguments of receipt aggregation across artifact roots.
use crate::text::{cat, eq_str, starts_with, starts_with_str, to_string};
use vstd::prelude::*;

verus! {

/// Where the aggregated receipts go, and the artifact roots they come from.
#[derive(Debug)]
pub struct CollectArgs {
    pub output: String,
    pub inputs: Vec<String>,
}

/// The position of the first `--output`.
pub open spec fn output_index(args: Seq<Seq<char>>) -> Option<int> {
    if exists|i: int| 0 <= i < args.len() && args[i] == "--output"@ {
        Some(choose|i: int| 0 <= i < args.len() && args[i] == "--output"@ && forall|j: int| 0 <= j < i ==> args[j] != "--output"@)
    } else {
        None
    }
}

pub open spec fn no_options(v: Seq<Seq<char>>) -> bool {
    forall|i: int| 0 <= i < v.len() ==> !starts_with(#[trigger] v[i], "-"@)
}

/// `--output <root>` once, and one or more artifact roots around it, none
/// of which looks like an option.
pub open spec fn collect_args_spec(args: Seq<Seq<char>>) -> Option<(Seq<char>, Seq<Seq<char>>)> {
    match output_index(args) {
        None => None,
        Some(o) => if o + 1 >= args.len() {
            None
        } else {
            let inputs = args.take(o) + args.skip(o + 2);
            if !no_options(inputs) || inputs.len() == 0 {
                None
            } else {
                Some((args[o + 1], inputs))
            }
        },
    }
}

impl CollectArgs {
    pub fn parse(args: &Vec<String>) -> (r: Result<CollectArgs, String>)
        ensures
            r is Ok <==> collect_args_spec(args.deep_view()) is Some,
            r matches Ok(c) ==> collect_args_spec(args.deep_view()) == Some((c.output@, c.inputs.deep_view())),
    {
        let ghost av = args.deep_view();
        let mut o: usize = 0;
        while o < args.len() && !eq_str(args[o].as_str(), "--output")
            invariant
                o <= av.len(),
                av == args.deep_view(),
                forall|j: int| 0 <= j < o ==> av[j] != "--output"@,
            decreases av.len() - o,
        {
            o += 1;
        }
        if o == args.len() {
            return Err(to_string("acceptance-collect: --output <receipt-root> is required"));
        }
        proof {
            assert(av[o as int] == "--output"@);
            let c = choose|i: int| 0 <= i < av.len() && av[i] == "--output"@ && forall|j: int| 0 <= j < i ==> av[j] != "--output"@;
            if c < o {
                assert(av[c] != "--output"@);
            }
            if c > o {
                assert(av[o as int] != "--output"@);
            }
            assert(output_index(av) == Some(o as int));
        }
        if o + 1 >= args.len() {
            return Err(to_string("acceptance-collect: --output requires a value"));
        }
        let output = to_string(args[o + 1].as_str());
        let ghost want = av.take(o as int) + av.skip(o + 2);
        let mut inputs: Vec<String> = Vec::new();
        let mut index: usize = 0;
        while index < args.len()
            invariant
                av == args.deep_view(),
                output_index(av) == Some(o as int),
                o + 1 < av.len(),
                want == av.take(o as int) + av.skip(o + 2),
                index <= av.len(),
                index != o + 1,
                index <= o ==> inputs.deep_view() == av.take(index as int),
                index > o ==> inputs.deep_view() == av.take(o as int) + av.subrange(o + 2, index as int) && index >= o + 2,
                no_options(inputs.deep_view()),
            decreases av.len() - index,
        {
            if index == o {
                assert(av.take(o as int) + av.subrange(o + 2, o + 2) =~= av.take(o as int));
                index += 2;
            } else if starts_with_str(args[index].as_str(), "-") {
                proof {
                    let k = if index < o { index as int } else { index - 2 };
                    assert(want[k] == av[index as int]);
                    assert(starts_with(want[k], "-"@));
                    assert(!no_options(want));
                }
                return Err(cat("acceptance-collect: unknown option ", args[index].as_str()));
            } else {
                let ghost before = inputs.deep_view();
                let item = to_string(args[index].as_str());
                inputs.push(item);
                assert(inputs.deep_view() =~= before.push(item@));
                if index < o {
                    assert(inputs.deep_view() =~= av.take(index + 1));
                } else {
                    assert(inputs.deep_view() =~= av.take(o as int) + av.subrange(o + 2, index + 1));
                }
                index += 1;
            }
        }
        assert(av.subrange(o + 2, av.len() as int) =~= av.skip(o + 2));
        if inputs.len() == 0 {
            return Err(to_string("acceptance-collect: at least one artifact root is required"));
        }
        Ok(CollectArgs { output, inputs })
    }
}

} // verus!
