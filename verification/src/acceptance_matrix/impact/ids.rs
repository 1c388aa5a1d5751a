//! Identifier rules shared by the impact registry checks.
use crate::strset::{set_insert, sorted};
use crate::text::{cat3, chars_of};
use vstd::prelude::*;

verus! {

pub open spec fn id_char(c: char) -> bool {
    ('a' <= c <= 'z') || ('0' <= c <= '9') || c == '.' || c == '-'
}

/// A canonical identifier: nonempty lowercase ASCII letters, digits, `.`
/// and `-`.
pub open spec fn valid_id_spec(v: Seq<char>) -> bool {
    v.len() > 0 && forall|i: int| 0 <= i < v.len() ==> id_char(#[trigger] v[i])
}

pub fn valid_id(value: &str) -> (r: bool)
    ensures
        r == valid_id_spec(value@),
{
    let cs = chars_of(value);
    if cs.len() == 0 {
        return false;
    }
    let mut i: usize = 0;
    while i < cs.len()
        invariant
            i <= cs.len(),
            cs@ == value@,
            forall|k: int| 0 <= k < i ==> id_char(#[trigger] cs@[k]),
        decreases cs.len() - i,
    {
        let c = cs[i];
        if !(('a' <= c && c <= 'z') || ('0' <= c && c <= '9') || c == '.' || c == '-') {
            assert(!id_char(cs@[i as int]));
            return false;
        }
        i += 1;
    }
    true
}

/// Distinct canonical identifiers.
pub open spec fn unique_ids_spec(values: Seq<Seq<char>>) -> bool {
    values.no_duplicates() && forall|i: int| 0 <= i < values.len() ==> valid_id_spec(#[trigger] values[i])
}

/// The identifiers as an ordered set, when they are distinct and canonical.
pub fn unique_ids(values: &Vec<String>, label: &str) -> (r: Result<Vec<String>, String>)
    ensures
        r is Ok <==> unique_ids_spec(values.deep_view()),
        r matches Ok(s) ==> sorted(s.deep_view()) && s.deep_view().to_set() == values.deep_view().to_set(),
{
    let ghost vs = values.deep_view();
    let mut set: Vec<String> = Vec::new();
    let mut i: usize = 0;
    let mut ok = true;
    while i < values.len()
        invariant
            vs == values.deep_view(),
            i <= values.len(),
            sorted(set.deep_view()),
            set.deep_view().to_set() == vs.take(i as int).to_set(),
            ok == (vs.take(i as int).no_duplicates() && forall|k: int|
                0 <= k < i ==> valid_id_spec(#[trigger] vs[k])),
        decreases values.len() - i,
    {
        let x = values[i].as_str();
        assert(vs[i as int] == x@);
        assert(vs.take(i + 1) =~= vs.take(i as int).push(x@));
        proof {
            vs.take(i as int).lemma_push_to_set_commute(x@);
        }
        let fresh = set_insert(&mut set, values[i].clone());
        let good = valid_id(x);
        proof {
            assert(fresh == !vs.take(i as int).to_set().contains(x@));
            if !fresh {
                let q = choose|q: int| 0 <= q < i && vs.take(i as int)[q] == x@;
                assert(vs.take(i + 1)[q] == vs.take(i + 1)[i as int]);
            }
            if vs.take(i as int).no_duplicates() && fresh {
                assert forall|a: int, b: int|
                    #![trigger vs.take(i + 1)[a], vs.take(i + 1)[b]]
                    0 <= a < b < i + 1 implies vs.take(i + 1)[a] != vs.take(i + 1)[b] by {
                    if b == i {
                        assert(vs.take(i as int).to_set().contains(vs.take(i as int)[a]));
                    } else {
                        assert(vs.take(i as int)[a] == vs.take(i + 1)[a]);
                        assert(vs.take(i as int)[b] == vs.take(i + 1)[b]);
                    }
                }
            }
            if !vs.take(i as int).no_duplicates() {
                let (a, b) = choose|a: int, b: int|
                    0 <= a < vs.take(i as int).len() && 0 <= b < vs.take(i as int).len() && a != b
                        && vs.take(i as int)[a] == vs.take(i as int)[b];
                assert(vs.take(i + 1)[a] == vs.take(i + 1)[b]);
            }
        }
        ok = ok && fresh && good;
        i += 1;
    }
    assert(vs.take(values.len() as int) =~= vs);
    if !ok {
        return Err(cat3("acceptance-impact: ", label, " identifiers must be unique and canonical"));
    }
    Ok(set)
}

} // verus!
