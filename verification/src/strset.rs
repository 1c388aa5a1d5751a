//! Ordered sets of strings, kept as strictly increasing vectors (the order
//! of `str`'s `Ord`: code point by code point, a prefix first).
use crate::text::{chars_eq, chars_of, eq_str, to_string};
use vstd::prelude::*;

verus! {

pub open spec fn lex_lt(a: Seq<char>, b: Seq<char>) -> bool
    decreases a.len(),
{
    if a.len() == 0 {
        b.len() > 0
    } else if b.len() == 0 {
        false
    } else if a[0] == b[0] {
        lex_lt(a.drop_first(), b.drop_first())
    } else {
        a[0] < b[0]
    }
}

/// Strictly increasing: the iteration order of an ordered set.
pub open spec fn sorted(s: Seq<Seq<char>>) -> bool {
    forall|i: int, j: int| 0 <= i < j < s.len() ==> lex_lt(#[trigger] s[i], #[trigger] s[j])
}

pub proof fn lemma_lex_irreflexive(a: Seq<char>)
    ensures
        !lex_lt(a, a),
    decreases a.len(),
{
    if a.len() > 0 {
        lemma_lex_irreflexive(a.drop_first());
    }
}

/// An ordered set holds each string once.
pub proof fn lemma_sorted_no_duplicates(s: Seq<Seq<char>>)
    requires
        sorted(s),
    ensures
        s.no_duplicates(),
{
    assert forall|i: int, j: int| 0 <= i < s.len() && 0 <= j < s.len() && i != j implies s[i] != s[j] by {
        lemma_lex_irreflexive(s[i]);
        if i < j {
            assert(lex_lt(s[i], s[j]));
        } else {
            assert(lex_lt(s[j], s[i]));
        }
    }
}

pub proof fn lemma_lex_asymmetric(a: Seq<char>, b: Seq<char>)
    ensures
        lex_lt(a, b) ==> !lex_lt(b, a),
    decreases a.len(),
{
    if a.len() > 0 && b.len() > 0 && a[0] == b[0] {
        lemma_lex_asymmetric(a.drop_first(), b.drop_first());
    }
}

pub proof fn lemma_lex_transitive(a: Seq<char>, b: Seq<char>, c: Seq<char>)
    ensures
        lex_lt(a, b) && lex_lt(b, c) ==> lex_lt(a, c),
    decreases a.len(),
{
    if a.len() > 0 && b.len() > 0 && c.len() > 0 {
        lemma_lex_transitive(a.drop_first(), b.drop_first(), c.drop_first());
    }
}

pub proof fn lemma_lex_total(a: Seq<char>, b: Seq<char>)
    ensures
        a != b ==> lex_lt(a, b) || lex_lt(b, a),
    decreases a.len(),
{
    if a.len() > 0 && b.len() > 0 {
        lemma_lex_total(a.drop_first(), b.drop_first());
        if a[0] == b[0] && a.drop_first() == b.drop_first() {
            assert(a =~= seq![a[0]] + a.drop_first());
            assert(b =~= seq![b[0]] + b.drop_first());
        }
    } else if a.len() == 0 && b.len() == 0 {
        assert(a =~= b);
    }
}

/// Two sorted sequences with the same elements are equal.
pub proof fn lemma_sorted_unique(a: Seq<Seq<char>>, b: Seq<Seq<char>>)
    requires
        sorted(a),
        sorted(b),
        a.to_set() == b.to_set(),
    ensures
        a == b,
    decreases a.len(),
{
    if a.len() == 0 {
        if b.len() > 0 {
            assert(b.to_set().contains(b[0]));
        }
        assert(a =~= b);
    } else if b.len() == 0 {
        assert(a.to_set().contains(a[0]));
    } else {
        assert(a.to_set().contains(a[0]));
        assert(b.to_set().contains(b[0]));
        let i = choose|i: int| 0 <= i < b.len() && b[i] == a[0];
        let j = choose|j: int| 0 <= j < a.len() && a[j] == b[0];
        if i > 0 {
            lemma_lex_asymmetric(b[0], b[i]);
            if j > 0 {
                lemma_lex_transitive(b[0], a[0], a[j]);
                lemma_lex_irreflexive(b[0]);
            } else {
                lemma_lex_irreflexive(b[0]);
            }
        }
        assert(a[0] == b[0]);
        let a1 = a.drop_first();
        let b1 = b.drop_first();
        assert forall|x: Seq<char>| a1.to_set().contains(x) implies b1.to_set().contains(x) by {
            let k = choose|k: int| 0 <= k < a1.len() && a1[k] == x;
            assert(a.to_set().contains(x));
            assert(a[k + 1] == x);
            assert(lex_lt(a[0], x));
            lemma_lex_irreflexive(x);
            assert(b.to_set().contains(x));
            let m = choose|m: int| 0 <= m < b.len() && b[m] == x;
            assert(m != 0);
            assert(b1[m - 1] == x);
        }
        assert forall|x: Seq<char>| b1.to_set().contains(x) implies a1.to_set().contains(x) by {
            let k = choose|k: int| 0 <= k < b1.len() && b1[k] == x;
            assert(b.to_set().contains(x));
            assert(b[k + 1] == x);
            assert(lex_lt(b[0], x));
            lemma_lex_irreflexive(x);
            assert(a.to_set().contains(x));
            let m = choose|m: int| 0 <= m < a.len() && a[m] == x;
            assert(m != 0);
            assert(a1[m - 1] == x);
        }
        assert(a1.to_set() =~= b1.to_set());
        lemma_sorted_unique(a1, b1);
        assert(a =~= seq![a[0]] + a1);
        assert(b =~= seq![b[0]] + b1);
    }
}

/// `a < b` in the order of `str`.
pub fn lex_lt_exec(a: &Vec<char>, b: &Vec<char>) -> (r: bool)
    ensures
        r == lex_lt(a@, b@),
{
    let mut i: usize = 0;
    assert(a@.skip(0) =~= a@);
    assert(b@.skip(0) =~= b@);
    while i < a.len() && i < b.len() && a[i] == b[i]
        invariant
            i <= a.len(),
            i <= b.len(),
            forall|k: int| 0 <= k < i ==> a@[k] == b@[k],
            lex_lt(a@, b@) == lex_lt(a@.skip(i as int), b@.skip(i as int)),
        decreases a.len() - i,
    {
        assert(a@.skip(i as int).drop_first() =~= a@.skip(i + 1));
        assert(b@.skip(i as int).drop_first() =~= b@.skip(i + 1));
        i += 1;
    }
    if i == a.len() {
        i < b.len()
    } else if i == b.len() {
        false
    } else {
        assert(a@.skip(i as int)[0] == a@[i as int]);
        assert(b@.skip(i as int)[0] == b@[i as int]);
        a[i] < b[i]
    }
}

pub fn str_lt(a: &str, b: &str) -> (r: bool)
    ensures
        r == lex_lt(a@, b@),
{
    lex_lt_exec(&chars_of(a), &chars_of(b))
}

/// Whether `x` is one of the strings of `v`.
pub fn contains_str_in(v: &Vec<String>, x: &str) -> (r: bool)
    ensures
        r == v.deep_view().contains(x@),
{
    let mut i: usize = 0;
    while i < v.len()
        invariant
            i <= v.len(),
            forall|k: int| 0 <= k < i ==> v.deep_view()[k] != x@,
        decreases v.len() - i,
    {
        if eq_str(v[i].as_str(), x) {
            assert(v.deep_view()[i as int] == x@);
            return true;
        }
        i += 1;
    }
    false
}

/// Inserts `x` into the ordered set `v`; true when it was not there.
pub fn set_insert(v: &mut Vec<String>, x: String) -> (r: bool)
    requires
        sorted(old(v).deep_view()),
    ensures
        sorted(final(v).deep_view()),
        final(v).deep_view().to_set() == old(v).deep_view().to_set().insert(x@),
        r == !old(v).deep_view().contains(x@),
        final(v).deep_view().len() == old(v).deep_view().len() + if r { 1int } else { 0int },
{
    let xc = chars_of(x.as_str());
    let ghost s = v.deep_view();
    let mut i: usize = 0;
    while i < v.len()
        invariant
            i <= v.len(),
            v.deep_view() == s,
            sorted(s),
            forall|k: int| 0 <= k < i ==> lex_lt(#[trigger] s[k], xc@),
        ensures
            i <= v.len(),
            v.deep_view() == s,
            forall|k: int| 0 <= k < i ==> lex_lt(#[trigger] s[k], xc@),
            i < v.len() ==> !lex_lt(s[i as int], xc@),
        decreases v.len() - i,
    {
        let cur = chars_of(v[i].as_str());
        assert(s[i as int] == cur@);
        if !lex_lt_exec(&cur, &xc) {
            break;
        }
        i += 1;
    }
    if i < v.len() {
        let cur = chars_of(v[i].as_str());
        assert(s[i as int] == cur@);
        if chars_eq(&cur, &xc) {
            assert(v.deep_view().contains(x@));
            assert(s.to_set().insert(x@) =~= s.to_set());
            return false;
        }
    }
    proof {
        if i < s.len() {
            lemma_lex_total(s[i as int], xc@);
        }
        assert forall|k: int| i <= k < s.len() implies lex_lt(xc@, #[trigger] s[k]) by {
            if k > i {
                lemma_lex_transitive(xc@, s[i as int], s[k]);
            }
        }
        assert forall|k: int| 0 <= k < s.len() implies s[k] != x@ by {
            lemma_lex_irreflexive(xc@);
        }
    }
    let ghost old_v = v.deep_view();
    v.insert(i, x);
    let ghost n = v.deep_view();
    assert(n =~= old_v.insert(i as int, xc@));
    proof {
        assert forall|a: int, b: int| 0 <= a < b < n.len() implies lex_lt(
            #[trigger] n[a],
            #[trigger] n[b],
        ) by {
            if b < i {
                assert(n[a] == s[a] && n[b] == s[b]);
            } else if a < i && b == i {
                assert(n[a] == s[a] && n[b] == xc@);
            } else if a < i && b > i {
                assert(n[a] == s[a] && n[b] == s[b - 1]);
                assert(lex_lt(s[a], xc@));
                assert(lex_lt(xc@, s[b - 1]));
                lemma_lex_transitive(s[a], xc@, s[b - 1]);
            } else if a == i {
                assert(n[a] == xc@ && n[b] == s[b - 1]);
            } else {
                assert(n[a] == s[a - 1]);
                assert(n[b] == s[b - 1]);
            }
        }
        assert(n.to_set() =~= s.to_set().insert(x@)) by {
            assert forall|y: Seq<char>| n.to_set().contains(y) implies s.to_set().insert(
                x@,
            ).contains(y) by {
                let k = choose|k: int| 0 <= k < n.len() && n[k] == y;
                if k < i {
                    assert(s[k] == y);
                } else if k > i {
                    assert(s[k - 1] == y);
                }
            }
            assert forall|y: Seq<char>| s.to_set().insert(x@).contains(y) implies n.to_set().contains(
                y,
            ) by {
                if y == x@ {
                    assert(n[i as int] == y);
                } else {
                    let k = choose|k: int| 0 <= k < s.len() && s[k] == y;
                    if k < i {
                        assert(n[k] == y);
                    } else {
                        assert(n[k + 1] == y);
                    }
                }
            }
        }
    }
    true
}

/// The ordered set of the strings of `v`.
pub fn sorted_set_of(v: &Vec<String>) -> (r: Vec<String>)
    ensures
        sorted(r.deep_view()),
        r.deep_view().to_set() == v.deep_view().to_set(),
{
    let mut r: Vec<String> = Vec::new();
    let mut i: usize = 0;
    assert(r.deep_view().to_set() =~= v.deep_view().take(0).to_set());
    while i < v.len()
        invariant
            i <= v.len(),
            sorted(r.deep_view()),
            r.deep_view().to_set() == v.deep_view().take(i as int).to_set(),
        decreases v.len() - i,
    {
        let item = v[i].clone();
        assert(item@ == v.deep_view()[i as int]);
        set_insert(&mut r, item);
        assert(v.deep_view().take(i + 1) =~= v.deep_view().take(i as int).push(v.deep_view()[i as int]));
        proof { v.deep_view().take(i as int).lemma_push_to_set_commute(v.deep_view()[i as int]); }
        i += 1;
    }
    assert(v.deep_view().take(v.len() as int) =~= v.deep_view());
    r
}

/// Adds every string of `items` to the ordered set `v`.
pub fn set_extend(v: &mut Vec<String>, items: &Vec<String>)
    requires
        sorted(old(v).deep_view()),
    ensures
        sorted(final(v).deep_view()),
        final(v).deep_view().to_set() == old(v).deep_view().to_set() + items.deep_view().to_set(),
{
    let ghost s0 = v.deep_view().to_set();
    let mut i: usize = 0;
    assert(items.deep_view().take(0).to_set() =~= Set::<Seq<char>>::empty());
    assert(s0 + Set::<Seq<char>>::empty() =~= s0);
    while i < items.len()
        invariant
            i <= items.len(),
            sorted(v.deep_view()),
            v.deep_view().to_set() == s0 + items.deep_view().take(i as int).to_set(),
        decreases items.len() - i,
    {
        let item = items[i].clone();
        assert(item@ == items.deep_view()[i as int]);
        set_insert(v, item);
        assert(items.deep_view().take(i + 1) =~= items.deep_view().take(i as int).push(
            items.deep_view()[i as int],
        ));
        proof {
            items.deep_view().take(i as int).lemma_push_to_set_commute(items.deep_view()[i as int]);
        }
        assert(v.deep_view().to_set() =~= s0 + items.deep_view().take(i + 1).to_set());
        i += 1;
    }
    assert(items.deep_view().take(items.len() as int) =~= items.deep_view());
}

/// Whether two string lists are equal, element by element.
pub fn strs_eq(a: &Vec<String>, b: &Vec<String>) -> (r: bool)
    ensures
        r == (a.deep_view() == b.deep_view()),
{
    if a.len() != b.len() {
        assert(a.deep_view().len() != b.deep_view().len());
        return false;
    }
    let mut i: usize = 0;
    while i < a.len()
        invariant
            i <= a.len(),
            a.len() == b.len(),
            forall|k: int| 0 <= k < i ==> a.deep_view()[k] == b.deep_view()[k],
        decreases a.len() - i,
    {
        if !eq_str(a[i].as_str(), b[i].as_str()) {
            assert(a.deep_view()[i as int] != b.deep_view()[i as int]);
            return false;
        }
        i += 1;
    }
    assert(a.deep_view() =~= b.deep_view());
    true
}

/// Whether every string of `a` is one of the strings of `b`.
pub fn is_subset(a: &Vec<String>, b: &Vec<String>) -> (r: bool)
    ensures
        r == a.deep_view().to_set().subset_of(b.deep_view().to_set()),
{
    let mut i: usize = 0;
    while i < a.len()
        invariant
            i <= a.len(),
            forall|k: int| 0 <= k < i ==> b.deep_view().contains(#[trigger] a.deep_view()[k]),
        decreases a.len() - i,
    {
        if !contains_str_in(b, a[i].as_str()) {
            assert(a.deep_view().to_set().contains(a.deep_view()[i as int]));
            return false;
        }
        i += 1;
    }
    assert forall|x: Seq<char>| a.deep_view().to_set().contains(x) implies b.deep_view().to_set().contains(x) by {
        let k = choose|k: int| 0 <= k < a.deep_view().len() && a.deep_view()[k] == x;
    }
    true
}

/// Owned copies of string literals.
pub fn strings_of(v: &Vec<&str>) -> (r: Vec<String>)
    ensures
        r.deep_view() == v@.map_values(|s: &str| s@),
{
    let mut r: Vec<String> = Vec::new();
    let mut i: usize = 0;
    while i < v.len()
        invariant
            i <= v.len(),
            r.deep_view() == v@.take(i as int).map_values(|s: &str| s@),
        decreases v.len() - i,
    {
        let item = to_string(v[i]);
        assert(item@ == v@[i as int]@);
        let ghost before = r.deep_view();
        r.push(item);
        assert(r.deep_view() =~= before.push(item@));
        assert(v@.take(i + 1) =~= v@.take(i as int).push(v@[i as int]));
        assert(r.deep_view() =~= v@.take(i + 1).map_values(|s: &str| s@));
        i += 1;
    }
    assert(v@.take(v.len() as int) =~= v@);
    r
}

/// The strings of `a` that are not in `b`, as an ordered set.
pub fn set_difference(a: &Vec<String>, b: &Vec<String>) -> (r: Vec<String>)
    ensures
        sorted(r.deep_view()),
        r.deep_view().to_set() == a.deep_view().to_set().difference(b.deep_view().to_set()),
{
    let ghost av = a.deep_view();
    let ghost bs = b.deep_view().to_set();
    let mut r: Vec<String> = Vec::new();
    let mut i: usize = 0;
    assert(av.take(0).to_set().difference(bs) =~= Set::empty());
    while i < a.len()
        invariant
            av == a.deep_view(),
            bs == b.deep_view().to_set(),
            i <= a.len(),
            sorted(r.deep_view()),
            r.deep_view().to_set() == av.take(i as int).to_set().difference(bs),
        decreases a.len() - i,
    {
        let x = a[i].as_str();
        assert(av[i as int] == x@);
        assert(av.take(i + 1) =~= av.take(i as int).push(x@));
        proof {
            av.take(i as int).lemma_push_to_set_commute(x@);
        }
        let inb = contains_str_in(b, x);
        assert(inb == bs.contains(x@));
        if !inb {
            set_insert(&mut r, a[i].clone());
        }
        assert(r.deep_view().to_set() =~= av.take(i + 1).to_set().difference(bs));
        i += 1;
    }
    assert(av.take(a.len() as int) =~= av);
    r
}

/// An ordered set is empty exactly when its vector is.
pub proof fn lemma_to_set_empty(s: Seq<Seq<char>>)
    ensures
        (s.len() == 0) == (s.to_set() == Set::<Seq<char>>::empty()),
{
    if s.len() > 0 {
        assert(s.to_set().contains(s[0]));
    } else {
        assert(s.to_set() =~= Set::<Seq<char>>::empty());
    }
}

/// Whether two string lists hold the same strings the same number of times.
pub fn same_multiset(a: &Vec<String>, b: &Vec<String>) -> (r: bool)
    ensures
        r == (a.deep_view().to_multiset() == b.deep_view().to_multiset()),
{
    broadcast use vstd::seq_lib::group_to_multiset_ensures, vstd::multiset::group_multiset_axioms;

    let ghost av = a.deep_view();
    let ghost bv = b.deep_view();
    let mut rest: Vec<String> = Vec::new();
    let mut k: usize = 0;
    while k < b.len()
        invariant
            k <= b@.len(),
            bv == b.deep_view(),
            rest.deep_view() == bv.take(k as int),
        decreases b@.len() - k,
    {
        let ghost before = rest.deep_view();
        let item = to_string(b[k].as_str());
        rest.push(item);
        assert(rest.deep_view() =~= before.push(bv[k as int]));
        assert(bv.take(k + 1) =~= bv.take(k as int).push(bv[k as int]));
        k += 1;
    }
    assert(bv.take(b@.len() as int) =~= bv);
    assert(av.take(0).to_multiset() =~= vstd::multiset::Multiset::empty());
    let mut i: usize = 0;
    while i < a.len()
        invariant
            i <= a@.len(),
            av == a.deep_view(),
            bv == b.deep_view(),
            av.take(i as int).to_multiset().add(rest.deep_view().to_multiset()) == bv.to_multiset(),
        decreases a@.len() - i,
    {
        let x = a[i].as_str();
        let mut j: usize = 0;
        let mut found = false;
        while j < rest.len()
            invariant
                j <= rest@.len(),
                found ==> j < rest@.len() && rest.deep_view()[j as int] == x@,
                !found ==> forall|q: int| 0 <= q < j ==> rest.deep_view()[q] != x@,
            ensures
                found ==> j < rest@.len() && rest.deep_view()[j as int] == x@,
                !found ==> forall|q: int| 0 <= q < rest@.len() ==> rest.deep_view()[q] != x@,
            decreases rest@.len() - j,
        {
            if eq_str(rest[j].as_str(), x) {
                found = true;
                break;
            }
            j += 1;
        }
        if !found {
            proof {
                assert(!rest.deep_view().contains(x@));
                rest.deep_view().to_multiset_ensures();
                av.skip(i as int).to_multiset_ensures();
                assert(rest.deep_view().to_multiset().count(x@) == 0);
                vstd::seq_lib::lemma_multiset_commutative(av.take(i as int), av.skip(i as int));
                assert(av.take(i as int) + av.skip(i as int) =~= av);
                assert(av.skip(i as int)[0] == x@);
                assert(av.skip(i as int).contains(x@));
                assert(av.to_multiset().count(x@) > bv.to_multiset().count(x@));
            }
            return false;
        }
        let ghost rv = rest.deep_view();
        assert(rv[j as int] == x@);
        rest.remove(j);
        proof {
            assert(rest.deep_view() =~= rv.remove(j as int));
            vstd::seq_lib::to_multiset_remove(rv, j as int);
            rv.to_multiset_ensures();
            assert(rv.contains(x@));
            assert(av.take(i + 1) =~= av.take(i as int).push(x@));
            vstd::seq_lib::to_multiset_build(av.take(i as int), x@);
            assert(av.take(i + 1).to_multiset().add(rest.deep_view().to_multiset()) =~= av.take(i as int).to_multiset().add(
                rv.to_multiset(),
            ));
        }
        i += 1;
    }
    assert(av.take(a@.len() as int) =~= av);
    if rest.len() != 0 {
        proof {
            assert(rest.deep_view().to_multiset().len() > 0);
            assert(av.to_multiset().len() < bv.to_multiset().len());
        }
        return false;
    }
    assert(rest.deep_view().to_multiset() =~= vstd::multiset::Multiset::empty());
    assert(av.to_multiset() =~= bv.to_multiset());
    true
}

/// An owned copy of a string list.
pub fn copy_strings(v: &Vec<String>) -> (r: Vec<String>)
    ensures
        r.deep_view() == v.deep_view(),
{
    let mut out: Vec<String> = Vec::new();
    let mut q: usize = 0;
    while q < v.len()
        invariant
            q <= v@.len(),
            out.deep_view() == v.deep_view().take(q as int),
        decreases v@.len() - q,
    {
        let ghost before = out.deep_view();
        let item = to_string(v[q].as_str());
        out.push(item);
        assert(out.deep_view() =~= before.push(v.deep_view()[q as int]));
        assert(v.deep_view().take(q + 1) =~= v.deep_view().take(q as int).push(v.deep_view()[q as int]));
        q += 1;
    }
    assert(v.deep_view().take(v@.len() as int) =~= v.deep_view());
    out
}

} // verus!
