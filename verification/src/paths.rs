//! Repository-relative path rules (the component model of `std::path` on
//! Unix, with `/` as the only separator).
use crate::text::{chars_of, eq_str, has_char, lemma_split_char_nonempty, split_char, split_str};
use vstd::prelude::*;

verus! {

/// Whether `Path::components` of `s` yields anything but a normal name: a
/// root (leading `/`), a leading `.`, or a `..` anywhere. Empty and interior
/// `.` pieces are skipped by `components` and so do not count.
pub open spec fn has_special_component(s: Seq<char>) -> bool {
    ||| (s.len() > 0 && s[0] == '/')
    ||| split_char(s, '/')[0] == seq!['.']
    ||| split_char(s, '/').contains(seq!['.', '.'])
}

/// A canonical forward-slash relative path: nonempty, no backslash, only
/// normal components.
pub open spec fn canonical_relative_path(s: Seq<char>) -> bool {
    s.len() > 0 && !has_char(s, '\\') && !has_special_component(s)
}

pub fn special_component(s: &str) -> (r: bool)
    ensures
        r == has_special_component(s@),
{
    let cs = chars_of(s);
    if cs.len() > 0 && cs[0] == '/' {
        return true;
    }
    let parts = split_str(s, '/');
    proof {
        lemma_split_char_nonempty(s@, '/');
        reveal_strlit(".");
        reveal_strlit("..");
    }
    assert("."@ =~= seq!['.']);
    assert(".."@ =~= seq!['.', '.']);
    if eq_str(parts[0].as_str(), ".") {
        return true;
    }
    let mut i: usize = 0;
    while i < parts.len()
        invariant
            i <= parts.len(),
            parts.deep_view() == split_char(s@, '/'),
            ".."@ == seq!['.', '.'],
            forall|k: int| 0 <= k < i ==> parts.deep_view()[k] != seq!['.', '.'],
        decreases parts.len() - i,
    {
        if eq_str(parts[i].as_str(), "..") {
            assert(parts.deep_view()[i as int] == parts@[i as int]@);
            assert(parts.deep_view().contains(seq!['.', '.']));
            return true;
        }
        assert(parts.deep_view()[i as int] == parts@[i as int]@);
        i += 1;
    }
    assert(parts.deep_view()[0] == parts@[0]@);
    false
}

pub fn is_canonical_relative_path(s: &str) -> (r: bool)
    ensures
        r == canonical_relative_path(s@),
{
    let cs = chars_of(s);
    if cs.len() == 0 {
        return false;
    }
    let mut i: usize = 0;
    while i < cs.len()
        invariant
            i <= cs.len(),
            cs@ == s@,
            forall|k: int| 0 <= k < i ==> cs@[k] != '\\',
        decreases cs.len() - i,
    {
        if cs[i] == '\\' {
            assert(has_char(s@, '\\'));
            return false;
        }
        i += 1;
    }
    assert(!has_char(s@, '\\'));
    !special_component(s)
}

/// The last piece of the first `n` that `components` keeps: not empty and
/// not `.`.
pub open spec fn last_kept(parts: Seq<Seq<char>>, n: int) -> Option<Seq<char>>
    decreases n,
{
    if n <= 0 {
        None
    } else if parts[n - 1] == Seq::<char>::empty() || parts[n - 1] == seq!['.'] {
        last_kept(parts, n - 1)
    } else {
        Some(parts[n - 1])
    }
}

/// `Path::file_name`: the last component where it is a normal name.
pub open spec fn file_name_spec(p: Seq<char>) -> Option<Seq<char>> {
    let parts = split_char(p, '/');
    match last_kept(parts, parts.len() as int) {
        Some(x) => if x == seq!['.', '.'] {
            None
        } else {
            Some(x)
        },
        None => None,
    }
}

/// `Path::file_name`, as text.
pub fn file_name(p: &str) -> (r: Option<String>)
    ensures
        match file_name_spec(p@) {
            Some(x) => r matches Some(v) && v@ == x,
            None => r is None,
        },
{
    let parts = split_str(p, '/');
    let ghost pv = parts.deep_view();
    let mut n: usize = parts.len();
    while n > 0
        invariant
            n <= pv.len(),
            pv == parts.deep_view(),
            pv == split_char(p@, '/'),
            last_kept(pv, pv.len() as int) == last_kept(pv, n as int),
        decreases n,
    {
        let piece = chars_of(parts[n - 1].as_str());
        assert(piece@ == pv[n - 1]);
        if piece.len() == 0 || (piece.len() == 1 && piece[0] == '.') {
            assert(pv[n - 1] == Seq::<char>::empty() || pv[n - 1] =~= seq!['.']);
            n -= 1;
        } else {
            assert(pv[n - 1] != Seq::<char>::empty());
            assert(pv[n - 1] != seq!['.']) by {
                if pv[n - 1] == seq!['.'] {
                    assert(piece@.len() == 1 && piece@[0] == '.');
                }
            }
            if piece.len() == 2 && piece[0] == '.' && piece[1] == '.' {
                assert(pv[n - 1] =~= seq!['.', '.']);
                return None;
            }
            assert(pv[n - 1] != seq!['.', '.']) by {
                if pv[n - 1] == seq!['.', '.'] {
                    assert(piece@.len() == 2 && piece@[0] == '.' && piece@[1] == '.');
                }
            }
            return Some(crate::text::to_string(parts[n - 1].as_str()));
        }
    }
    None
}

} // verus!
