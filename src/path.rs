//! Paths as sequences of components, how they are written out, and how one
//! component is cut short.

use vstd::prelude::*;

verus! {

/// The text of a path, components joined as a path buffer joins them: a
/// separator goes between two components unless the text so far is empty or
/// already ends in one (as the root `/` does).
pub open spec fn joined(cs: Seq<Seq<char>>) -> Seq<char>
    decreases cs.len(),
{
    if cs.len() == 0 {
        Seq::empty()
    } else {
        let p = joined(cs.drop_last());
        let c = cs.last();
        if p.len() == 0 || p.last() == '/' {
            p + c
        } else {
            p + seq!['/'] + c
        }
    }
}

/// Number of characters that the path occupies when written out.
pub open spec fn display_len(cs: Seq<Seq<char>>) -> int {
    joined(cs).len() as int
}

/// How many leading characters an abbreviated component keeps: two for a
/// hidden entry (one that starts with `.`), one otherwise.
pub open spec fn kept_len(c: Seq<char>) -> int {
    if c.len() > 0 && c[0] == '.' {
        2
    } else {
        1
    }
}

/// A component cut to its first character, or to its first two where it
/// names a hidden entry; a component no longer than that stays as it is.
pub open spec fn shortened(c: Seq<char>) -> Seq<char> {
    if c.len() <= kept_len(c) {
        c
    } else {
        c.take(kept_len(c))
    }
}

/// The abbreviated form of one path component.
pub fn shorten(c: &String) -> (r: String)
    ensures
        r@ == shortened(c@),
{
    let n = c.as_str().unicode_len();
    if n == 0 {
        return c.clone();
    }
    let keep: usize = if c.as_str().get_char(0) == '.' { 2 } else { 1 };
    if n <= keep {
        c.clone()
    } else {
        c.as_str().substring_char(0, keep).to_owned()
    }
}

/// Writes the path out as text.
pub fn join_path(cs: &Vec<String>) -> (r: String)
    ensures
        r@ == joined(cs.deep_view()),
{
    let mut acc = String::new();
    let mut ends_sep = false;
    let mut i: usize = 0;
    while i < cs.len()
        invariant
            i <= cs@.len(),
            acc@ == joined(cs.deep_view().take(i as int)),
            ends_sep == (acc@.len() > 0 && acc@.last() == '/'),
        decreases cs@.len() - i,
    {
        proof {
            reveal_strlit("/");
        }
        let ghost p = acc@;
        let c = &cs[i];
        let n = c.as_str().unicode_len();
        if acc.as_str().is_empty() || ends_sep {
            acc.append(c.as_str());
            if n > 0 {
                ends_sep = c.as_str().get_char(n - 1) == '/';
            }
        } else {
            acc.append("/");
            acc.append(c.as_str());
            ends_sep = if n > 0 { c.as_str().get_char(n - 1) == '/' } else { true };
        }
        proof {
            let dv = cs.deep_view();
            assert(dv.take(i + 1).drop_last() =~= dv.take(i as int));
            assert(dv.take(i + 1).last() == c@);
            assert(acc@ == joined(dv.take(i + 1)));
            if c@.len() > 0 {
                assert(acc@.last() == c@.last());
            }
        }
        i = i + 1;
    }
    proof {
        assert(cs.deep_view().take(cs@.len() as int) =~= cs.deep_view());
    }
    acc
}

/// The first `upto` components of `cs`.
pub(crate) fn leading(cs: &Vec<String>, upto: usize) -> (r: Vec<String>)
    requires
        upto <= cs@.len(),
    ensures
        r.deep_view() == cs.deep_view().take(upto as int),
{
    let mut r: Vec<String> = Vec::new();
    let mut i: usize = 0;
    while i < upto
        invariant
            i <= upto <= cs@.len(),
            r@.len() == i,
            r.deep_view() == cs.deep_view().take(i as int),
        decreases upto - i,
    {
        let ghost before = r@;
        r.push(cs[i].clone());
        assert forall|k: int| 0 <= k < i implies #[trigger] r@[k] == before[k] by {}
        assert(r.deep_view() =~= cs.deep_view().take(i + 1));
        i = i + 1;
    }
    r
}

/// Whether `pre` is a leading run of the components of `cs`.
pub open spec fn is_prefix(pre: Seq<Seq<char>>, cs: Seq<Seq<char>>) -> bool {
    pre.len() <= cs.len() && cs.take(pre.len() as int) == pre
}

/// Whether `path` lies under `prefix`, component by component (`/home/al` is
/// not under `/home/a`).
pub fn starts_with(path: &Vec<String>, prefix: &Vec<String>) -> (r: bool)
    ensures
        r == is_prefix(prefix.deep_view(), path.deep_view()),
{
    if prefix.len() > path.len() {
        return false;
    }
    let mut i: usize = 0;
    while i < prefix.len()
        invariant
            i <= prefix@.len() <= path@.len(),
            forall|k: int| 0 <= k < i ==> #[trigger] path@[k]@ == prefix@[k]@,
        decreases prefix@.len() - i,
    {
        if path[i] != prefix[i] {
            assert(path.deep_view().take(prefix@.len() as int)[i as int] != prefix.deep_view()[i as int]);
            return false;
        }
        i = i + 1;
    }
    assert(path.deep_view().take(prefix@.len() as int) =~= prefix.deep_view());
    true
}

/// Number of characters that the path occupies when written out.
pub fn path_len(cs: &Vec<String>) -> (r: usize)
    ensures
        r == display_len(cs.deep_view()),
{
    join_path(cs).as_str().unicode_len()
}

} // verus!
