//! The abbreviation of a path under a width budget.
//!
//! Deciding whether a component stays whole needs the listing of the directory
//! it names, and listing is left to the caller: `trim` is called with the
//! listings gathered so far and either finishes or names the directory to list
//! next, which the caller lists and appends before calling again.

use vstd::prelude::*;
use crate::anchors::{AnchorSet, lists_anchor};
use crate::path::{display_len, leading, path_len, shorten, shortened};

verus! {

/// Index of the first component that may be abbreviated: under the user's
/// home the root and the two components of the home directory are kept.
pub open spec fn first_open(in_users_home: bool) -> int {
    if in_users_home {
        3
    } else {
        0
    }
}

/// For each listing, whether it holds an anchor name.
pub open spec fn anchor_flags(names: Seq<Seq<char>>, listings: Seq<Seq<Seq<char>>>) -> Seq<bool> {
    Seq::new(listings.len(), |k: int| lists_anchor(names, listings[k]))
}

/// The path once the components from `start` up to (excluding) `upto` have
/// been decided: one whose directory holds an anchor (`flags[j - start]`)
/// stays whole, any other is shortened; the rest are as they were.
pub open spec fn partial(path: Seq<Seq<char>>, start: int, flags: Seq<bool>, upto: int) -> Seq<
    Seq<char>,
> {
    Seq::new(
        path.len(),
        |j: int|
            if start <= j < upto && !flags[j - start] {
                shortened(path[j])
            } else {
                path[j]
            },
    )
}

/// The decisions from component `i` on, left to right; with `stop_early` the
/// first partial result that fits `width` is the answer. `None` when the
/// listing of the directory that component `i` names is not known yet.
pub open spec fn walk(
    path: Seq<Seq<char>>,
    width: int,
    start: int,
    stop_early: bool,
    flags: Seq<bool>,
    i: int,
) -> Option<Seq<Seq<char>>>
    decreases path.len() - i,
{
    if i + 1 >= path.len() {
        Some(partial(path, start, flags, i))
    } else if i - start >= flags.len() {
        None
    } else if stop_early && display_len(partial(path, start, flags, i + 1)) <= width {
        Some(partial(path, start, flags, i + 1))
    } else {
        walk(path, width, start, stop_early, flags, i + 1)
    }
}

/// The abbreviated path, given the anchor flags of the directories listed so
/// far (the first for the directory of component `first_open`, and so on), or
/// `None` while another listing is needed.
///
/// With `stop_early`, a path that already fits `width` comes back as it is.
/// Where no component is open to abbreviation (the home directory itself,
/// or a path of one component) the result is the empty path.
pub open spec fn trim_outcome(
    path: Seq<Seq<char>>,
    width: int,
    in_users_home: bool,
    stop_early: bool,
    flags: Seq<bool>,
) -> Option<Seq<Seq<char>>> {
    if stop_early && display_len(path) <= width {
        Some(path)
    } else if first_open(in_users_home) + 1 >= path.len() {
        Some(Seq::empty())
    } else {
        walk(path, width, first_open(in_users_home), stop_early, flags, first_open(in_users_home))
    }
}

/// Index of the component whose directory is to be listed next.
pub open spec fn next_listing(in_users_home: bool, flags: Seq<bool>) -> int {
    first_open(in_users_home) + flags.len()
}

/// What one call of `trim` asks for.
pub enum Step {
    /// The abbreviated path, as components.
    Done(Vec<String>),
    /// The components of the directory to list next.
    List(Vec<String>),
}

proof fn lemma_walk_none(
    path: Seq<Seq<char>>,
    width: int,
    start: int,
    stop_early: bool,
    flags: Seq<bool>,
    i: int,
)
    requires
        walk(path, width, start, stop_early, flags, i) is None,
    ensures
        start + flags.len() + 1 < path.len(),
    decreases path.len() - i,
{
    if i + 1 >= path.len() {
    } else if i - start >= flags.len() {
    } else if stop_early && display_len(partial(path, start, flags, i + 1)) <= width {
    } else {
        lemma_walk_none(path, width, start, stop_early, flags, i + 1);
    }
}

fn walk_from(path: &Vec<String>, width: usize, start: usize, stop_early: bool, flags: &Vec<bool>) -> (r: Step)
    requires
        start + 1 < path@.len(),
    ensures
        match r {
            Step::Done(out) => walk(path.deep_view(), width as int, start as int, stop_early, flags@, start as int)
                == Some(out.deep_view()),
            Step::List(dir) => walk(path.deep_view(), width as int, start as int, stop_early, flags@, start as int) is None
                && dir.deep_view() == path.deep_view().take(start + flags@.len() + 1),
        },
{
    let ghost pv = path.deep_view();
    let ghost fv = flags@;
    let n = path.len();
    let mut out = leading(path, n);
    assert(pv.take(n as int) =~= pv);
    assert(out.deep_view() =~= partial(pv, start as int, fv, start as int));
    let mut i: usize = start;
    while i < n - 1
        invariant
            n == path@.len(),
            pv == path.deep_view(),
            fv == flags@,
            start <= i <= n - 1,
            i - start <= fv.len(),
            out@.len() == n,
            out.deep_view() == partial(pv, start as int, fv, i as int),
            walk(pv, width as int, start as int, stop_early, fv, start as int)
                == walk(pv, width as int, start as int, stop_early, fv, i as int),
        decreases n - i,
    {
        if i - start >= flags.len() {
            return Step::List(leading(path, i + 1));
        }
        let ghost before = out@;
        let ghost want = partial(pv, start as int, fv, i + 1);
        if !flags[i - start] {
            out[i] = shorten(&path[i]);
        }
        assert forall|k: int| 0 <= k < n implies #[trigger] out.deep_view()[k] == want[k] by {
            assert(pv[k] == path@[k]@);
            if k != i {
                assert(out@[k] == before[k]);
                assert(before[k]@ == partial(pv, start as int, fv, i as int)[k]);
            }
        }
        assert(out.deep_view() =~= want);
        if stop_early && path_len(&out) <= width {
            return Step::Done(out);
        }
        i = i + 1;
    }
    Step::Done(out)
}

/// One step of the abbreviation of `path` (its components, the root first)
/// to fit `width` characters. `listings[k]` is the listing of the directory
/// named by the components up to index `first_open(in_users_home) + k`.
pub fn trim(
    path: &Vec<String>,
    width: usize,
    in_users_home: bool,
    stop_early: bool,
    anchors: &AnchorSet,
    listings: &Vec<Vec<String>>,
) -> (r: Step)
    ensures
        ({
            let flags = anchor_flags(anchors@, listings.deep_view());
            let outcome = trim_outcome(path.deep_view(), width as int, in_users_home, stop_early, flags);
            match r {
                Step::Done(out) => outcome == Some(out.deep_view()),
                Step::List(dir) => outcome is None
                    && next_listing(in_users_home, flags) + 1 < path@.len()
                    && dir.deep_view() == path.deep_view().take(next_listing(in_users_home, flags) + 1),
            }
        }),
{
    let ghost lv = listings.deep_view();
    let mut flags: Vec<bool> = Vec::new();
    let mut k: usize = 0;
    while k < listings.len()
        invariant
            k <= listings@.len(),
            lv == listings.deep_view(),
            flags@ == anchor_flags(anchors@, lv).take(k as int),
        decreases listings@.len() - k,
    {
        let found = anchors.has_anchor(&listings[k]);
        assert(lv[k as int] == listings@[k as int].deep_view());
        flags.push(found);
        assert(flags@ =~= anchor_flags(anchors@, lv).take(k + 1));
        k = k + 1;
    }
    assert(flags@ =~= anchor_flags(anchors@, lv));
    if stop_early && path_len(path) <= width {
        let out = leading(path, path.len());
        assert(path.deep_view().take(path@.len() as int) =~= path.deep_view());
        return Step::Done(out);
    }
    let start: usize = if in_users_home { 3 } else { 0 };
    if path.len() <= start + 1 {
        let out: Vec<String> = Vec::new();
        assert(out.deep_view() =~= Seq::<Seq<char>>::empty());
        return Step::Done(out);
    }
    let r = walk_from(path, width, start, stop_early, &flags);
    proof {
        if r is List {
            lemma_walk_none(path.deep_view(), width as int, start as int, stop_early, flags@, start as int);
        }
    }
    r
}

} // verus!
