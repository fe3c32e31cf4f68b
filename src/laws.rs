//! What holds of every abbreviation, proved over the specification of `trim`.

use vstd::prelude::*;
use crate::anchors::lists_anchor;
use crate::path::{display_len, joined, shortened};
use crate::trim::{anchor_flags, first_open, next_listing, partial, trim_outcome, walk};

verus! {

/// Length of a path's text once one more non-empty component has been joined,
/// less the length of that component.
spec fn extended_len(s: Seq<char>) -> int {
    if s.len() > 0 && s.last() != '/' {
        s.len() + 1 as int
    } else {
        s.len() as int
    }
}

proof fn lemma_shortened(c: Seq<char>)
    ensures
        shortened(c) == c || (0 < shortened(c).len() < c.len()),
        shortened(c).len() <= c.len(),
        shortened(c).len() == 0 <==> c.len() == 0,
        shortened(c) =~= c.take(shortened(c).len() as int),
{
}

/// Joining components that are each whole or shortened gives no longer text.
proof fn lemma_joined_shorter(a: Seq<Seq<char>>, b: Seq<Seq<char>>)
    requires
        a.len() == b.len(),
        forall|j: int| 0 <= j < a.len() ==> #[trigger] a[j] == b[j] || a[j] == shortened(b[j]),
    ensures
        joined(a).len() <= joined(b).len(),
        joined(a).len() == 0 <==> joined(b).len() == 0,
        extended_len(joined(a)) <= extended_len(joined(b)),
    decreases a.len(),
{
    if a.len() > 0 {
        let (pa, pb) = (joined(a.drop_last()), joined(b.drop_last()));
        let (ca, cb) = (a.last(), b.last());
        assert forall|j: int| 0 <= j < a.len() - 1 implies #[trigger] a.drop_last()[j] == b.drop_last()[j]
            || a.drop_last()[j] == shortened(b.drop_last()[j]) by {
            assert(a[j] == b[j] || a[j] == shortened(b[j]));
        }
        lemma_joined_shorter(a.drop_last(), b.drop_last());
        lemma_shortened(cb);
        assert(a[a.len() - 1] == b[b.len() - 1] || a[a.len() - 1] == shortened(b[b.len() - 1]));
        let (ja, jb) = (joined(a), joined(b));
        assert(ja.len() == extended_len(pa) + ca.len());
        assert(jb.len() == extended_len(pb) + cb.len());
        if ca.len() > 0 {
            assert(ja.last() == ca.last());
        } else if pa.len() > 0 {
            assert(ja.last() == '/');
        }
        if cb.len() > 0 {
            assert(jb.last() == cb.last());
        } else if pb.len() > 0 {
            assert(jb.last() == '/');
        }
    }
}

/// Every answer of `walk` is the path with a leading run of open components
/// decided.
proof fn lemma_walk_some(
    path: Seq<Seq<char>>,
    width: int,
    start: int,
    stop_early: bool,
    flags: Seq<bool>,
    i: int,
) -> (u: int)
    requires
        0 <= start <= i < path.len(),
        i - start <= flags.len(),
        walk(path, width, start, stop_early, flags, i) is Some,
    ensures
        i <= u < path.len(),
        u - start <= flags.len(),
        walk(path, width, start, stop_early, flags, i) == Some(partial(path, start, flags, u)),
    decreases path.len() - i,
{
    if i + 1 >= path.len() {
        i
    } else if i - start >= flags.len() {
        i
    } else if stop_early && display_len(partial(path, start, flags, i + 1)) <= width {
        i + 1
    } else {
        lemma_walk_some(path, width, start, stop_early, flags, i + 1)
    }
}

/// An answer of `trim` is the path itself, the empty path, or the path with
/// the open components before some index `u` decided.
proof fn lemma_outcome_shape(
    path: Seq<Seq<char>>,
    width: int,
    in_users_home: bool,
    stop_early: bool,
    flags: Seq<bool>,
    out: Seq<Seq<char>>,
) -> (u: int)
    requires
        trim_outcome(path, width, in_users_home, stop_early, flags) == Some(out),
        out.len() > 0,
    ensures
        out == path || (first_open(in_users_home) <= u < path.len() && u - first_open(
            in_users_home,
        ) <= flags.len() && out == partial(path, first_open(in_users_home), flags, u)),
{
    let start = first_open(in_users_home);
    if stop_early && display_len(path) <= width {
        0
    } else if start + 1 >= path.len() {
        0
    } else {
        lemma_walk_some(path, width, start, stop_early, flags, start)
    }
}

/// With early stop on, a path whose text already fits the width comes back
/// unchanged.
pub proof fn law_fitting_path_unchanged(
    path: Seq<Seq<char>>,
    width: int,
    in_users_home: bool,
    flags: Seq<bool>,
)
    requires
        display_len(path) <= width,
    ensures
        trim_outcome(path, width, in_users_home, true, flags) == Some(path),
{
}

/// A non-empty answer has as many components as the path, and its last
/// component is the path's last component, whole.
pub proof fn law_last_component_whole(
    path: Seq<Seq<char>>,
    width: int,
    in_users_home: bool,
    stop_early: bool,
    flags: Seq<bool>,
    out: Seq<Seq<char>>,
)
    requires
        trim_outcome(path, width, in_users_home, stop_early, flags) == Some(out),
        out.len() > 0,
    ensures
        out.len() == path.len(),
        out.last() == path.last(),
{
    let u = lemma_outcome_shape(path, width, in_users_home, stop_early, flags, out);
}

/// A component whose directory listing holds an anchor name is never
/// shortened.
pub proof fn law_anchored_component_whole(
    path: Seq<Seq<char>>,
    width: int,
    in_users_home: bool,
    stop_early: bool,
    names: Seq<Seq<char>>,
    listings: Seq<Seq<Seq<char>>>,
    out: Seq<Seq<char>>,
    k: int,
)
    requires
        trim_outcome(path, width, in_users_home, stop_early, anchor_flags(names, listings)) == Some(
            out,
        ),
        out.len() > 0,
        0 <= k < listings.len(),
        first_open(in_users_home) + k < path.len(),
        lists_anchor(names, listings[k]),
    ensures
        out[first_open(in_users_home) + k] == path[first_open(in_users_home) + k],
{
    let u = lemma_outcome_shape(
        path,
        width,
        in_users_home,
        stop_early,
        anchor_flags(names, listings),
        out,
    );
}

/// Abbreviation never lengthens: neither the text of the path nor any one
/// component.
pub proof fn law_never_longer(
    path: Seq<Seq<char>>,
    width: int,
    in_users_home: bool,
    stop_early: bool,
    flags: Seq<bool>,
    out: Seq<Seq<char>>,
)
    requires
        trim_outcome(path, width, in_users_home, stop_early, flags) == Some(out),
    ensures
        display_len(out) <= display_len(path),
        forall|j: int| 0 <= j < out.len() ==> #[trigger] out[j].len() <= path[j].len(),
{
    if out.len() > 0 {
        let u = lemma_outcome_shape(path, width, in_users_home, stop_early, flags, out);
        assert forall|j: int| 0 <= j < out.len() implies #[trigger] out[j] == path[j] || out[j]
            == shortened(path[j]) by {}
        lemma_joined_shorter(out, path);
        assert forall|j: int| 0 <= j < out.len() implies #[trigger] out[j].len() <= path[j].len() by {
            lemma_shortened(path[j]);
        }
    } else {
        assert(joined(out).len() == 0);
    }
}

/// A shortened component keeps its first character, or its first two where
/// it starts with `.`.
pub proof fn law_hidden_entry_keeps_two(
    path: Seq<Seq<char>>,
    width: int,
    in_users_home: bool,
    stop_early: bool,
    flags: Seq<bool>,
    out: Seq<Seq<char>>,
    j: int,
)
    requires
        trim_outcome(path, width, in_users_home, stop_early, flags) == Some(out),
        0 <= j < out.len(),
        out[j] != path[j],
    ensures
        path[j].len() > 0,
        path[j][0] == '.' ==> out[j] == path[j].take(2),
        path[j][0] != '.' ==> out[j] == path[j].take(1),
{
    let u = lemma_outcome_shape(path, width, in_users_home, stop_early, flags, out);
    assert(out[j] == shortened(path[j]));
}

/// Under the user's home the root and the two components of the home
/// directory are never shortened, whatever the listings hold, and their
/// directories are never asked for.
pub proof fn law_home_prefix_whole(
    path: Seq<Seq<char>>,
    width: int,
    stop_early: bool,
    flags: Seq<bool>,
    out: Seq<Seq<char>>,
    j: int,
)
    requires
        trim_outcome(path, width, true, stop_early, flags) == Some(out),
        0 <= j < 3,
        j < out.len(),
    ensures
        out[j] == path[j],
        next_listing(true, flags) >= 3,
{
    let u = lemma_outcome_shape(path, width, true, stop_early, flags, out);
}

} // verus!
