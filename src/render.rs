//! The prompt text of an abbreviated path: the home directory written as
//! `~`, and the last segment marked bold.

use vstd::prelude::*;
use crate::trim::first_open;
use crate::path::{is_prefix, join_path, joined, leading, starts_with};

verus! {

/// How many leading components of `trimmed` the `~` stands for, when the
/// working directory lies under the home directory: the home's own components
/// where `trimmed` still begins with them (it came back whole), otherwise the
/// components that abbreviation keeps for the home (`first_open(true)`).
pub open spec fn home_part(trimmed: Seq<Seq<char>>, home: Seq<Seq<char>>) -> int {
    if is_prefix(home, trimmed) {
        home.len() as int
    } else if trimmed.len() < first_open(true) {
        trimmed.len() as int
    } else {
        first_open(true)
    }
}

/// The components to show: under the home directory `~` in place of the
/// home's components; elsewhere the path as it is.
pub open spec fn shown(trimmed: Seq<Seq<char>>, home: Seq<Seq<char>>, in_users_home: bool) -> Seq<
    Seq<char>,
> {
    if in_users_home {
        seq!["~"@] + trimmed.skip(home_part(trimmed, home))
    } else {
        trimmed
    }
}

/// Index of the last separator in `s`, or -1 where there is none.
pub open spec fn last_sep(s: Seq<char>) -> int
    decreases s.len(),
{
    if s.len() == 0 {
        -1
    } else if s.last() == '/' {
        s.len() - 1
    } else {
        last_sep(s.drop_last())
    }
}

/// `s` with the text after its last separator wrapped in bold markup.
pub open spec fn marked(s: Seq<char>) -> Seq<char> {
    let k = last_sep(s) + 1;
    s.take(k) + "<b>"@ + s.skip(k) + "</b>"@
}

/// The prompt text of an abbreviated path.
pub open spec fn rendered(trimmed: Seq<Seq<char>>, home: Seq<Seq<char>>, in_users_home: bool) -> Seq<
    char,
> {
    marked(joined(shown(trimmed, home, in_users_home)))
}

proof fn lemma_last_sep_bounds(s: Seq<char>)
    ensures
        -1 <= last_sep(s) < s.len(),
    decreases s.len(),
{
    if s.len() > 0 && s.last() != '/' {
        lemma_last_sep_bounds(s.drop_last());
    }
}

/// The text of a path is extended, never rewritten, as components are added.
proof fn lemma_joined_grows(cs: Seq<Seq<char>>, m: int)
    requires
        0 <= m <= cs.len(),
    ensures
        joined(cs.take(m)).len() <= joined(cs).len(),
        joined(cs).take(joined(cs.take(m)).len() as int) == joined(cs.take(m)),
    decreases cs.len() - m,
{
    if m < cs.len() {
        lemma_joined_grows(cs, m + 1);
        assert(cs.take(m + 1).drop_last() =~= cs.take(m));
        let (p, q) = (joined(cs.take(m)), joined(cs.take(m + 1)));
        assert(q.take(p.len() as int) =~= p);
        assert(joined(cs).take(p.len() as int) =~= q.take(p.len() as int));
    } else {
        assert(cs.take(m) =~= cs);
    }
}

/// Under the home directory the text is `~` alone or begins with `~/`.
proof fn lemma_home_text(rest: Seq<Seq<char>>)
    ensures
        rest.len() == 0 ==> marked(joined(seq!["~"@] + rest)) == "<b>~</b>"@,
        rest.len() > 0 ==> marked(joined(seq!["~"@] + rest)).take(2) == "~/"@,
        marked(joined(seq!["~"@] + rest)).len() >= 2,
{
    reveal_strlit("~");
    reveal_strlit("~/");
    reveal_strlit("<b>");
    reveal_strlit("</b>");
    reveal_strlit("<b>~</b>");
    let cs = seq!["~"@] + rest;
    assert(cs.take(1).drop_last() =~= Seq::<Seq<char>>::empty());
    assert(joined(cs.take(1).drop_last()) == Seq::<char>::empty());
    assert(cs.take(1).last() == "~"@);
    assert("~"@ =~= seq!['~']);
    assert(joined(cs.take(1)) =~= seq!['~']);
    if rest.len() == 0 {
        assert(cs =~= cs.take(1));
        let s = joined(cs);
        assert(s.drop_last() =~= Seq::<char>::empty());
        assert(last_sep(s.drop_last()) == -1);
        assert(last_sep(s) == -1);
        assert(marked(s) =~= "<b>~</b>"@);
    } else {
        assert(cs.take(2).drop_last() =~= cs.take(1));
        lemma_joined_grows(cs, 2);
        let s = joined(cs);
        let t = joined(cs.take(2));
        assert(t.take(2) =~= seq!['~', '/']);
        assert(s.take(2) =~= seq!['~', '/']) by {
            assert(s.take(t.len() as int) == t);
            assert(s[1] == t[1]);
            assert(s[0] == t[0]);
        }
        lemma_last_sep_after(s, 1);
        lemma_last_sep_bounds(s);
        let k = last_sep(s) + 1;
        assert(marked(s).take(2) =~= s.take(2));
    }
    assert(marked(joined(cs)).len() >= "<b>"@.len() + "</b>"@.len());
}

/// A separator at index `i` puts the last separator at `i` or later.
proof fn lemma_last_sep_after(s: Seq<char>, i: int)
    requires
        0 <= i < s.len(),
        s[i] == '/',
    ensures
        last_sep(s) >= i,
    decreases s.len(),
{
    if s.last() != '/' {
        lemma_last_sep_after(s.drop_last(), i);
    }
}

/// The components shown for `trimmed`.
fn shown_parts(trimmed: &Vec<String>, home: &Vec<String>, in_users_home: bool) -> (r: Vec<String>)
    ensures
        r.deep_view() == shown(trimmed.deep_view(), home.deep_view(), in_users_home),
{
    let ghost tv = trimmed.deep_view();
    if !in_users_home {
        assert(tv.take(tv.len() as int) =~= tv);
        return leading(trimmed, trimmed.len());
    }
    let mut r: Vec<String> = Vec::new();
    r.push("~".to_owned());
    let h: usize = if starts_with(trimmed, home) {
        home.len()
    } else if trimmed.len() < 3 {
        trimmed.len()
    } else {
        3
    };
    let mut i: usize = h;
    assert(r.deep_view() =~= seq!["~"@] + tv.skip(h as int).take(0));
    while i < trimmed.len()
        invariant
            h <= i <= tv.len(),
            tv == trimmed.deep_view(),
            r@.len() == 1 + i - h,
            r.deep_view() == seq!["~"@] + tv.skip(h as int).take(i - h),
        decreases tv.len() - i,
    {
        let ghost before = r@;
        let ghost dv = r.deep_view();
        let ghost want = seq!["~"@] + tv.skip(h as int).take(i + 1 - h);
        r.push(trimmed[i].clone());
        assert forall|k: int| 0 <= k < r@.len() implies #[trigger] r.deep_view()[k] == want[k] by {
            if k < before.len() {
                assert(r@[k] == before[k]);
                assert(dv[k] == before[k]@);
            } else {
                assert(tv[i as int] == trimmed@[i as int]@);
            }
        }
        assert(r.deep_view() =~= want);
        i = i + 1;
    }
    assert(tv.skip(h as int).take(tv.len() - h) =~= tv.skip(h as int));
    r
}

/// The prompt text of the abbreviated path `trimmed`, where `in_users_home`
/// says whether the working directory lies under `home`: there the home's
/// components are written as `~`; elsewhere the path's own text is shown. The
/// text after the last separator is marked bold.
pub fn render(trimmed: &Vec<String>, home: &Vec<String>, in_users_home: bool) -> (r: String)
    ensures
        r@ == rendered(trimmed.deep_view(), home.deep_view(), in_users_home),
        in_users_home ==> r@ == "<b>~</b>"@ || (r@.len() >= 2 && r@.take(2) == "~/"@),
        !in_users_home ==> r@ == marked(joined(trimmed.deep_view())),
{
    let parts = shown_parts(trimmed, home, in_users_home);
    proof {
        if in_users_home {
            let tv = trimmed.deep_view();
            lemma_home_text(tv.skip(home_part(tv, home.deep_view())));
        }
    }
    let text = join_path(&parts);
    let n = text.as_str().unicode_len();
    let mut k: usize = 0;
    let mut i: usize = 0;
    while i < n
        invariant
            i <= n == text@.len(),
            k == last_sep(text@.take(i as int)) + 1,
        decreases n - i,
    {
        assert(text@.take(i + 1).drop_last() =~= text@.take(i as int));
        if text.as_str().get_char(i) == '/' {
            k = i + 1;
        }
        i = i + 1;
    }
    assert(text@.take(n as int) =~= text@);
    proof {
        lemma_last_sep_bounds(text@);
    }
    let mut r = String::new();
    r.append(text.as_str().substring_char(0, k));
    r.append("<b>");
    r.append(text.as_str().substring_char(k, n));
    r.append("</b>");
    assert(r@ =~= marked(text@));
    r
}

} // verus!
