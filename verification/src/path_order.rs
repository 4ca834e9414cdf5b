//! The order paths sort in: component by component, each component by code
//! point, and a path before every path it is a proper prefix of. On paths
//! spelled as normal components joined by `/` that is the order of comparing
//! their characters with `/` before every other character, which is how it is
//! defined here.

use vstd::prelude::*;
use crate::text::{chars_of, views};

verus! {

/// `x` comes before `y` within a path: `/` before every other character,
/// the rest by code point.
pub open spec fn char_before(x: char, y: char) -> bool {
    x != y && (x == '/' || (y != '/' && (x as int) < (y as int)))
}

/// `a` sorts strictly before `b` as paths do.
pub open spec fn path_lt(a: Seq<char>, b: Seq<char>) -> bool
    decreases a.len(),
{
    if b.len() == 0 {
        false
    } else if a.len() == 0 {
        true
    } else if a[0] == b[0] {
        path_lt(a.drop_first(), b.drop_first())
    } else {
        char_before(a[0], b[0])
    }
}

/// Paths in non-decreasing path order.
pub open spec fn paths_ascending(s: Seq<Seq<char>>) -> bool {
    forall|i: int, j: int| 0 <= i < j < s.len() ==> !path_lt(#[trigger] s[j], #[trigger] s[i])
}

/// The first position at or after `from` whose path sorts after `x`.
pub open spec fn path_slot(s: Seq<Seq<char>>, x: Seq<char>, from: int) -> int
    decreases s.len() - from,
{
    if from < 0 || from >= s.len() || path_lt(x, s[from]) {
        from
    } else {
        path_slot(s, x, from + 1)
    }
}

/// `s` with `x` inserted in path order.
pub open spec fn insert_path(s: Seq<Seq<char>>, x: Seq<char>) -> Seq<Seq<char>> {
    s.insert(path_slot(s, x, 0), x)
}

/// `s` in path order, each path inserted in turn.
pub open spec fn sort_paths(s: Seq<Seq<char>>) -> Seq<Seq<char>>
    decreases s.len(),
{
    if s.len() == 0 {
        s
    } else {
        insert_path(sort_paths(s.drop_last()), s.last())
    }
}

proof fn lemma_path_lt_asymmetric(a: Seq<char>, b: Seq<char>)
    requires
        path_lt(a, b),
    ensures
        !path_lt(b, a),
    decreases a.len(),
{
    if a.len() > 0 && b.len() > 0 && a[0] == b[0] {
        lemma_path_lt_asymmetric(a.drop_first(), b.drop_first());
    }
}

proof fn lemma_path_lt_transitive(a: Seq<char>, b: Seq<char>, c: Seq<char>)
    requires
        path_lt(a, b),
        path_lt(b, c),
    ensures
        path_lt(a, c),
    decreases a.len(),
{
    if a.len() > 0 && b.len() > 0 && c.len() > 0 && a[0] == b[0] && b[0] == c[0] {
        lemma_path_lt_transitive(a.drop_first(), b.drop_first(), c.drop_first());
    }
}

proof fn lemma_path_lt_total(a: Seq<char>, b: Seq<char>)
    requires
        a != b,
    ensures
        path_lt(a, b) || path_lt(b, a),
    decreases a.len(),
{
    if a.len() > 0 && b.len() > 0 && a[0] == b[0] {
        if a.drop_first() == b.drop_first() {
            assert(a =~= seq![a[0]] + a.drop_first());
            assert(b =~= seq![b[0]] + b.drop_first());
        }
        lemma_path_lt_total(a.drop_first(), b.drop_first());
    } else if a.len() == 0 && b.len() == 0 {
        assert(a =~= b);
    } else if a.len() > 0 && b.len() > 0 && a[0] != '/' && b[0] != '/' {
        assert((a[0] as int) != (b[0] as int));
    }
}

proof fn lemma_path_slot(s: Seq<Seq<char>>, x: Seq<char>, from: int)
    requires
        0 <= from <= s.len(),
    ensures
        from <= path_slot(s, x, from) <= s.len(),
        forall|k: int| from <= k < path_slot(s, x, from) ==> !path_lt(x, #[trigger] s[k]),
        path_slot(s, x, from) < s.len() ==> path_lt(x, s[path_slot(s, x, from)]),
    decreases s.len() - from,
{
    if from < s.len() && !path_lt(x, s[from]) {
        lemma_path_slot(s, x, from + 1);
    }
}

proof fn lemma_insert_path(s: Seq<Seq<char>>, x: Seq<char>)
    requires
        paths_ascending(s),
    ensures
        paths_ascending(insert_path(s, x)),
        insert_path(s, x).to_multiset() == s.to_multiset().insert(x),
{
    broadcast use vstd::seq_lib::group_to_multiset_ensures;

    let p = path_slot(s, x, 0);
    lemma_path_slot(s, x, 0);
    let r = s.insert(p, x);
    assert forall|i: int, j: int| 0 <= i < j < r.len() implies !path_lt(#[trigger] r[j], #[trigger] r[i]) by {
        if j < p {
            assert(r[i] == s[i] && r[j] == s[j]);
        } else if j == p {
            assert(r[i] == s[i] && r[j] == x);
            assert(!path_lt(x, s[i]));
        } else if i == p {
            assert(r[i] == x && r[j] == s[j - 1]);
            assert(path_lt(x, s[p]));
            if j - 1 > p {
                assert(!path_lt(s[j - 1], s[p]));
                if s[j - 1] != s[p] {
                    lemma_path_lt_total(s[j - 1], s[p]);
                    lemma_path_lt_transitive(x, s[p], s[j - 1]);
                }
            }
            lemma_path_lt_asymmetric(x, s[j - 1]);
        } else if i > p {
            assert(r[i] == s[i - 1] && r[j] == s[j - 1]);
        } else {
            assert(r[i] == s[i] && r[j] == s[j - 1]);
        }
    }
}

/// Sorting by path order keeps every path, each as often, and puts them in
/// path order.
pub proof fn lemma_sort_paths(s: Seq<Seq<char>>)
    ensures
        paths_ascending(sort_paths(s)),
        sort_paths(s).to_multiset() == s.to_multiset(),
    decreases s.len(),
{
    broadcast use vstd::seq_lib::group_to_multiset_ensures;

    if s.len() == 0 {
        assert(sort_paths(s).to_multiset() =~= s.to_multiset());
    } else {
        lemma_sort_paths(s.drop_last());
        lemma_insert_path(sort_paths(s.drop_last()), s.last());
        assert(s =~= s.drop_last().push(s.last()));
    }
}

fn char_comes_before(x: char, y: char) -> (r: bool)
    ensures
        r == char_before(x, y),
{
    if x == y {
        false
    } else if x == '/' {
        true
    } else if y == '/' {
        false
    } else {
        x < y
    }
}

/// Whether `a` sorts strictly before `b` as paths do.
pub fn path_before(a: &str, b: &str) -> (r: bool)
    ensures
        r == path_lt(a@, b@),
{
    let x = chars_of(a);
    let y = chars_of(b);
    let mut i: usize = 0;
    proof {
        assert(x@.skip(0) =~= x@);
        assert(y@.skip(0) =~= y@);
    }
    while i < x.len() && i < y.len()
        invariant
            x@ == a@,
            y@ == b@,
            i <= x@.len(),
            i <= y@.len(),
            path_lt(a@, b@) == path_lt(x@.skip(i as int), y@.skip(i as int)),
        decreases x@.len() - i,
    {
        let c = x[i];
        let d = y[i];
        proof {
            assert(x@.skip(i as int)[0] == x@[i as int]);
            assert(y@.skip(i as int)[0] == y@[i as int]);
        }
        if c != d {
            return char_comes_before(c, d);
        }
        proof {
            assert(x@.skip(i as int).drop_first() =~= x@.skip(i as int + 1));
            assert(y@.skip(i as int).drop_first() =~= y@.skip(i as int + 1));
        }
        i = i + 1;
    }
    i < y.len()
}

/// A copy of `paths` in path order.
pub fn sorted_by_path(paths: &Vec<String>) -> (r: Vec<String>)
    ensures
        views(r@) == sort_paths(views(paths@)),
{
    let ghost vs = views(paths@);
    let mut out: Vec<String> = Vec::new();
    let mut i: usize = 0;
    proof {
        assert(vs.take(0) =~= Seq::<Seq<char>>::empty());
        assert(views(out@) =~= Seq::<Seq<char>>::empty());
    }
    while i < paths.len()
        invariant
            vs == views(paths@),
            i <= paths@.len(),
            views(out@) == sort_paths(vs.take(i as int)),
        decreases paths@.len() - i,
    {
        let x = &paths[i];
        let ghost sv = views(out@);
        let mut p: usize = 0;
        while p < out.len() && !path_before(x.as_str(), out[p].as_str())
            invariant
                sv == views(out@),
                p <= out@.len(),
                path_slot(sv, x@, 0) == path_slot(sv, x@, p as int),
            decreases out@.len() - p,
        {
            proof {
                assert(sv[p as int] == out@[p as int]@);
            }
            p = p + 1;
        }
        proof {
            if p < out@.len() {
                assert(sv[p as int] == out@[p as int]@);
            }
            assert(path_slot(sv, x@, p as int) == p);
        }
        out.insert(p, x.clone());
        proof {
            assert(vs.take(i as int + 1).drop_last() =~= vs.take(i as int));
            assert(vs.take(i as int + 1).last() == x@);
            assert(views(out@) =~= sv.insert(p as int, x@));
        }
        i = i + 1;
    }
    proof {
        assert(vs.take(paths@.len() as int) =~= vs);
    }
    out
}

} // verus!
