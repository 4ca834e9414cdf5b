//! Two facts about the canonical form. The order in which an object's
//! members were written does not reach it, and so not the digest either:
//! canonical JSON orders members by key, and with each key held once there is
//! one such order. And it is refused only for a number written as a double
//! or an integer beyond the exact range: a document without those always
//! canonicalizes.

use vstd::prelude::*;
use crate::digest::{
    canonical, child_path, collect, digest_result, insert_by_key, item_results, max_safe_integer, member_results,
    member_texts, sort_by_key, units_lt, utf16_lt, utf16_of, utf16_units, Refusal,
};
use crate::json::JsonValue;

verus! {

/// A character is a Unicode scalar value.
proof fn lemma_char(c: char)
    ensures
        0 <= c as int <= 0x10FFFF,
        (c as int) < 0xD800 || 0xE000 <= (c as int),
        (c as u32) as int == c as int,
{
}

proof fn lemma_units_irreflexive(a: Seq<int>)
    ensures
        !units_lt(a, a),
    decreases a.len(),
{
    if a.len() > 0 {
        lemma_units_irreflexive(a.drop_first());
    }
}

proof fn lemma_units_asymmetric(a: Seq<int>, b: Seq<int>)
    requires
        units_lt(a, b),
    ensures
        !units_lt(b, a),
    decreases a.len(),
{
    if a.len() > 0 && b.len() > 0 && a[0] == b[0] {
        lemma_units_asymmetric(a.drop_first(), b.drop_first());
    }
}

proof fn lemma_units_transitive(a: Seq<int>, b: Seq<int>, c: Seq<int>)
    requires
        units_lt(a, b),
        units_lt(b, c),
    ensures
        units_lt(a, c),
    decreases a.len(),
{
    if a.len() > 0 && b.len() > 0 && c.len() > 0 && a[0] == b[0] && b[0] == c[0] {
        lemma_units_transitive(a.drop_first(), b.drop_first(), c.drop_first());
    }
}

proof fn lemma_units_total(a: Seq<int>, b: Seq<int>)
    requires
        a != b,
    ensures
        units_lt(a, b) || units_lt(b, a),
    decreases a.len(),
{
    if a.len() > 0 && b.len() > 0 && a[0] == b[0] {
        if a.drop_first() == b.drop_first() {
            assert(a =~= seq![a[0]] + a.drop_first());
            assert(b =~= seq![b[0]] + b.drop_first());
        }
        lemma_units_total(a.drop_first(), b.drop_first());
    } else if a.len() == 0 && b.len() == 0 {
        assert(a =~= b);
    }
}

proof fn lemma_utf16_units_shape(c: char)
    ensures
        (c as int) < 0x10000 ==> utf16_units(c) == seq![c as int] && !(0xDC00 <= c as int <= 0xDFFF),
        (c as int) >= 0x10000 ==> utf16_units(c).len() == 2 && 0xD800 <= utf16_units(c)[0] <= 0xDBFF
            && 0xDC00 <= utf16_units(c)[1] <= 0xDFFF,
{
    lemma_char(c);
    let n = c as int;
    if n >= 0x10000 {
        let m = n - 0x10000;
        assert(0 <= m < 0x100000);
        assert(0 <= m / 0x400 < 0x400) by (nonlinear_arith)
            requires
                0 <= m < 0x100000,
        ;
        assert(0 <= m % 0x400 < 0x400) by (nonlinear_arith)
            requires
                0 <= m,
        ;
    }
}

/// Two characters of two code units with the same units are the same.
proof fn lemma_pair_decodes(a: char, b: char)
    requires
        (a as int) >= 0x10000,
        (b as int) >= 0x10000,
        utf16_units(a) == utf16_units(b),
    ensures
        a == b,
{
    lemma_char(a);
    lemma_char(b);
    let x = (a as int) - 0x10000;
    let y = (b as int) - 0x10000;
    assert(utf16_units(a)[0] == utf16_units(b)[0]);
    assert(utf16_units(a)[1] == utf16_units(b)[1]);
    assert(x / 0x400 == y / 0x400);
    assert(x % 0x400 == y % 0x400);
    assert(x == 0x400 * (x / 0x400) + x % 0x400) by (nonlinear_arith)
        requires
            0 <= x,
    ;
    assert(y == 0x400 * (y / 0x400) + y % 0x400) by (nonlinear_arith)
        requires
            0 <= y,
    ;
    assert(a as int == b as int);
}

proof fn lemma_utf16_nonempty(s: Seq<char>)
    requires
        s.len() > 0,
    ensures
        utf16_of(s).len() > 0,
{
    lemma_utf16_units_shape(s.last());
}

/// Distinct strings have distinct UTF-16 encodings.
proof fn lemma_utf16_injective(a: Seq<char>, b: Seq<char>)
    requires
        utf16_of(a) == utf16_of(b),
    ensures
        a == b,
    decreases a.len() + b.len(),
{
    if a.len() == 0 || b.len() == 0 {
        if a.len() > 0 {
            lemma_utf16_nonempty(a);
        } else if b.len() > 0 {
            lemma_utf16_nonempty(b);
        } else {
            assert(a =~= b);
        }
    } else {
        let ca = a.last();
        let cb = b.last();
        let pa = utf16_of(a.drop_last());
        let pb = utf16_of(b.drop_last());
        let ua = utf16_units(ca);
        let ub = utf16_units(cb);
        let u = utf16_of(a);
        assert(u == pa + ua);
        assert(u == pb + ub);
        lemma_utf16_units_shape(ca);
        lemma_utf16_units_shape(cb);
        assert(u.last() == ua.last());
        assert(u.last() == ub.last());
        if ua.len() == ub.len() {
            assert(ua =~= u.subrange(u.len() - ua.len(), u.len() as int));
            assert(ub =~= u.subrange(u.len() - ub.len(), u.len() as int));
            assert(pa =~= u.subrange(0, u.len() - ua.len()));
            assert(pb =~= u.subrange(0, u.len() - ub.len()));
            if (ca as int) < 0x10000 {
                assert(ca as int == cb as int);
            } else {
                lemma_pair_decodes(ca, cb);
            }
            lemma_utf16_injective(a.drop_last(), b.drop_last());
            assert(a =~= a.drop_last().push(ca));
            assert(b =~= b.drop_last().push(cb));
        }
    }
}

/// `utf16_lt` is a strict total order on strings.
proof fn lemma_key_order(a: Seq<char>, b: Seq<char>, c: Seq<char>)
    ensures
        !utf16_lt(a, a),
        utf16_lt(a, b) ==> !utf16_lt(b, a),
        utf16_lt(a, b) && utf16_lt(b, c) ==> utf16_lt(a, c),
        a != b ==> utf16_lt(a, b) || utf16_lt(b, a),
{
    lemma_units_irreflexive(utf16_of(a));
    if utf16_lt(a, b) {
        lemma_units_asymmetric(utf16_of(a), utf16_of(b));
    }
    if utf16_lt(a, b) && utf16_lt(b, c) {
        lemma_units_transitive(utf16_of(a), utf16_of(b), utf16_of(c));
    }
    if a != b {
        if utf16_of(a) == utf16_of(b) {
            lemma_utf16_injective(a, b);
        }
        lemma_units_total(utf16_of(a), utf16_of(b));
    }
}

/// Keys strictly ascend in canonical order.
pub open spec fn strictly_by_key(s: Seq<(Seq<char>, Result<Seq<char>, Refusal>)>) -> bool {
    forall|i: int, j: int| 0 <= i < j < s.len() ==> utf16_lt(#[trigger] s[i].0, #[trigger] s[j].0)
}

proof fn lemma_insert_by_key_multiset(
    s: Seq<(Seq<char>, Result<Seq<char>, Refusal>)>,
    e: (Seq<char>, Result<Seq<char>, Refusal>),
)
    ensures
        insert_by_key(s, e).to_multiset() == s.to_multiset().insert(e),
        insert_by_key(s, e).len() == s.len() + 1,
    decreases s.len(),
{
    broadcast use vstd::seq_lib::group_to_multiset_ensures;

    if s.len() == 0 {
        assert(seq![e] =~= s.push(e));
    } else if utf16_lt(e.0, s.last().0) {
        let t = s.drop_last();
        lemma_insert_by_key_multiset(t, e);
        assert(s =~= t.push(s.last()));
        assert(insert_by_key(s, e).to_multiset() =~= t.to_multiset().insert(e).insert(s.last()));
        assert(s.to_multiset().insert(e) =~= t.to_multiset().insert(s.last()).insert(e));
    }
}

proof fn lemma_sort_multiset(s: Seq<(Seq<char>, Result<Seq<char>, Refusal>)>)
    ensures
        sort_by_key(s).to_multiset() == s.to_multiset(),
        sort_by_key(s).len() == s.len(),
    decreases s.len(),
{
    broadcast use vstd::seq_lib::group_to_multiset_ensures;

    if s.len() == 0 {
        assert(sort_by_key(s).to_multiset() =~= s.to_multiset());
    } else {
        let t = s.drop_last();
        lemma_sort_multiset(t);
        lemma_insert_by_key_multiset(sort_by_key(t), s.last());
        assert(s =~= t.push(s.last()));
    }
}

/// What a sequence with the multiset of `t` plus `e` holds is in `t` or is
/// `e`.
proof fn lemma_member_of_inserted(
    r: Seq<(Seq<char>, Result<Seq<char>, Refusal>)>,
    t: Seq<(Seq<char>, Result<Seq<char>, Refusal>)>,
    e: (Seq<char>, Result<Seq<char>, Refusal>),
    i: int,
)
    requires
        r.to_multiset() == t.to_multiset().insert(e),
        0 <= i < r.len(),
    ensures
        r[i] == e || t.contains(r[i]),
{
    broadcast use vstd::seq_lib::group_to_multiset_ensures;

    assert(r.contains(r[i]));
    assert(r.to_multiset().count(r[i]) > 0);
    if r[i] != e {
        assert(t.to_multiset().count(r[i]) > 0);
    }
}

proof fn lemma_insert_strict(
    s: Seq<(Seq<char>, Result<Seq<char>, Refusal>)>,
    e: (Seq<char>, Result<Seq<char>, Refusal>),
)
    requires
        strictly_by_key(s),
        forall|i: int| 0 <= i < s.len() ==> #[trigger] s[i].0 != e.0,
    ensures
        strictly_by_key(insert_by_key(s, e)),
    decreases s.len(),
{
    if s.len() > 0 {
        let last = s.last();
        let t = s.drop_last();
        if utf16_lt(e.0, last.0) {
            assert forall|i: int| 0 <= i < t.len() implies #[trigger] t[i].0 != e.0 by {
                assert(t[i] == s[i]);
            }
            lemma_insert_strict(t, e);
            lemma_insert_by_key_multiset(t, e);
            let r = insert_by_key(t, e);
            let out = r.push(last);
            assert(insert_by_key(s, e) == out);
            assert forall|i: int, j: int| 0 <= i < j < out.len() implies utf16_lt(
                #[trigger] out[i].0,
                #[trigger] out[j].0,
            ) by {
                if j == out.len() - 1 {
                    assert(out[i] == r[i]);
                    lemma_member_of_inserted(r, t, e, i);
                    if r[i] != e {
                        let k = choose|k: int| 0 <= k < t.len() && t[k] == r[i];
                        assert(s[k] == t[k]);
                        assert(utf16_lt(s[k].0, s[s.len() - 1].0));
                    }
                } else {
                    assert(out[i] == r[i] && out[j] == r[j]);
                }
            }
        } else {
            let out = s.push(e);
            assert(insert_by_key(s, e) == out);
            lemma_key_order(e.0, last.0, e.0);
            assert(last.0 != e.0) by {
                assert(s[s.len() - 1].0 != e.0);
            }
            assert(utf16_lt(last.0, e.0));
            assert forall|i: int, j: int| 0 <= i < j < out.len() implies utf16_lt(
                #[trigger] out[i].0,
                #[trigger] out[j].0,
            ) by {
                if j == out.len() - 1 {
                    if i < s.len() - 1 {
                        assert(utf16_lt(s[i].0, s[s.len() - 1].0));
                        lemma_key_order(s[i].0, last.0, e.0);
                    }
                } else {
                    assert(out[i] == s[i] && out[j] == s[j]);
                }
            }
        }
    }
}

/// Sorting members whose keys are distinct puts their keys in strictly
/// ascending order.
proof fn lemma_sort_strict(s: Seq<(Seq<char>, Result<Seq<char>, Refusal>)>)
    requires
        forall|i: int, j: int| 0 <= i < j < s.len() ==> #[trigger] s[i].0 != #[trigger] s[j].0,
    ensures
        strictly_by_key(sort_by_key(s)),
    decreases s.len(),
{
    broadcast use vstd::seq_lib::group_to_multiset_ensures;

    if s.len() > 0 {
        let t = s.drop_last();
        assert forall|i: int, j: int| 0 <= i < j < t.len() implies #[trigger] t[i].0 != #[trigger] t[j].0 by {
            assert(t[i] == s[i] && t[j] == s[j]);
        }
        lemma_sort_strict(t);
        lemma_sort_multiset(t);
        let st = sort_by_key(t);
        assert forall|i: int| 0 <= i < st.len() implies #[trigger] st[i].0 != s.last().0 by {
            assert(st.contains(st[i]));
            assert(st.to_multiset().count(st[i]) > 0);
            assert(t.contains(st[i]));
            let k = choose|k: int| 0 <= k < t.len() && t[k] == st[i];
            assert(s[k] == t[k]);
            assert(s[k].0 != s[s.len() - 1].0);
        }
        lemma_insert_strict(st, s.last());
    }
}

/// Two arrangements of the same members, each with keys strictly ascending,
/// are the same arrangement.
proof fn lemma_strict_unique(
    a: Seq<(Seq<char>, Result<Seq<char>, Refusal>)>,
    b: Seq<(Seq<char>, Result<Seq<char>, Refusal>)>,
)
    requires
        strictly_by_key(a),
        strictly_by_key(b),
        a.to_multiset() == b.to_multiset(),
    ensures
        a == b,
    decreases a.len(),
{
    broadcast use vstd::seq_lib::group_to_multiset_ensures;

    a.to_multiset_ensures();
    b.to_multiset_ensures();
    assert(a.len() == b.len());
    if a.len() == 0 {
        assert(a =~= b);
    } else {
        let x = a[0];
        let y = b[0];
        assert(a.contains(x));
        assert(b.to_multiset().count(x) > 0);
        assert(b.contains(x));
        assert(b.contains(y));
        assert(a.to_multiset().count(y) > 0);
        assert(a.contains(y));
        if x != y {
            let j = choose|j: int| 0 <= j < b.len() && b[j] == x;
            let k = choose|k: int| 0 <= k < a.len() && a[k] == y;
            assert(utf16_lt(b[0].0, b[j].0));
            assert(utf16_lt(a[0].0, a[k].0));
            lemma_key_order(x.0, y.0, x.0);
        }
        assert(a.remove(0) =~= a.drop_first());
        assert(b.remove(0) =~= b.drop_first());
        assert(a.drop_first().to_multiset() == b.drop_first().to_multiset());
        let a1 = a.drop_first();
        let b1 = b.drop_first();
        assert forall|i: int, j: int| 0 <= i < j < a1.len() implies utf16_lt(#[trigger] a1[i].0, #[trigger] a1[j].0) by {
            assert(a1[i] == a[i + 1] && a1[j] == a[j + 1]);
        }
        assert forall|i: int, j: int| 0 <= i < j < b1.len() implies utf16_lt(#[trigger] b1[i].0, #[trigger] b1[j].0) by {
            assert(b1[i] == b[i + 1] && b1[j] == b[j + 1]);
        }
        lemma_strict_unique(a1, b1);
        assert(a =~= seq![x] + a1);
        assert(b =~= seq![y] + b1);
    }
}

/// A member with the canonical text of its value, at its key's path.
pub open spec fn member_result(
    path: Seq<char>,
    m: (Seq<char>, JsonValue),
) -> (Seq<char>, Result<Seq<char>, Refusal>) {
    (m.0, canonical(m.1, child_path(path, m.0)))
}

proof fn lemma_member_results_map(ms: Seq<(Seq<char>, JsonValue)>, path: Seq<char>)
    ensures
        member_results(ms, path) == ms.map_values(|m: (Seq<char>, JsonValue)| member_result(path, m)),
    decreases ms.len(),
{
    if ms.len() > 0 {
        lemma_member_results_map(ms.drop_last(), path);
        assert(ms.map_values(|m: (Seq<char>, JsonValue)| member_result(path, m)) =~= ms.drop_last().map_values(
            |m: (Seq<char>, JsonValue)| member_result(path, m),
        ).push(member_result(path, ms.last())));
    } else {
        assert(ms.map_values(|m: (Seq<char>, JsonValue)| member_result(path, m)) =~= Seq::<
            (Seq<char>, Result<Seq<char>, Refusal>),
        >::empty());
    }
}

/// Mapping two arrangements of the same members gives two arrangements of
/// the same results.
proof fn lemma_map_keeps_multiset(
    a: Seq<(Seq<char>, JsonValue)>,
    b: Seq<(Seq<char>, JsonValue)>,
    path: Seq<char>,
)
    requires
        a.to_multiset() == b.to_multiset(),
    ensures
        a.map_values(|m: (Seq<char>, JsonValue)| member_result(path, m)).to_multiset() == b.map_values(
            |m: (Seq<char>, JsonValue)| member_result(path, m),
        ).to_multiset(),
    decreases a.len(),
{
    broadcast use vstd::seq_lib::group_to_multiset_ensures;

    let f = |m: (Seq<char>, JsonValue)| member_result(path, m);
    a.to_multiset_ensures();
    b.to_multiset_ensures();
    if a.len() == 0 {
        assert(b.len() == 0);
        assert(a.map_values(f) =~= b.map_values(f));
    } else {
        let x = a.last();
        assert(a.contains(x));
        assert(b.to_multiset().count(x) > 0);
        assert(b.contains(x));
        let j = choose|j: int| 0 <= j < b.len() && b[j] == x;
        let a1 = a.drop_last();
        let b1 = b.remove(j);
        assert(a.remove(a.len() - 1) =~= a1);
        assert(a1.to_multiset() == a.to_multiset().remove(x));
        assert(b1.to_multiset() == b.to_multiset().remove(x));
        lemma_map_keeps_multiset(a1, b1, path);
        let fa = a.map_values(f);
        let fb = b.map_values(f);
        assert(fa =~= a1.map_values(f).push(f(x)));
        assert(fb.remove(j) =~= b1.map_values(f));
        assert(fb[j] == f(x));
        fb.to_multiset_ensures();
        assert(fb.remove(j).to_multiset() == fb.to_multiset().remove(f(x)));
        assert(fb.contains(f(x)));
        assert(fb.to_multiset().count(f(x)) > 0);
        assert(fa.to_multiset() =~= fb.to_multiset());
    }
}

/// No two members share a key.
pub open spec fn keys_distinct(ms: Seq<(Seq<char>, JsonValue)>) -> bool {
    forall|i: int, j: int| 0 <= i < j < ms.len() ==> #[trigger] ms[i].0 != #[trigger] ms[j].0
}

proof fn lemma_member_order(
    a: Seq<(Seq<char>, JsonValue)>,
    b: Seq<(Seq<char>, JsonValue)>,
    path: Seq<char>,
)
    requires
        keys_distinct(a),
        keys_distinct(b),
        a.to_multiset() == b.to_multiset(),
    ensures
        canonical(JsonValue::Obj(a), path) == canonical(JsonValue::Obj(b), path),
{
    let f = |m: (Seq<char>, JsonValue)| member_result(path, m);
    lemma_member_results_map(a, path);
    lemma_member_results_map(b, path);
    let ra = member_results(a, path);
    let rb = member_results(b, path);
    lemma_map_keeps_multiset(a, b, path);
    assert forall|i: int, j: int| 0 <= i < j < ra.len() implies #[trigger] ra[i].0 != #[trigger] ra[j].0 by {
        assert(ra[i].0 == a[i].0 && ra[j].0 == a[j].0);
    }
    assert forall|i: int, j: int| 0 <= i < j < rb.len() implies #[trigger] rb[i].0 != #[trigger] rb[j].0 by {
        assert(rb[i].0 == b[i].0 && rb[j].0 == b[j].0);
    }
    lemma_sort_strict(ra);
    lemma_sort_strict(rb);
    lemma_sort_multiset(ra);
    lemma_sort_multiset(rb);
    lemma_strict_unique(sort_by_key(ra), sort_by_key(rb));
    assert(member_texts(sort_by_key(ra)) == member_texts(sort_by_key(rb)));
}

/// The order in which an object's members were written does not reach its
/// canonical form, nor therefore its digest: two objects with the same
/// members, each holding each key once, canonicalize to the same text or
/// are refused alike, and digest alike.
pub proof fn law_member_order_does_not_reach_the_digest(
    a: Seq<(Seq<char>, JsonValue)>,
    b: Seq<(Seq<char>, JsonValue)>,
    path: Seq<char>,
)
    requires
        keys_distinct(a),
        keys_distinct(b),
        a.to_multiset() == b.to_multiset(),
    ensures
        canonical(JsonValue::Obj(a), path) == canonical(JsonValue::Obj(b), path),
        digest_result(JsonValue::Obj(a)) == digest_result(JsonValue::Obj(b)),
{
    lemma_member_order(a, b, path);
    lemma_member_order(a, b, Seq::empty());
}

/// `v` holds no number written as a double and no integer outside
/// `±(2^53 − 1)`.
pub open spec fn canonicalizable(v: JsonValue) -> bool
    decreases v,
{
    match v {
        JsonValue::Int(n) => -max_safe_integer() <= n <= max_safe_integer(),
        JsonValue::Double(_) => false,
        JsonValue::Arr(items) => items_canonicalizable(items),
        JsonValue::Obj(ms) => members_canonicalizable(ms),
        _ => true,
    }
}

/// Every one of `items` is canonicalizable.
pub open spec fn items_canonicalizable(items: Seq<JsonValue>) -> bool
    decreases items,
{
    if items.len() == 0 {
        true
    } else {
        proof {
            assert(decreases_to!(items => items.last()));
        }
        items_canonicalizable(items.drop_last()) && canonicalizable(items.last())
    }
}

/// The value of every one of `ms` is canonicalizable.
pub open spec fn members_canonicalizable(ms: Seq<(Seq<char>, JsonValue)>) -> bool
    decreases ms,
{
    if ms.len() == 0 {
        true
    } else {
        proof {
            assert(decreases_to!(ms => ms.last()));
            assert(decreases_to!(ms.last() => ms.last().1));
        }
        members_canonicalizable(ms.drop_last()) && canonicalizable(ms.last().1)
    }
}

proof fn lemma_collect_ok(rs: Seq<Result<Seq<char>, Refusal>>)
    requires
        forall|i: int| 0 <= i < rs.len() ==> #[trigger] rs[i] is Ok,
    ensures
        collect(rs) is Ok,
    decreases rs.len(),
{
    if rs.len() > 0 {
        let init = rs.drop_last();
        assert forall|i: int| 0 <= i < init.len() implies #[trigger] init[i] is Ok by {
            assert(init[i] == rs[i]);
        }
        lemma_collect_ok(init);
        assert(rs[rs.len() - 1] is Ok);
    }
}

proof fn lemma_items_ok(items: Seq<JsonValue>, path: Seq<char>)
    requires
        items_canonicalizable(items),
    ensures
        item_results(items, path).len() == items.len(),
        forall|i: int| 0 <= i < items.len() ==> #[trigger] item_results(items, path)[i] is Ok,
    decreases items, 1nat,
{
    if items.len() > 0 {
        assert(decreases_to!(items => items.last()));
        lemma_items_ok(items.drop_last(), path);
        lemma_canonical_ok(items.last(), child_path(path, crate::text::decimal((items.len() - 1) as nat)));
        let r = item_results(items, path);
        let p = item_results(items.drop_last(), path);
        assert forall|i: int| 0 <= i < items.len() implies #[trigger] r[i] is Ok by {
            if i < items.len() - 1 {
                assert(r[i] == p[i]);
            }
        }
    }
}

proof fn lemma_members_ok(ms: Seq<(Seq<char>, JsonValue)>, path: Seq<char>)
    requires
        members_canonicalizable(ms),
    ensures
        member_results(ms, path).len() == ms.len(),
        forall|i: int| 0 <= i < ms.len() ==> #[trigger] member_results(ms, path)[i].1 is Ok,
    decreases ms, 1nat,
{
    if ms.len() > 0 {
        assert(decreases_to!(ms => ms.last()));
        assert(decreases_to!(ms.last() => ms.last().1));
        lemma_members_ok(ms.drop_last(), path);
        lemma_canonical_ok(ms.last().1, child_path(path, ms.last().0));
        let r = member_results(ms, path);
        let p = member_results(ms.drop_last(), path);
        assert forall|i: int| 0 <= i < ms.len() implies #[trigger] r[i].1 is Ok by {
            if i < ms.len() - 1 {
                assert(r[i] == p[i]);
            }
        }
    }
}

proof fn lemma_canonical_ok(v: JsonValue, path: Seq<char>)
    requires
        canonicalizable(v),
    ensures
        canonical(v, path) is Ok,
    decreases v, 0nat,
{
    broadcast use vstd::seq_lib::group_to_multiset_ensures;

    match v {
        JsonValue::Arr(items) => {
            lemma_items_ok(items, path);
            lemma_collect_ok(item_results(items, path));
        },
        JsonValue::Obj(ms) => {
            lemma_members_ok(ms, path);
            let r = member_results(ms, path);
            let sorted = sort_by_key(r);
            lemma_sort_multiset(r);
            let texts = member_texts(sorted);
            assert forall|i: int| 0 <= i < texts.len() implies #[trigger] texts[i] is Ok by {
                assert(sorted.contains(sorted[i]));
                assert(sorted.to_multiset().count(sorted[i]) > 0);
                assert(r.contains(sorted[i]));
                let k = choose|k: int| 0 <= k < r.len() && r[k] == sorted[i];
                assert(r[k].1 is Ok);
            }
            lemma_collect_ok(texts);
        },
        _ => {},
    }
}

/// A document with no number written as a double and no integer outside
/// `±(2^53 − 1)` always canonicalizes, at any path, and so always digests.
pub proof fn law_canonicalizing_refuses_only_doubles_and_inexact_integers(v: JsonValue, path: Seq<char>)
    requires
        canonicalizable(v),
    ensures
        canonical(v, path) is Ok,
        digest_result(v) is Ok,
{
    lemma_canonical_ok(v, path);
    lemma_canonical_ok(v, Seq::empty());
}

} // verus!
