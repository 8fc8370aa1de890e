//! Maps from strings, kept in the order of their keys.

use vstd::prelude::*;
use vstd::string::*;
use crate::text::{before, same, lex_lt, lemma_lex_irreflexive, lemma_lex_total, lemma_lex_transitive};

verus! {

/// Whether the keys of an association list strictly increase.
pub open spec fn sorted_keys<V>(s: Seq<(Seq<char>, V)>) -> bool {
    forall|i: int, j: int|
        0 <= i < j < s.len() ==> lex_lt(#[trigger] s[i].0, #[trigger] s[j].0)
}

/// The value that an association list has for a key.
pub open spec fn find<V>(s: Seq<(Seq<char>, V)>, k: Seq<char>) -> Option<V>
    decreases s.len(),
{
    if s.len() == 0 {
        None
    } else if s[0].0 == k {
        Some(s[0].1)
    } else {
        find(s.drop_first(), k)
    }
}

/// An association list with a key set to a value, in its place in the order.
pub open spec fn put<V>(s: Seq<(Seq<char>, V)>, k: Seq<char>, v: V) -> Seq<(Seq<char>, V)>
    decreases s.len(),
{
    if s.len() == 0 {
        seq![(k, v)]
    } else if s[0].0 == k {
        seq![(k, v)] + s.drop_first()
    } else if lex_lt(k, s[0].0) {
        seq![(k, v)] + s
    } else {
        seq![s[0]] + put(s.drop_first(), k, v)
    }
}

/// An association list without a key.
pub open spec fn without<V>(s: Seq<(Seq<char>, V)>, k: Seq<char>) -> Seq<(Seq<char>, V)>
    decreases s.len(),
{
    if s.len() == 0 {
        s
    } else if s[0].0 == k {
        s.drop_first()
    } else {
        seq![s[0]] + without(s.drop_first(), k)
    }
}

/// The keys of an association list.
pub open spec fn keys<V>(s: Seq<(Seq<char>, V)>) -> Seq<Seq<char>> {
    Seq::new(s.len(), |i: int| s[i].0)
}

/// The list with every value sent through `f`.
pub open spec fn each<V, W>(s: Seq<(Seq<char>, V)>, f: spec_fn(V) -> W) -> Seq<(Seq<char>, W)> {
    Seq::new(s.len(), |i: int| (s[i].0, f(s[i].1)))
}

/// A key that stands at position `i`, and nowhere before, is found there.
pub proof fn lemma_find_at<V>(s: Seq<(Seq<char>, V)>, k: Seq<char>, i: int)
    requires
        0 <= i < s.len(),
        s[i].0 == k,
        forall|j: int| 0 <= j < i ==> (#[trigger] s[j]).0 != k,
    ensures
        find(s, k) == Some(s[i].1),
    decreases s.len(),
{
    if i > 0 {
        assert(s[0].0 != k);
        assert forall|j: int| 0 <= j < i - 1 implies (#[trigger] s.drop_first()[j]).0 != k by {
            assert(s.drop_first()[j] == s[j + 1]);
        }
        lemma_find_at(s.drop_first(), k, i - 1);
    }
}

/// A key that stands nowhere is not found.
pub proof fn lemma_find_none<V>(s: Seq<(Seq<char>, V)>, k: Seq<char>)
    requires
        forall|j: int| 0 <= j < s.len() ==> (#[trigger] s[j]).0 != k,
    ensures
        find(s, k) == None::<V>,
    decreases s.len(),
{
    if s.len() > 0 {
        assert(s[0].0 != k);
        assert forall|j: int| 0 <= j < s.len() - 1 implies (#[trigger] s.drop_first()[j]).0 != k by {
            assert(s.drop_first()[j] == s[j + 1]);
        }
        lemma_find_none(s.drop_first(), k);
    }
}

/// What is found stands somewhere in the list.
pub proof fn lemma_find_some<V>(s: Seq<(Seq<char>, V)>, k: Seq<char>) -> (i: int)
    requires
        find(s, k) is Some,
    ensures
        0 <= i < s.len(),
        s[i] == (k, find(s, k)->0),
    decreases s.len(),
{
    if s[0].0 == k {
        0
    } else {
        lemma_find_some(s.drop_first(), k) + 1
    }
}

/// Setting a key changes what is found for that key, and for no other; for proofs that look
/// into what was set step by step.
pub broadcast proof fn put_is_found<V>(s: Seq<(Seq<char>, V)>, k: Seq<char>, v: V, k2: Seq<char>)
    ensures
        #[trigger] find(put(s, k, v), k2) == (if k2 == k {
            Some(v)
        } else {
            find(s, k2)
        }),
{
    lemma_put_find(s, k, v, k2);
}

/// Setting a key changes what is found for that key, and for no other.
pub proof fn lemma_put_find<V>(s: Seq<(Seq<char>, V)>, k: Seq<char>, v: V, k2: Seq<char>)
    ensures
        find(put(s, k, v), k2) == (if k2 == k {
            Some(v)
        } else {
            find(s, k2)
        }),
    decreases s.len(),
{
    let p = put(s, k, v);
    if s.len() == 0 {
        assert(p.drop_first() =~= s);
    } else if s[0].0 == k {
        assert(p.drop_first() =~= s.drop_first());
    } else if lex_lt(k, s[0].0) {
        assert(p.drop_first() =~= s);
    } else {
        assert(p.drop_first() =~= put(s.drop_first(), k, v));
        lemma_put_find(s.drop_first(), k, v, k2);
    }
}

/// Where setting a key puts it, in a sorted list.
proof fn lemma_put_at<V>(s: Seq<(Seq<char>, V)>, k: Seq<char>, v: V, i: int)
    requires
        0 <= i <= s.len(),
        forall|j: int| 0 <= j < i ==> lex_lt((#[trigger] s[j]).0, k),
        i < s.len() ==> s[i].0 == k || lex_lt(k, s[i].0),
    ensures
        put(s, k, v) == (if i < s.len() && s[i].0 == k {
            s.update(i, (k, v))
        } else {
            s.insert(i, (k, v))
        }),
    decreases s.len(),
{
    if s.len() == 0 {
        assert(s.insert(0, (k, v)) =~= seq![(k, v)]);
    } else if i == 0 {
        if s[0].0 == k {
            assert(put(s, k, v) =~= s.update(0, (k, v)));
        } else {
            assert(put(s, k, v) =~= s.insert(0, (k, v)));
        }
    } else {
        let t = s.drop_first();
        assert(lex_lt(s[0].0, k));
        lemma_lex_irreflexive(k);
        if lex_lt(k, s[0].0) {
            lemma_lex_transitive(k, s[0].0, k);
        }
        assert forall|j: int| 0 <= j < i - 1 implies lex_lt((#[trigger] t[j]).0, k) by {
            assert(t[j] == s[j + 1]);
        }
        lemma_put_at(t, k, v, i - 1);
        if i < s.len() && s[i].0 == k {
            assert(seq![s[0]] + t.update(i - 1, (k, v)) =~= s.update(i, (k, v)));
        } else {
            assert(seq![s[0]] + t.insert(i - 1, (k, v)) =~= s.insert(i, (k, v)));
        }
    }
}

/// A key behind all others is set at the end.
pub proof fn lemma_put_last<V>(s: Seq<(Seq<char>, V)>, k: Seq<char>, v: V)
    requires
        forall|j: int| 0 <= j < s.len() ==> lex_lt((#[trigger] s[j]).0, k),
    ensures
        put(s, k, v) == s.push((k, v)),
{
    lemma_put_at(s, k, v, s.len() as int);
    assert(s.insert(s.len() as int, (k, v)) =~= s.push((k, v)));
}

/// Setting a key keeps the order.
pub proof fn lemma_put_sorted<V>(s: Seq<(Seq<char>, V)>, k: Seq<char>, v: V)
    requires
        sorted_keys(s),
    ensures
        sorted_keys(put(s, k, v)),
    decreases s.len(),
{
    let p = put(s, k, v);
    if s.len() == 0 {
    } else if s[0].0 == k {
        assert forall|i: int, j: int| 0 <= i < j < p.len() implies lex_lt(#[trigger] p[i].0, #[trigger] p[j].0) by {
            assert(p[j] == s[j]);
            assert(p[i].0 == s[i].0);
        }
    } else if lex_lt(k, s[0].0) {
        assert forall|i: int, j: int| 0 <= i < j < p.len() implies lex_lt(#[trigger] p[i].0, #[trigger] p[j].0) by {
            assert(p[j] == s[j - 1]);
            if i > 0 {
                assert(p[i] == s[i - 1]);
            } else if j > 1 {
                lemma_lex_transitive(k, s[0].0, s[j - 1].0);
            }
        }
    } else {
        let t = s.drop_first();
        assert forall|i: int, j: int| 0 <= i < j < t.len() implies lex_lt(#[trigger] t[i].0, #[trigger] t[j].0) by {
            assert(t[i] == s[i + 1] && t[j] == s[j + 1]);
        }
        lemma_put_sorted(t, k, v);
        lemma_lex_total(k, s[0].0);
        let q = put(t, k, v);
        assert forall|i: int, j: int| 0 <= i < j < p.len() implies lex_lt(#[trigger] p[i].0, #[trigger] p[j].0) by {
            assert(p[j] == q[j - 1]);
            if i > 0 {
                assert(p[i] == q[i - 1]);
            } else {
                lemma_put_members(t, k, v, j - 1);
                if q[j - 1].0 != k {
                    let m = choose|m: int| 0 <= m < t.len() && t[m].0 == q[j - 1].0;
                    assert(t[m] == s[m + 1]);
                }
            }
        }
    }
}

/// What is in a list after a key was set was there before, or is what was set.
pub proof fn lemma_put_members<V>(s: Seq<(Seq<char>, V)>, k: Seq<char>, v: V, i: int)
    requires
        0 <= i < put(s, k, v).len(),
    ensures
        put(s, k, v)[i] == (k, v) || s.contains(put(s, k, v)[i]),
    decreases s.len(),
{
    let p = put(s, k, v);
    if s.len() == 0 {
    } else if s[0].0 == k {
        if i > 0 {
            assert(p[i] == s[i]);
        }
    } else if lex_lt(k, s[0].0) {
        if i > 0 {
            assert(p[i] == s[i - 1]);
        }
    } else if i == 0 {
        assert(p[0] == s[0]);
    } else {
        let t = s.drop_first();
        lemma_put_members(t, k, v, i - 1);
        assert(p[i] == put(t, k, v)[i - 1]);
        if t.contains(p[i]) {
            let m = choose|m: int| 0 <= m < t.len() && t[m] == p[i];
            assert(s[m + 1] == p[i]);
        }
    }
}

/// Removing a key changes what is found for that key only, in a sorted list.
pub proof fn lemma_without_find<V>(s: Seq<(Seq<char>, V)>, k: Seq<char>, k2: Seq<char>)
    requires
        sorted_keys(s),
    ensures
        find(without(s, k), k2) == (if k2 == k {
            None
        } else {
            find(s, k2)
        }),
    decreases s.len(),
{
    if s.len() > 0 {
        let t = s.drop_first();
        assert forall|i: int, j: int| 0 <= i < j < t.len() implies lex_lt(#[trigger] t[i].0, #[trigger] t[j].0) by {
            assert(t[i] == s[i + 1] && t[j] == s[j + 1]);
        }
        if s[0].0 == k {
            assert forall|j: int| 0 <= j < t.len() implies (#[trigger] t[j]).0 != k by {
                assert(t[j] == s[j + 1]);
                assert(lex_lt(s[0].0, s[j + 1].0));
                lemma_lex_irreflexive(k);
            }
            lemma_find_none(t, k);
        } else {
            lemma_without_find(t, k, k2);
            assert(without(s, k).drop_first() =~= without(t, k));
        }
    }
}

/// Sending the values through `f` goes along with finding.
pub proof fn lemma_each_find<V, W>(s: Seq<(Seq<char>, V)>, f: spec_fn(V) -> W, k: Seq<char>)
    ensures
        find(each(s, f), k) == (match find(s, k) {
            Some(v) => Some(f(v)),
            None => None,
        }),
    decreases s.len(),
{
    if s.len() > 0 {
        assert(each(s, f).drop_first() =~= each(s.drop_first(), f));
        lemma_each_find(s.drop_first(), f, k);
    }
}

/// Sending the values through `f` goes along with setting a key.
pub proof fn lemma_each_put<V, W>(s: Seq<(Seq<char>, V)>, f: spec_fn(V) -> W, k: Seq<char>, v: V)
    ensures
        each(put(s, k, v), f) == put(each(s, f), k, f(v)),
    decreases s.len(),
{
    let e = each(s, f);
    if s.len() == 0 {
        assert(each(put(s, k, v), f) =~= put(e, k, f(v)));
    } else {
        let t = s.drop_first();
        lemma_each_put(t, f, k, v);
        assert(e.drop_first() =~= each(t, f));
        assert(each(put(s, k, v), f) =~= put(e, k, f(v)));
    }
}

/// Sending the values through `f` goes along with removing a key.
pub proof fn lemma_each_without<V, W>(s: Seq<(Seq<char>, V)>, f: spec_fn(V) -> W, k: Seq<char>)
    ensures
        each(without(s, k), f) == without(each(s, f), k),
    decreases s.len(),
{
    let e = each(s, f);
    if s.len() == 0 {
        assert(each(without(s, k), f) =~= without(e, k));
    } else {
        let t = s.drop_first();
        lemma_each_without(t, f, k);
        assert(e.drop_first() =~= each(t, f));
        assert(each(without(s, k), f) =~= without(e, k));
    }
}

/// Lists in order that find the same are the same.
pub proof fn lemma_sorted_same<V>(s: Seq<(Seq<char>, V)>, t: Seq<(Seq<char>, V)>)
    requires
        sorted_keys(s),
        sorted_keys(t),
        forall|k: Seq<char>| #[trigger] find(s, k) == find(t, k),
    ensures
        s == t,
    decreases s.len(),
{
    if s.len() == 0 {
        if t.len() > 0 {
            assert(find(t, t[0].0) is Some);
            assert(find(s, t[0].0) == find(t, t[0].0));
        }
        assert(s =~= t);
    } else if t.len() == 0 {
        assert(find(s, s[0].0) is Some);
        assert(find(s, s[0].0) == find(t, s[0].0));
    } else {
        let a = s[0].0;
        let b = t[0].0;
        assert(find(s, a) == find(t, a));
        assert(find(s, b) == find(t, b));
        let i = lemma_find_some(t, a);
        let j = lemma_find_some(s, b);
        if a != b {
            assert(lex_lt(t[0].0, t[i].0));
            assert(lex_lt(s[0].0, s[j].0));
            lemma_lex_transitive(a, b, a);
            lemma_lex_irreflexive(a);
        }
        assert(s[0] == t[0]);
        let s1 = s.drop_first();
        let t1 = t.drop_first();
        assert forall|x: int, y: int| 0 <= x < y < s1.len() implies lex_lt(#[trigger] s1[x].0, #[trigger] s1[y].0) by {
            assert(s1[x] == s[x + 1] && s1[y] == s[y + 1]);
        }
        assert forall|x: int, y: int| 0 <= x < y < t1.len() implies lex_lt(#[trigger] t1[x].0, #[trigger] t1[y].0) by {
            assert(t1[x] == t[x + 1] && t1[y] == t[y + 1]);
        }
        assert forall|k: Seq<char>| #[trigger] find(s1, k) == find(t1, k) by {
            if k == a {
                lemma_first_once(s);
                lemma_first_once(t);
            } else {
                assert(find(s, k) == find(t, k));
            }
        }
        lemma_sorted_same(s1, t1);
        assert(s =~= t) by {
            assert(s =~= seq![s[0]] + s1);
            assert(t =~= seq![t[0]] + t1);
        }
    }
}

proof fn lemma_no_earlier<V>(s: Seq<(Seq<char>, V)>, t: Seq<(Seq<char>, V)>, i: int, j: int)
    requires
        sorted_keys(s),
        sorted_keys(t),
        forall|k: int| 0 <= k < s.len() ==> find(t, (#[trigger] s[k]).0) is Some,
        0 <= i < s.len(),
        0 <= j < t.len(),
        t[j].0 == s[i].0,
    ensures
        i <= j,
    decreases i,
{
    if i > 0 {
        let p = lemma_find_some(t, s[i - 1].0);
        assert(lex_lt(s[i - 1].0, s[i].0));
        lemma_lex_irreflexive(s[i].0);
        if j < p {
            assert(lex_lt(t[j].0, t[p].0));
            lemma_lex_transitive(t[j].0, t[p].0, t[j].0);
        }
        lemma_no_earlier(s, t, i - 1, p);
    }
}

proof fn lemma_no_later<V>(s: Seq<(Seq<char>, V)>, t: Seq<(Seq<char>, V)>, i: int, j: int)
    requires
        sorted_keys(s),
        sorted_keys(t),
        s.len() == t.len(),
        forall|k: int| 0 <= k < s.len() ==> find(t, (#[trigger] s[k]).0) is Some,
        0 <= i < s.len(),
        0 <= j < t.len(),
        t[j].0 == s[i].0,
    ensures
        j <= i,
    decreases s.len() - i,
{
    if i + 1 < s.len() {
        let p = lemma_find_some(t, s[i + 1].0);
        assert(lex_lt(s[i].0, s[i + 1].0));
        lemma_lex_irreflexive(s[i].0);
        if p < j {
            assert(lex_lt(t[p].0, t[j].0));
            lemma_lex_transitive(t[j].0, t[p].0, t[j].0);
        }
        lemma_no_later(s, t, i + 1, p);
    }
}

/// Two lists in order, of the same length, where every key of the one is in the other, have
/// the same keys in the same places.
pub proof fn lemma_same_names<V>(s: Seq<(Seq<char>, V)>, t: Seq<(Seq<char>, V)>)
    requires
        sorted_keys(s),
        sorted_keys(t),
        s.len() == t.len(),
        forall|k: int| 0 <= k < s.len() ==> find(t, (#[trigger] s[k]).0) is Some,
    ensures
        forall|i: int|
            0 <= i < s.len() ==> (#[trigger] s[i]).0 == t[i].0 && find(t, s[i].0) == Some(t[i].1),
{
    assert forall|i: int| 0 <= i < s.len() implies (#[trigger] s[i]).0 == t[i].0 && find(t, s[i].0)
        == Some(t[i].1) by {
        let j = lemma_find_some(t, s[i].0);
        lemma_no_earlier(s, t, i, j);
        lemma_no_later(s, t, i, j);
    }
}

/// In a list in order, the first key stands nowhere else.
proof fn lemma_first_once<V>(s: Seq<(Seq<char>, V)>)
    requires
        sorted_keys(s),
        s.len() > 0,
    ensures
        find(s.drop_first(), s[0].0) is None,
{
    let t = s.drop_first();
    assert forall|j: int| 0 <= j < t.len() implies (#[trigger] t[j]).0 != s[0].0 by {
        assert(t[j] == s[j + 1]);
        assert(lex_lt(s[0].0, s[j + 1].0));
        lemma_lex_irreflexive(s[0].0);
    }
    lemma_find_none(t, s[0].0);
}

/// Two keys can be set in either order.
pub proof fn lemma_put_commutes<V>(
    s: Seq<(Seq<char>, V)>,
    a: Seq<char>,
    x: V,
    b: Seq<char>,
    y: V,
)
    requires
        sorted_keys(s),
        a != b,
    ensures
        put(put(s, a, x), b, y) == put(put(s, b, y), a, x),
{
    let p = put(put(s, a, x), b, y);
    let q = put(put(s, b, y), a, x);
    lemma_put_sorted(s, a, x);
    lemma_put_sorted(s, b, y);
    lemma_put_sorted(put(s, a, x), b, y);
    lemma_put_sorted(put(s, b, y), a, x);
    assert forall|k: Seq<char>| #[trigger] find(p, k) == find(q, k) by {
        lemma_put_find(put(s, a, x), b, y, k);
        lemma_put_find(s, a, x, k);
        lemma_put_find(put(s, b, y), a, x, k);
        lemma_put_find(s, b, y, k);
    }
    lemma_sorted_same(p, q);
}

/// Setting a key adds one entry at most.
pub proof fn lemma_put_len<V>(s: Seq<(Seq<char>, V)>, k: Seq<char>, v: V)
    ensures
        put(s, k, v).len() <= s.len() + 1,
    decreases s.len(),
{
    if s.len() > 0 {
        lemma_put_len(s.drop_first(), k, v);
    }
}

/// What stays when a key is removed was there before.
pub proof fn lemma_without_members<V>(s: Seq<(Seq<char>, V)>, k: Seq<char>, i: int)
    requires
        0 <= i < without(s, k).len(),
    ensures
        s.contains(without(s, k)[i]),
    decreases s.len(),
{
    let w = without(s, k);
    let t = s.drop_first();
    if s[0].0 == k {
        assert(s[i + 1] == w[i]);
    } else if i == 0 {
        assert(s[0] == w[i]);
    } else {
        lemma_without_members(t, k, i - 1);
        let m = choose|m: int| 0 <= m < t.len() && t[m] == without(t, k)[i - 1];
        assert(s[m + 1] == w[i]);
    }
}

/// Removing a key keeps the order.
pub proof fn lemma_without_sorted<V>(s: Seq<(Seq<char>, V)>, k: Seq<char>)
    requires
        sorted_keys(s),
    ensures
        sorted_keys(without(s, k)),
{
    if find(s, k) is Some {
        let i = lemma_find_some(s, k);
        assert forall|j: int| 0 <= j < i implies (#[trigger] s[j]).0 != k by {
            assert(lex_lt(s[j].0, s[i].0));
            lemma_lex_irreflexive(k);
        }
        lemma_without_at(s, k, i);
        let q = s.remove(i);
        assert forall|a: int, b: int| 0 <= a < b < q.len() implies lex_lt(#[trigger] q[a].0, #[trigger] q[b].0) by {
            let a2 = if a >= i { a + 1 } else { a };
            let b2 = if b >= i { b + 1 } else { b };
            assert(q[a] == s[a2] && q[b] == s[b2]);
        }
    } else {
        assert forall|j: int| 0 <= j < s.len() implies (#[trigger] s[j]).0 != k by {
            if s[j].0 == k {
                assert forall|x: int| 0 <= x < j implies (#[trigger] s[x]).0 != k by {
                    assert(lex_lt(s[x].0, s[j].0));
                    lemma_lex_irreflexive(k);
                }
                lemma_find_at(s, k, j);
            }
        }
        lemma_without_at(s, k, s.len() as int);
    }
}

/// Setting a key after removing it is setting it.
pub proof fn lemma_put_without<V>(s: Seq<(Seq<char>, V)>, k: Seq<char>, v: V)
    requires
        sorted_keys(s),
    ensures
        put(without(s, k), k, v) == put(s, k, v),
{
    let p = put(without(s, k), k, v);
    let q = put(s, k, v);
    lemma_without_sorted(s, k);
    lemma_put_sorted(without(s, k), k, v);
    lemma_put_sorted(s, k, v);
    assert forall|x: Seq<char>| #[trigger] find(p, x) == find(q, x) by {
        lemma_put_find(without(s, k), k, v, x);
        lemma_put_find(s, k, v, x);
        lemma_without_find(s, k, x);
    }
    lemma_sorted_same(p, q);
}

/// The association list that entries hold.
pub open spec fn pairs<V>(e: Seq<(String, V)>) -> Seq<(Seq<char>, V)> {
    Seq::new(e.len(), |i: int| (e[i].0@, e[i].1))
}

/// Finds the place of a key among sorted entries: where it stands, or where it
/// would have to be inserted.
pub(crate) fn place_of<V>(entries: &Vec<(String, V)>, key: &str) -> (r: (bool, usize))
    requires
        sorted_keys(pairs(entries@)),
    ensures
        r.1 <= entries@.len(),
        r.0 ==> r.1 < entries@.len() && entries@[r.1 as int].0@ == key@,
        forall|j: int| 0 <= j < r.1 ==> lex_lt((#[trigger] entries@[j]).0@, key@),
        !r.0 && r.1 < entries@.len() ==> lex_lt(key@, entries@[r.1 as int].0@),
        forall|j: int|
            0 <= j < (if r.0 {
                r.1 as int
            } else {
                entries@.len() as int
            }) ==> (#[trigger] pairs(entries@)[j]).0 != key@,
        r.0 == (find(pairs(entries@), key@) is Some),
        r.0 ==> find(pairs(entries@), key@) == Some(entries@[r.1 as int].1),
        forall|v: V|
            #[trigger] put(pairs(entries@), key@, v) == (if r.0 {
                pairs(entries@).update(r.1 as int, (key@, v))
            } else {
                pairs(entries@).insert(r.1 as int, (key@, v))
            }),
{
    let ghost p = pairs(entries@);
    let mut i: usize = 0;
    while i < entries.len() && before(entries[i].0.as_str(), key)
        invariant
            i <= entries@.len(),
            forall|j: int| 0 <= j < i ==> lex_lt((#[trigger] entries@[j]).0@, key@),
        decreases entries@.len() - i,
    {
        i = i + 1;
    }
    let found = i < entries.len() && same(entries[i].0.as_str(), key);
    proof {
        assert forall|j: int| 0 <= j < i implies (#[trigger] p[j]).0 != key@ by {
            assert(lex_lt(entries@[j].0@, key@));
            lemma_lex_irreflexive(key@);
        }
        if i < entries@.len() {
            lemma_lex_total(key@, entries@[i as int].0@);
            assert(p[i as int].0 == entries@[i as int].0@);
        }
        if found {
            lemma_find_at(p, key@, i as int);
        } else {
            assert forall|j: int| 0 <= j < p.len() implies (#[trigger] p[j]).0 != key@ by {
                if j >= i {
                    if j > i {
                        assert(lex_lt(p[i as int].0, p[j].0));
                        lemma_lex_transitive(key@, p[i as int].0, p[j].0);
                    }
                    lemma_lex_irreflexive(key@);
                }
            }
            lemma_find_none(p, key@);
        }
        assert forall|v: V|
            #[trigger] put(p, key@, v) == (if found {
                p.update(i as int, (key@, v))
            } else {
                p.insert(i as int, (key@, v))
            }) by {
            assert forall|j: int| 0 <= j < i implies lex_lt((#[trigger] p[j]).0, key@) by {
                assert(lex_lt(entries@[j].0@, key@));
            }
            lemma_put_at(p, key@, v, i as int);
        }
    }
    (found, i)
}

/// A map from strings to values of type `V`.
pub struct StrMap<V> {
    entries: Vec<(String, V)>,
}

impl<V> StrMap<V> {
    /// The entries, in the order of their keys.
    pub closed spec fn view(&self) -> Seq<(Seq<char>, V)> {
        pairs(self.entries@)
    }

    #[verifier::type_invariant]
    spec fn inv(self) -> bool {
        sorted_keys(self@)
    }

    /// The empty map.
    pub fn new() -> (r: Self)
        ensures
            r@ == Seq::<(Seq<char>, V)>::empty(),
    {
        let entries: Vec<(String, V)> = Vec::new();
        assert(pairs(entries@) =~= Seq::<(Seq<char>, V)>::empty());
        StrMap { entries }
    }

    /// The number of keys.
    pub fn len(&self) -> (r: usize)
        ensures
            r == self@.len(),
    {
        self.entries.len()
    }

    /// The keys strictly increase.
    pub fn ordered(&self)
        ensures
            sorted_keys(self@),
    {
        proof {
            use_type_invariant(self);
        }
    }

    /// The value of a key.
    pub fn get(&self, key: &str) -> (r: Option<&V>)
        ensures
            (match r {
                Some(v) => find(self@, key@) == Some(*v),
                None => find(self@, key@) is None,
            }),
    {
        proof {
            use_type_invariant(self);
        }
        let (found, i) = place_of(&self.entries, key);
        if found {
            Some(&self.entries[i].1)
        } else {
            None
        }
    }

    /// Whether a key is there.
    pub fn has(&self, key: &str) -> (r: bool)
        ensures
            r == (find(self@, key@) is Some),
    {
        proof {
            use_type_invariant(self);
        }
        place_of(&self.entries, key).0
    }

    /// The key at a position.
    pub fn key_at(&self, i: usize) -> (r: &String)
        requires
            i < self@.len(),
        ensures
            r@ == self@[i as int].0,
    {
        &self.entries[i].0
    }

    /// The value at a position.
    pub fn value_at(&self, i: usize) -> (r: &V)
        requires
            i < self@.len(),
        ensures
            *r == self@[i as int].1,
    {
        &self.entries[i].1
    }

    /// Sets a key to a value.
    pub fn insert(&mut self, key: String, value: V)
        ensures
            final(self)@ == put(old(self)@, key@, value),
    {
        proof {
            use_type_invariant(&*self);
        }
        let mut entries: Vec<(String, V)> = Vec::new();
        assert(pairs(entries@) =~= Seq::<(Seq<char>, V)>::empty());
        std::mem::swap(&mut entries, &mut self.entries);
        let ghost p = pairs(entries@);
        let (found, i) = place_of(&entries, key.as_str());
        proof {
            lemma_put_sorted(p, key@, value);
            let _ = put(p, key@, value);
        }
        let ghost before_entries = entries@;
        if found {
            let ghost k = key@;
            entries.set(i, (key, value));
            assert(pairs(entries@) =~= p.update(i as int, (k, value)));
        } else {
            let ghost k = key@;
            entries.insert(i, (key, value));
            assert(pairs(entries@) =~= p.insert(i as int, (k, value)));
        }
        self.entries = entries;
    }

    /// Removes a key, and returns what it had.
    pub fn remove(&mut self, key: &str) -> (r: Option<V>)
        ensures
            r == find(old(self)@, key@),
            final(self)@ == without(old(self)@, key@),
    {
        proof {
            use_type_invariant(&*self);
        }
        let mut entries: Vec<(String, V)> = Vec::new();
        assert(pairs(entries@) =~= Seq::<(Seq<char>, V)>::empty());
        std::mem::swap(&mut entries, &mut self.entries);
        let ghost p = pairs(entries@);
        let (found, i) = place_of(&entries, key);
        let mut out: Option<V> = None;
        if found {
            let e = entries.remove(i);
            out = Some(e.1);
            assert(pairs(entries@) =~= p.remove(i as int));
        }
        proof {
            lemma_without_at(p, key@, if found { i as int } else { p.len() as int });
            assert(sorted_keys(pairs(entries@))) by {
                let q = pairs(entries@);
                assert forall|a: int, b: int| 0 <= a < b < q.len() implies lex_lt(#[trigger] q[a].0, #[trigger] q[b].0) by {
                    let a2 = if found && a >= i { a + 1 } else { a };
                    let b2 = if found && b >= i { b + 1 } else { b };
                    assert(q[a] == p[a2] && q[b] == p[b2]);
                }
            }
        }
        self.entries = entries;
        out
    }

    /// Removes the key at a position.
    pub fn remove_at(&mut self, i: usize)
        requires
            i < old(self)@.len(),
        ensures
            final(self)@ == old(self)@.remove(i as int),
    {
        proof {
            use_type_invariant(&*self);
        }
        let mut entries: Vec<(String, V)> = Vec::new();
        assert(pairs(entries@) =~= Seq::<(Seq<char>, V)>::empty());
        std::mem::swap(&mut entries, &mut self.entries);
        let ghost p = pairs(entries@);
        entries.remove(i);
        assert(pairs(entries@) =~= p.remove(i as int));
        proof {
            let q = pairs(entries@);
            assert forall|a: int, b: int| 0 <= a < b < q.len() implies lex_lt(#[trigger] q[a].0, #[trigger] q[b].0) by {
                let a2 = if a >= i { a + 1 } else { a };
                let b2 = if b >= i { b + 1 } else { b };
                assert(q[a] == p[a2] && q[b] == p[b2]);
            }
        }
        self.entries = entries;
    }

    /// Removes every key.
    pub fn clear(&mut self)
        ensures
            final(self)@ == Seq::<(Seq<char>, V)>::empty(),
    {
        let entries: Vec<(String, V)> = Vec::new();
        assert(pairs(entries@) =~= Seq::<(Seq<char>, V)>::empty());
        self.entries = entries;
    }
}

/// What removing the first occurrence of a key does.
pub proof fn lemma_without_at<V>(s: Seq<(Seq<char>, V)>, k: Seq<char>, i: int)
    requires
        0 <= i <= s.len(),
        forall|j: int| 0 <= j < i ==> (#[trigger] s[j]).0 != k,
        i < s.len() ==> s[i].0 == k,
    ensures
        without(s, k) == (if i < s.len() {
            s.remove(i)
        } else {
            s
        }),
    decreases s.len(),
{
    if s.len() > 0 {
        if i == 0 {
            assert(s.drop_first() =~= s.remove(0));
        } else {
            let t = s.drop_first();
            assert(s[0].0 != k);
            assert forall|j: int| 0 <= j < i - 1 implies (#[trigger] t[j]).0 != k by {
                assert(t[j] == s[j + 1]);
            }
            lemma_without_at(t, k, i - 1);
            if i < s.len() {
                assert(seq![s[0]] + t.remove(i - 1) =~= s.remove(i));
            } else {
                assert(seq![s[0]] + t =~= s);
            }
        }
    }
}

} // verus!
