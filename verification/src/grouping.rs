//! Groups of rows that share a key.

use vstd::prelude::*;

verus! {

/// Rows next to what they are grouped by.
pub open spec fn with_keys<K, T>(rows: Seq<T>, keys: Seq<K>) -> Seq<(K, T)> {
    Seq::new(rows.len(), |i: int| (keys[i], rows[i]))
}

/// The rows alone.
pub open spec fn rows<K, T>(s: Seq<(K, T)>) -> Seq<T> {
    s.map_values(|p: (K, T)| p.1)
}

/// A row has key `k`.
pub open spec fn in_group<K, T>(k: K) -> spec_fn((K, T)) -> bool {
    |p: (K, T)| p.0 == k
}

/// The group with key `k`: its rows in the order they came in.
pub open spec fn group<K, T>(s: Seq<(K, T)>, k: K) -> Seq<(K, T)> {
    s.filter(in_group(k))
}

/// The keys in the order in which they first occur.
pub open spec fn first_keys<K, T>(s: Seq<(K, T)>) -> Seq<K>
    decreases s.len(),
{
    if s.len() == 0 {
        Seq::empty()
    } else {
        let f = first_keys(s.drop_last());
        if f.contains(s.last().0) {
            f
        } else {
            f.push(s.last().0)
        }
    }
}

/// Every row of `s` has key `k`.
pub open spec fn all_keyed<K, T>(s: Seq<(K, T)>, k: K) -> bool {
    forall|i: int| 0 <= i < s.len() ==> (#[trigger] s[i]).0 == k
}

pub proof fn lemma_group_is_keyed<K, T>(s: Seq<(K, T)>, k: K)
    ensures
        all_keyed(group(s, k), k),
        forall|i: int| 0 <= i < group(s, k).len() ==> s.contains(#[trigger] group(s, k)[i]),
{
    let f = in_group::<K, T>(k);
    let g = s.filter(f);
    assert forall|i: int| 0 <= i < g.len() implies (#[trigger] g[i]).0 == k && s.contains(g[i]) by {
        s.lemma_filter_pred(f, i);
        assert(g.contains(g[i]));
        s.lemma_filter_contains_rev(f, g[i]);
    }
}

pub proof fn lemma_first_keys<K, T>(s: Seq<(K, T)>)
    ensures
        first_keys(s).no_duplicates(),
        forall|i: int| 0 <= i < s.len() ==> first_keys(s).contains((#[trigger] s[i]).0),
        forall|k: K| #[trigger]
            first_keys(s).contains(k) ==> exists|i: int| 0 <= i < s.len() && (#[trigger] s[i]).0 == k,
    decreases s.len(),
{
    if s.len() > 0 {
        let t = s.drop_last();
        let f = first_keys(t);
        let out = first_keys(s);
        lemma_first_keys(t);
        assert forall|i: int| 0 <= i < s.len() implies out.contains((#[trigger] s[i]).0) by {
            if i < t.len() {
                assert(t[i] == s[i]);
                let j = choose|j: int| 0 <= j < f.len() && f[j] == t[i].0;
                assert(out[j] == s[i].0);
            } else if !f.contains(s.last().0) {
                assert(out[f.len() as int] == s[i].0);
            }
        }
        assert forall|k: K| #[trigger] out.contains(k) implies exists|i: int|
            0 <= i < s.len() && (#[trigger] s[i]).0 == k by {
            if f.contains(k) {
                let i = choose|i: int| 0 <= i < t.len() && (#[trigger] t[i]).0 == k;
                assert(s[i].0 == k);
            } else {
                assert(s[s.len() - 1].0 == k);
            }
        }
    }
}

/// A list whose rows all have key `other` has no group with key `k`.
pub proof fn lemma_group_of_uniform<K, T>(s: Seq<(K, T)>, other: K, k: K)
    requires
        all_keyed(s, other),
    ensures
        group(s, k) == if k == other {
            s
        } else {
            Seq::empty()
        },
    decreases s.len(),
{
    reveal(Seq::filter);
    if s.len() > 0 {
        assert(s[s.len() - 1].0 == other);
        assert forall|i: int| 0 <= i < s.drop_last().len() implies (#[trigger] s.drop_last()[i]).0
            == other by {
            assert(s[i].0 == other);
        }
        lemma_group_of_uniform(s.drop_last(), other, k);
        assert(s.drop_last().push(s.last()) =~= s);
    }
}

pub proof fn lemma_group_add<K, T>(
    a: Seq<(K, T)>,
    b: Seq<(K, T)>,
    k: K,
)
    ensures
        group(a + b, k) == group(a, k) + group(b, k),
{
    Seq::filter_distributes_over_add(a, b, in_group::<K, T>(k));
}

/// Rows of one key appended to others join the group of that key.
pub proof fn lemma_group_append<K, T>(
    head: Seq<(K, T)>,
    tail: Seq<(K, T)>,
    last: K,
    k: K,
)
    requires
        all_keyed(tail, last),
    ensures
        group(head + tail, k) == if k == last {
            group(head, k) + tail
        } else {
            group(head, k)
        },
{
    lemma_group_add(head, tail, k);
    lemma_group_of_uniform(tail, last, k);
    if k != last {
        assert(group(head, k) + group(tail, k) =~= group(head, k));
    }
}

pub proof fn lemma_drop_last_contains<K>(order: Seq<K>, k: K)
    requires
        order.len() > 0,
        order.no_duplicates(),
    ensures
        order.drop_last().no_duplicates(),
        order.contains(order.last()),
        order.drop_last().contains(k) == (order.contains(k) && k != order.last()),
{
    let o = order.drop_last();
    assert(order[order.len() - 1] == order.last());
    if order.contains(k) && k != order.last() {
        let i = choose|i: int| 0 <= i < order.len() && order[i] == k;
        assert(o[i] == k);
    }
    if o.contains(k) {
        let i = choose|i: int| 0 <= i < o.len() && o[i] == k;
        assert(order[i] == k);
    }
}

/// Rows of one key appended to others add that key, unless it was there.
pub proof fn lemma_first_keys_add_uniform<K, T>(
    a: Seq<(K, T)>,
    b: Seq<(K, T)>,
    k: K,
)
    requires
        all_keyed(b, k),
        b.len() > 0,
        !first_keys(a).contains(k),
    ensures
        first_keys(a + b) == first_keys(a).push(k),
    decreases b.len(),
{
    let t = b.drop_last();
    assert((a + b).drop_last() =~= a + t);
    assert((a + b).last() == b.last());
    assert(b[b.len() - 1].0 == k);
    if t.len() == 0 {
        assert(a + t =~= a);
    } else {
        assert forall|i: int| 0 <= i < t.len() implies (#[trigger] t[i]).0 == k by {
            assert(b[i].0 == k);
        }
        lemma_first_keys_add_uniform(a, t, k);
        assert(first_keys(a).push(k)[first_keys(a).len() as int] == k);
    }
}

} // verus!
