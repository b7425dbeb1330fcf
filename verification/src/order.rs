//! The order in which device rows are listed: connected rows first, then by
//! name. Rows that tie keep the order they came in.

use vstd::prelude::*;

use crate::text::chars_of;

verus! {

/// `a` comes before `b` in the order of their code points.
pub open spec fn text_lt(a: Seq<char>, b: Seq<char>) -> bool
    decreases a.len(),
{
    if b.len() == 0 {
        false
    } else if a.len() == 0 {
        true
    } else if a[0] != b[0] {
        (a[0] as u32) < (b[0] as u32)
    } else {
        text_lt(a.skip(1), b.skip(1))
    }
}

/// Whether `a` comes before `b` in the order of their code points.
pub fn text_before(a: &[char], b: &[char]) -> (r: bool)
    ensures
        r == text_lt(a@, b@),
{
    let mut i: usize = 0;
    assert(a@.skip(0) =~= a@);
    assert(b@.skip(0) =~= b@);
    while i < a.len() && i < b.len()
        invariant
            i <= a@.len(),
            i <= b@.len(),
            text_lt(a@, b@) == text_lt(a@.skip(i as int), b@.skip(i as int)),
        decreases a@.len() - i,
    {
        let x: char = a[i];
        let y: char = b[i];
        if x != y {
            return (x as u32) < (y as u32);
        }
        assert(a@.skip(i as int).skip(1) =~= a@.skip(i + 1));
        assert(b@.skip(i as int).skip(1) =~= b@.skip(i + 1));
        i = i + 1;
    }
    i < b.len()
}

/// What a row is listed by.
pub struct RowKey {
    pub connected: bool,
    /// The row's name in lower case.
    pub name: String,
}

impl View for RowKey {
    type V = (bool, Seq<char>);

    open spec fn view(&self) -> (bool, Seq<char>) {
        (self.connected, self.name@)
    }
}

/// A row with key `a` is listed before one with key `b`, whatever order they
/// came in.
pub open spec fn key_before(a: (bool, Seq<char>), b: (bool, Seq<char>)) -> bool {
    (a.0 && !b.0) || (a.0 == b.0 && text_lt(a.1, b.1))
}

/// Puts `x` behind every row that does not have to come after it.
pub open spec fn insert_row<T>(
    s: Seq<(T, (bool, Seq<char>))>,
    x: (T, (bool, Seq<char>)),
) -> Seq<(T, (bool, Seq<char>))>
    decreases s.len(),
{
    if s.len() > 0 && key_before(x.1, s.last().1) {
        insert_row(s.drop_last(), x).push(s.last())
    } else {
        s.push(x)
    }
}

/// Keyed rows in listing order.
pub open spec fn listed<T>(s: Seq<(T, (bool, Seq<char>))>) -> Seq<(T, (bool, Seq<char>))>
    decreases s.len(),
{
    if s.len() == 0 {
        s
    } else {
        insert_row(listed(s.drop_last()), s.last())
    }
}

/// Rows next to their keys.
pub open spec fn keyed<T>(rows: Seq<T>, keys: Seq<(bool, Seq<char>)>) -> Seq<
    (T, (bool, Seq<char>)),
> {
    Seq::new(rows.len(), |i: int| (rows[i], keys[i]))
}

/// The rows alone.
pub open spec fn rows_of<T>(s: Seq<(T, (bool, Seq<char>))>) -> Seq<T> {
    s.map_values(|p: (T, (bool, Seq<char>))| p.0)
}

/// Rows in listing order.
pub open spec fn in_order<T>(rows: Seq<T>, keys: Seq<(bool, Seq<char>)>) -> Seq<T> {
    rows_of(listed(keyed(rows, keys)))
}

/// The keys of some rows.
pub open spec fn key_views(keys: Seq<RowKey>) -> Seq<(bool, Seq<char>)> {
    keys.map_values(|k: RowKey| k@)
}

fn before(a: &RowKey, b: &RowKey) -> (r: bool)
    ensures
        r == key_before(a@, b@),
{
    if a.connected != b.connected {
        return a.connected;
    }
    let x = chars_of(a.name.as_str());
    let y = chars_of(b.name.as_str());
    text_before(&x, &y)
}

/// Puts rows in listing order; `keys` gives the key of each row.
pub fn sort_rows<T>(rows: Vec<T>, keys: Vec<RowKey>) -> (r: Vec<T>)
    requires
        rows@.len() == keys@.len(),
    ensures
        r@ == in_order(rows@, key_views(keys@)),
{
    let ghost all = keyed(rows@, key_views(keys@));
    let mut src = rows;
    let mut src_keys = keys;
    let mut out: Vec<T> = Vec::new();
    let mut out_keys: Vec<RowKey> = Vec::new();
    let ghost mut done: int = 0;
    assert(all.take(0) =~= Seq::empty());
    assert(keyed(out@, key_views(out_keys@)) =~= Seq::empty());
    assert(rows@.skip(0) =~= rows@);
    assert(keys@.skip(0) =~= keys@);
    while src.len() > 0
        invariant
            all == keyed(rows@, key_views(keys@)),
            rows@.len() == keys@.len(),
            0 <= done <= all.len(),
            src@ == rows@.skip(done),
            src_keys@ == keys@.skip(done),
            out@.len() == done,
            out_keys@.len() == done,
            keyed(out@, key_views(out_keys@)) == listed(all.take(done)),
        decreases src@.len(),
    {
        let x = src.remove(0);
        let k = src_keys.remove(0);
        let ghost sorted = keyed(out@, key_views(out_keys@));
        let ghost item = (x, k@);
        let mut j: usize = out.len();
        assert(sorted.take(j as int) =~= sorted);
        assert(insert_row(sorted.take(j as int), item) + sorted.skip(j as int) =~= insert_row(
            sorted,
            item,
        ));
        while j > 0 && before(&k, &out_keys[j - 1])
            invariant
                j <= out@.len(),
                out@.len() == out_keys@.len(),
                sorted == keyed(out@, key_views(out_keys@)),
                item == (x, k@),
                insert_row(sorted, item) == insert_row(sorted.take(j as int), item) + sorted.skip(
                    j as int,
                ),
            decreases j,
        {
            proof {
                let t = sorted.take(j as int);
                assert(t.last() == sorted[j - 1]);
                assert(t.drop_last() =~= sorted.take(j - 1));
                assert(insert_row(t, item) + sorted.skip(j as int) =~= insert_row(
                    sorted.take(j - 1),
                    item,
                ) + sorted.skip(j - 1));
            }
            j = j - 1;
        }
        proof {
            let t = sorted.take(j as int);
            if j > 0 {
                assert(t.last() == sorted[j - 1]);
            }
            assert(insert_row(t, item) == t.push(item));
        }
        out.insert(j, x);
        out_keys.insert(j, k);
        proof {
            assert(keyed(out@, key_views(out_keys@)) =~= sorted.take(j as int).push(item)
                + sorted.skip(j as int));
            assert(all.take(done + 1).drop_last() =~= all.take(done));
            assert(all.take(done + 1).last() == item);
            assert(src@ =~= rows@.skip(done + 1));
            assert(src_keys@ =~= keys@.skip(done + 1));
            done = done + 1;
        }
    }
    assert(all.take(done) =~= all);
    assert(out@ =~= rows_of(keyed(out@, key_views(out_keys@))));
    out
}

/// Keyed rows with another value in place of each row.
pub open spec fn map_rows<T, U>(s: Seq<(T, (bool, Seq<char>))>, f: spec_fn(T) -> U) -> Seq<
    (U, (bool, Seq<char>)),
> {
    s.map_values(|p: (T, (bool, Seq<char>))| (f(p.0), p.1))
}

proof fn lemma_insert_row_map<T, U>(
    s: Seq<(T, (bool, Seq<char>))>,
    x: (T, (bool, Seq<char>)),
    f: spec_fn(T) -> U,
)
    ensures
        insert_row(map_rows(s, f), (f(x.0), x.1)) == map_rows(insert_row(s, x), f),
    decreases s.len(),
{
    let m = map_rows(s, f);
    if s.len() > 0 && key_before(x.1, s.last().1) {
        lemma_insert_row_map(s.drop_last(), x, f);
        assert(m.drop_last() =~= map_rows(s.drop_last(), f));
        assert(map_rows(insert_row(s.drop_last(), x), f).push((f(s.last().0), s.last().1))
            =~= map_rows(insert_row(s.drop_last(), x).push(s.last()), f));
    } else {
        assert(m.push((f(x.0), x.1)) =~= map_rows(s.push(x), f));
    }
}

proof fn lemma_listed_map<T, U>(s: Seq<(T, (bool, Seq<char>))>, f: spec_fn(T) -> U)
    ensures
        listed(map_rows(s, f)) == map_rows(listed(s), f),
    decreases s.len(),
{
    if s.len() > 0 {
        lemma_listed_map(s.drop_last(), f);
        assert(map_rows(s, f).drop_last() =~= map_rows(s.drop_last(), f));
        lemma_insert_row_map(listed(s.drop_last()), s.last(), f);
    } else {
        assert(listed(map_rows(s, f)) =~= map_rows(listed(s), f));
    }
}

/// Listing depends on the keys alone: it moves whatever stands for the rows in
/// the same way.
pub proof fn law_listing_looks_at_keys_only<T, U>(
    rows: Seq<T>,
    keys: Seq<(bool, Seq<char>)>,
    f: spec_fn(T) -> U,
)
    ensures
        in_order(rows.map_values(f), keys) == in_order(rows, keys).map_values(f),
{
    lemma_listed_map(keyed(rows, keys), f);
    assert(keyed(rows.map_values(f), keys) =~= map_rows(keyed(rows, keys), f));
    let l = listed(keyed(rows, keys));
    assert(rows_of(map_rows(l, f)) =~= rows_of(l).map_values(f));
}

// --------------------------------------------------------------------- laws

proof fn lemma_text_lt_irreflexive(a: Seq<char>)
    ensures
        !text_lt(a, a),
    decreases a.len(),
{
    if a.len() > 0 {
        lemma_text_lt_irreflexive(a.skip(1));
    }
}

proof fn lemma_text_lt_transitive(a: Seq<char>, b: Seq<char>, c: Seq<char>)
    requires
        text_lt(a, b),
        text_lt(b, c),
    ensures
        text_lt(a, c),
    decreases a.len(),
{
    if a.len() > 0 && a[0] == b[0] && b[0] == c[0] {
        lemma_text_lt_transitive(a.skip(1), b.skip(1), c.skip(1));
    }
}

proof fn lemma_text_lt_total(a: Seq<char>, b: Seq<char>)
    ensures
        a == b || text_lt(a, b) || text_lt(b, a),
    decreases a.len(),
{
    if a.len() == 0 || b.len() == 0 {
        if a.len() == b.len() {
            assert(a =~= b);
        }
    } else if a[0] == b[0] {
        lemma_text_lt_total(a.skip(1), b.skip(1));
        if a.skip(1) == b.skip(1) {
            assert(a =~= seq![a[0]] + a.skip(1));
            assert(b =~= seq![b[0]] + b.skip(1));
        }
    } else {
        vstd::utf8::char_u32_cast(a[0], a[0] as u32);
        vstd::utf8::char_u32_cast(b[0], b[0] as u32);
    }
}

/// Names are strictly and totally ordered: no name comes before itself, the
/// order is transitive, and of two different names one comes first.
pub proof fn law_text_order_is_strict_and_total(a: Seq<char>, b: Seq<char>, c: Seq<char>)
    ensures
        !text_lt(a, a),
        text_lt(a, b) && text_lt(b, c) ==> text_lt(a, c),
        a == b || text_lt(a, b) || text_lt(b, a),
{
    lemma_text_lt_irreflexive(a);
    lemma_text_lt_total(a, b);
    if text_lt(a, b) && text_lt(b, c) {
        lemma_text_lt_transitive(a, b, c);
    }
}

proof fn lemma_key_before(
    a: (bool, Seq<char>),
    b: (bool, Seq<char>),
    c: (bool, Seq<char>),
)
    ensures
        !key_before(a, a),
        key_before(a, b) && key_before(b, c) ==> key_before(a, c),
        a == b || key_before(a, b) || key_before(b, a),
{
    law_text_order_is_strict_and_total(a.1, b.1, c.1);
}

/// No row stands before one that has to come ahead of it.
pub open spec fn is_listed<T>(s: Seq<(T, (bool, Seq<char>))>) -> bool {
    forall|i: int, j: int| 0 <= i < j < s.len() ==> !key_before(#[trigger] s[j].1, #[trigger] s[i].1)
}

proof fn lemma_insert_row_is_listed<T>(
    s: Seq<(T, (bool, Seq<char>))>,
    x: (T, (bool, Seq<char>)),
)
    requires
        is_listed(s),
    ensures
        is_listed(insert_row(s, x)),
        insert_row(s, x).to_multiset() =~= s.to_multiset().insert(x),
    decreases s.len(),
{
    broadcast use vstd::seq_lib::group_to_multiset_ensures;

    if s.len() > 0 && key_before(x.1, s.last().1) {
        let t = s.drop_last();
        let r = insert_row(t, x);
        lemma_insert_row_is_listed(t, x);
        assert(s =~= t.push(s.last()));
        let out = r.push(s.last());
        assert forall|i: int, j: int| 0 <= i < j < out.len() implies !key_before(
            #[trigger] out[j].1,
            #[trigger] out[i].1,
        ) by {
            if j == out.len() - 1 {
                assert(r.to_multiset().count(r[i]) > 0) by {
                    assert(r.contains(r[i]));
                }
                assert(t.to_multiset().insert(x).count(r[i]) > 0);
                if r[i] == x {
                    lemma_key_before(x.1, s.last().1, x.1);
                } else {
                    assert(t.contains(r[i]));
                    let k = choose|k: int| 0 <= k < t.len() && t[k] == r[i];
                    assert(s[k] == r[i]);
                    assert(!key_before(s[s.len() - 1].1, s[k].1));
                }
            }
        }
    } else if s.len() > 0 {
        let out = s.push(x);
        assert forall|i: int, j: int| 0 <= i < j < out.len() implies !key_before(
            #[trigger] out[j].1,
            #[trigger] out[i].1,
        ) by {
            if j == s.len() && i < s.len() - 1 {
                assert(!key_before(s[s.len() - 1].1, s[i].1));
                lemma_key_before(s[s.len() - 1].1, x.1, s[i].1);
                lemma_key_before(x.1, s[i].1, s.last().1);
                lemma_key_before(s[i].1, s.last().1, x.1);
                if s[i].1 == s.last().1 {
                } else if x.1 == s.last().1 {
                }
            }
        }
    }
}

/// Listing keeps the rows, each as often as it was there, and leaves no row
/// before one that has to come ahead of it.
pub proof fn law_listing_sorts<T>(s: Seq<(T, (bool, Seq<char>))>)
    ensures
        is_listed(listed(s)),
        listed(s).to_multiset() =~= s.to_multiset(),
        listed(s).len() == s.len(),
    decreases s.len(),
{
    broadcast use vstd::seq_lib::group_to_multiset_ensures;

    if s.len() > 0 {
        law_listing_sorts(s.drop_last());
        lemma_insert_row_is_listed(listed(s.drop_last()), s.last());
        assert(s =~= s.drop_last().push(s.last()));
    }
    assert(listed(s).to_multiset().len() == listed(s).len());
    assert(s.to_multiset().len() == s.len());
}

/// The rows with one key, in the order they stand in.
pub open spec fn with_key<T>(s: Seq<(T, (bool, Seq<char>))>, k: (bool, Seq<char>)) -> Seq<
    (T, (bool, Seq<char>)),
> {
    s.filter(|p: (T, (bool, Seq<char>))| p.1 == k)
}

proof fn lemma_with_key_push<T>(
    s: Seq<(T, (bool, Seq<char>))>,
    x: (T, (bool, Seq<char>)),
    k: (bool, Seq<char>),
)
    ensures
        with_key(s.push(x), k) == if x.1 == k {
            with_key(s, k).push(x)
        } else {
            with_key(s, k)
        },
{
    assert(s.push(x).drop_last() =~= s);
    reveal(Seq::filter);
}

proof fn lemma_insert_row_is_stable<T>(
    s: Seq<(T, (bool, Seq<char>))>,
    x: (T, (bool, Seq<char>)),
    k: (bool, Seq<char>),
)
    ensures
        with_key(insert_row(s, x), k) == with_key(s.push(x), k),
    decreases s.len(),
{
    if s.len() > 0 && key_before(x.1, s.last().1) {
        let t = s.drop_last();
        lemma_insert_row_is_stable(t, x, k);
        assert(s =~= t.push(s.last()));
        lemma_with_key_push(insert_row(t, x), s.last(), k);
        lemma_with_key_push(t, x, k);
        lemma_with_key_push(t, s.last(), k);
        lemma_with_key_push(s, x, k);
        lemma_key_before(k, k, k);
    }
}

/// Listing is stable: rows that tie keep the order they came in.
pub proof fn law_listing_is_stable<T>(s: Seq<(T, (bool, Seq<char>))>, k: (bool, Seq<char>))
    ensures
        with_key(listed(s), k) == with_key(s, k),
    decreases s.len(),
{
    if s.len() > 0 {
        law_listing_is_stable(s.drop_last(), k);
        lemma_insert_row_is_stable(listed(s.drop_last()), s.last(), k);
        lemma_with_key_push(listed(s.drop_last()), s.last(), k);
        lemma_with_key_push(s.drop_last(), s.last(), k);
        assert(s =~= s.drop_last().push(s.last()));
    }
}

/// Each row of a list was there before.
pub proof fn lemma_in_order_from<T>(rows: Seq<T>, keys: Seq<(bool, Seq<char>)>, i: int) -> (j: int)
    requires
        0 <= i < in_order(rows, keys).len(),
    ensures
        0 <= j < rows.len(),
        rows[j] == in_order(rows, keys)[i],
{
    broadcast use vstd::seq_lib::group_to_multiset_ensures;

    let s = keyed(rows, keys);
    law_listing_sorts(s);
    let p = listed(s)[i];
    assert(listed(s).contains(p));
    assert(s.to_multiset().count(p) > 0);
    assert(s.contains(p));
    let j = choose|j: int| 0 <= j < s.len() && s[j] == p;
    assert(rows[j] == s[j].0);
    j
}

/// Each row that was there is in the list.
pub proof fn lemma_in_order_has<T>(rows: Seq<T>, keys: Seq<(bool, Seq<char>)>, j: int) -> (i: int)
    requires
        0 <= j < rows.len(),
    ensures
        0 <= i < in_order(rows, keys).len(),
        in_order(rows, keys)[i] == rows[j],
        in_order(rows, keys).len() == rows.len(),
{
    broadcast use vstd::seq_lib::group_to_multiset_ensures;

    let s = keyed(rows, keys);
    law_listing_sorts(s);
    assert(s.contains(s[j]));
    assert(listed(s).to_multiset().count(s[j]) > 0);
    assert(listed(s).contains(s[j]));
    let i = choose|i: int| 0 <= i < listed(s).len() && listed(s)[i] == s[j];
    assert(in_order(rows, keys)[i] == listed(s)[i].0);
    i
}

/// Of two rows in the list, the later one is not connected where the earlier one is not;
/// and of two that are alike in this, the later one's name does not come before.
pub proof fn lemma_in_order_sorted<T>(
    rows: Seq<T>,
    keys: Seq<(bool, Seq<char>)>,
    i: int,
    j: int,
) -> (r: (int, int))
    requires
        0 <= i < j < in_order(rows, keys).len(),
    ensures
        0 <= r.0 < rows.len(),
        0 <= r.1 < rows.len(),
        rows[r.0] == in_order(rows, keys)[i],
        rows[r.1] == in_order(rows, keys)[j],
        keys[r.1].0 ==> keys[r.0].0,
        keys[r.0].0 == keys[r.1].0 ==> !text_lt(keys[r.1].1, keys[r.0].1),
{
    broadcast use vstd::seq_lib::group_to_multiset_ensures;

    let s = keyed(rows, keys);
    let l = listed(s);
    law_listing_sorts(s);
    assert(l.contains(l[i]) && l.contains(l[j]));
    assert(s.to_multiset().count(l[i]) > 0 && s.to_multiset().count(l[j]) > 0);
    assert(s.contains(l[i]) && s.contains(l[j]));
    let a = choose|a: int| 0 <= a < s.len() && s[a] == l[i];
    let b = choose|b: int| 0 <= b < s.len() && s[b] == l[j];
    assert(!key_before(l[j].1, l[i].1));
    (a, b)
}

proof fn lemma_text_lt_at(a: Seq<char>, b: Seq<char>) -> (k: int)
    requires
        text_lt(a, b),
    ensures
        0 <= k <= a.len(),
        k < b.len(),
        a.take(k) == b.take(k),
        k == a.len() || (a[k] as u32) < (b[k] as u32),
    decreases a.len(),
{
    if a.len() == 0 || a[0] != b[0] {
        assert(a.take(0) =~= b.take(0));
        0
    } else {
        let k = lemma_text_lt_at(a.skip(1), b.skip(1));
        assert(a.take(k + 1) =~= seq![a[0]] + a.skip(1).take(k));
        assert(b.take(k + 1) =~= seq![b[0]] + b.skip(1).take(k));
        k + 1
    }
}

proof fn lemma_at_text_lt(a: Seq<char>, b: Seq<char>, k: int)
    requires
        0 <= k <= a.len(),
        k < b.len(),
        a.take(k) == b.take(k),
        k == a.len() || (a[k] as u32) < (b[k] as u32),
    ensures
        text_lt(a, b),
    decreases k,
{
    if k > 0 {
        assert(a[0] == a.take(k)[0] && b[0] == b.take(k)[0]);
        assert(a.skip(1).take(k - 1) =~= a.take(k).skip(1));
        assert(b.skip(1).take(k - 1) =~= b.take(k).skip(1));
        lemma_at_text_lt(a.skip(1), b.skip(1), k - 1);
        assert(a[0] == b[0]);
        assert(text_lt(a, b));
    } else if a.len() > 0 {
        assert(a[0] != b[0]);
    }
}

/// A name comes before another if and only if, at the first place where they differ, it
/// ends or has the smaller code point.
pub proof fn law_text_order_is_that_of_code_points(a: Seq<char>, b: Seq<char>)
    ensures
        text_lt(a, b) <==> exists|k: int|
            #![trigger a.take(k)]
            0 <= k <= a.len() && k < b.len() && a.take(k) == b.take(k) && (k == a.len() || (
            a[k] as u32) < (b[k] as u32)),
{
    if text_lt(a, b) {
        let k = lemma_text_lt_at(a, b);
        assert(a.take(k) == b.take(k));
    }
    if exists|k: int|
        #![trigger a.take(k)]
        0 <= k <= a.len() && k < b.len() && a.take(k) == b.take(k) && (k == a.len() || (
        a[k] as u32) < (b[k] as u32)) {
        let k = choose|k: int|
            #![trigger a.take(k)]
            0 <= k <= a.len() && k < b.len() && a.take(k) == b.take(k) && (k == a.len() || (
            a[k] as u32) < (b[k] as u32));
        lemma_at_text_lt(a, b, k);
    }
}

proof fn lemma_insert_row_multiset<T>(
    s: Seq<(T, (bool, Seq<char>))>,
    x: (T, (bool, Seq<char>)),
)
    ensures
        rows_of(insert_row(s, x)).to_multiset() =~= rows_of(s).to_multiset().insert(x.0),
    decreases s.len(),
{
    broadcast use vstd::seq_lib::group_to_multiset_ensures;

    if s.len() > 0 && key_before(x.1, s.last().1) {
        let t = s.drop_last();
        lemma_insert_row_multiset(t, x);
        assert(rows_of(insert_row(t, x).push(s.last())) =~= rows_of(insert_row(t, x)).push(
            s.last().0,
        ));
        assert(rows_of(s) =~= rows_of(t).push(s.last().0));
    } else {
        assert(rows_of(s.push(x)) =~= rows_of(s).push(x.0));
    }
}

proof fn lemma_listed_multiset<T>(s: Seq<(T, (bool, Seq<char>))>)
    ensures
        rows_of(listed(s)).to_multiset() =~= rows_of(s).to_multiset(),
    decreases s.len(),
{
    broadcast use vstd::seq_lib::group_to_multiset_ensures;

    if s.len() > 0 {
        lemma_listed_multiset(s.drop_last());
        lemma_insert_row_multiset(listed(s.drop_last()), s.last());
        assert(rows_of(s) =~= rows_of(s.drop_last()).push(s.last().0));
    }
}

/// A list holds each row as often as it was there.
pub proof fn law_listing_keeps_rows<T>(rows: Seq<T>, keys: Seq<(bool, Seq<char>)>)
    ensures
        in_order(rows, keys).to_multiset() =~= rows.to_multiset(),
        in_order(rows, keys).len() == rows.len(),
{
    let s = keyed(rows, keys);
    lemma_listed_multiset(s);
    law_listing_sorts(s);
    assert(rows_of(s) =~= rows);
}

/// A row that was there once is there once.
pub proof fn lemma_in_order_once<T>(
    rows: Seq<T>,
    keys: Seq<(bool, Seq<char>)>,
    at: int,
    i: int,
    j: int,
)
    requires
        0 <= at < rows.len(),
        forall|k: int| 0 <= k < rows.len() && #[trigger] rows[k] == rows[at] ==> k == at,
        0 <= i < in_order(rows, keys).len(),
        0 <= j < in_order(rows, keys).len(),
        in_order(rows, keys)[i] == rows[at],
        in_order(rows, keys)[j] == rows[at],
    ensures
        i == j,
{
    broadcast use vstd::seq_lib::group_to_multiset_ensures;

    let r = in_order(rows, keys);
    let x = rows[at];
    law_listing_keeps_rows(rows, keys);
    let rest = rows.remove(at);
    assert(!rest.contains(x)) by {
        if rest.contains(x) {
            let k = choose|k: int| 0 <= k < rest.len() && rest[k] == x;
            if k < at {
                assert(rows[k] == x);
            } else {
                assert(rows[k + 1] == x);
            }
        }
    }
    assert(rest.to_multiset() =~= rows.to_multiset().remove(x));
    assert(rest.to_multiset().count(x) == 0);
    assert(rows.contains(x));
    assert(rows.to_multiset().count(x) == 1);
    if i != j {
        let q = r.remove(i);
        assert(q.to_multiset() =~= r.to_multiset().remove(x));
        if j < i {
            assert(q[j] == x);
        } else {
            assert(q[j - 1] == x);
        }
        assert(q.contains(x));
    }
}

} // verus!
