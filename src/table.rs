//! Amount tables: a sequence of `(key, amount)` rows with distinct keys,
//! read as a map in which a missing key stands for the amount zero.
use vstd::prelude::*;

verus! {

/// No key occurs in two rows.
pub open spec fn unique_keys<K>(s: Seq<(K, u128)>) -> bool {
    forall|i: int, j: int| 0 <= i < s.len() && 0 <= j < s.len() && i != j ==> s[i].0 != s[j].0
}

/// The map that the rows describe.
pub open spec fn table_map<K>(s: Seq<(K, u128)>) -> Map<K, u128>
    decreases s.len(),
{
    if s.len() == 0 {
        Map::empty()
    } else {
        table_map(s.drop_last()).insert(s.last().0, s.last().1)
    }
}

/// The sum of the amounts of all rows.
pub open spec fn amount_sum<K>(s: Seq<(K, u128)>) -> nat
    decreases s.len(),
{
    if s.len() == 0 {
        0
    } else {
        (amount_sum(s.drop_last()) + s.last().1) as nat
    }
}

/// The amount recorded under `k`, zero where there is none.
pub open spec fn lookup<K>(m: Map<K, u128>, k: K) -> u128 {
    if m.contains_key(k) {
        m[k]
    } else {
        0
    }
}

/// A key that no row holds is absent from the map.
pub proof fn lemma_absent<K>(s: Seq<(K, u128)>, k: K)
    requires
        forall|i: int| 0 <= i < s.len() ==> s[i].0 != k,
    ensures
        !table_map(s).contains_key(k),
    decreases s.len(),
{
    if s.len() > 0 {
        lemma_absent(s.drop_last(), k);
    }
}

/// Each row's amount is what the map holds under its key.
pub proof fn lemma_row<K>(s: Seq<(K, u128)>, i: int)
    requires
        unique_keys(s),
        0 <= i < s.len(),
    ensures
        table_map(s).contains_key(s[i].0),
        table_map(s)[s[i].0] == s[i].1,
    decreases s.len(),
{
    if i < s.len() - 1 {
        lemma_row(s.drop_last(), i);
    }
}

/// Replacing the amount of row `i` replaces it in the map.
pub proof fn lemma_update<K>(s: Seq<(K, u128)>, i: int, v: u128)
    requires
        unique_keys(s),
        0 <= i < s.len(),
    ensures
        table_map(s.update(i, (s[i].0, v))) == table_map(s).insert(s[i].0, v),
        unique_keys(s.update(i, (s[i].0, v))),
        amount_sum(s.update(i, (s[i].0, v))) + s[i].1 == amount_sum(s) + v,
    decreases s.len(),
{
    let t = s.update(i, (s[i].0, v));
    if i == s.len() - 1 {
        assert(t.drop_last() =~= s.drop_last());
        lemma_absent(s.drop_last(), s[i].0);
        assert(table_map(t) =~= table_map(s).insert(s[i].0, v));
    } else {
        let d = s.drop_last();
        assert(t.drop_last() =~= d.update(i, (d[i].0, v)));
        lemma_update(d, i, v);
        assert(table_map(t) =~= table_map(s).insert(s[i].0, v));
    }
}

/// Adding a row with a new key adds that key to the map.
pub proof fn lemma_push<K>(s: Seq<(K, u128)>, k: K, v: u128)
    requires
        unique_keys(s),
        forall|i: int| 0 <= i < s.len() ==> s[i].0 != k,
    ensures
        table_map(s.push((k, v))) == table_map(s).insert(k, v),
        unique_keys(s.push((k, v))),
        amount_sum(s.push((k, v))) == amount_sum(s) + v,
{
    assert(s.push((k, v)).drop_last() =~= s);
}

/// No row holds more than the sum, and two rows together hold no more than it.
pub proof fn lemma_sum_bound<K>(s: Seq<(K, u128)>, i: int, j: int)
    requires
        0 <= i < s.len(),
        0 <= j < s.len(),
    ensures
        s[i].1 <= amount_sum(s),
        i != j ==> s[i].1 + s[j].1 <= amount_sum(s),
    decreases s.len(),
{
    let n = s.len() - 1;
    if i < n && j < n {
        lemma_sum_bound(s.drop_last(), i, j);
    } else if i < n {
        lemma_sum_bound(s.drop_last(), i, i);
    } else if j < n {
        lemma_sum_bound(s.drop_last(), j, j);
    }
}

/// Rows that all hold zero sum to zero.
pub proof fn lemma_zero_sum<K>(s: Seq<(K, u128)>)
    requires
        forall|i: int| 0 <= i < s.len() ==> s[i].1 == 0,
    ensures
        amount_sum(s) == 0,
    decreases s.len(),
{
    if s.len() > 0 {
        lemma_zero_sum(s.drop_last());
    }
}

/// Taking out row `i` takes its key out of the map and its amount out of the sum.
pub proof fn lemma_remove<K>(s: Seq<(K, u128)>, i: int)
    requires
        unique_keys(s),
        0 <= i < s.len(),
    ensures
        unique_keys(s.remove(i)),
        table_map(s.remove(i)) == table_map(s).remove(s[i].0),
        amount_sum(s.remove(i)) + s[i].1 == amount_sum(s),
    decreases s.len(),
{
    let t = s.remove(i);
    let d = s.drop_last();
    if i == s.len() - 1 {
        assert(t =~= d);
        lemma_absent(d, s[i].0);
        assert(table_map(t) =~= table_map(s).remove(s[i].0));
    } else {
        assert(t.drop_last() =~= d.remove(i));
        assert(t.last() == s.last());
        lemma_remove(d, i);
        assert(table_map(t) =~= table_map(s).remove(s[i].0));
    }
}

/// The sum depends on the map alone, not on the order or number of rows.
pub proof fn lemma_sum_by_lookup<K>(s: Seq<(K, u128)>, t: Seq<(K, u128)>)
    requires
        unique_keys(s),
        unique_keys(t),
        forall|x: K| lookup(table_map(s), x) == lookup(table_map(t), x),
    ensures
        amount_sum(s) == amount_sum(t),
    decreases s.len(),
{
    if s.len() == 0 {
        assert forall|j: int| 0 <= j < t.len() implies t[j].1 == 0 by {
            lemma_row(t, j);
            assert(lookup(table_map(s), t[j].0) == lookup(table_map(t), t[j].0));
        }
        lemma_zero_sum(t);
    } else {
        let k = s.last().0;
        let v = s.last().1;
        let d = s.drop_last();
        lemma_absent(d, k);
        assert(lookup(table_map(s), k) == lookup(table_map(t), k));
        if exists|j: int| 0 <= j < t.len() && t[j].0 == k {
            let j = choose|j: int| 0 <= j < t.len() && t[j].0 == k;
            lemma_row(t, j);
            lemma_remove(t, j);
            let r = t.remove(j);
            assert forall|x: K| lookup(table_map(d), x) == lookup(table_map(r), x) by {
                assert(lookup(table_map(s), x) == lookup(table_map(t), x));
            }
            lemma_sum_by_lookup(d, r);
        } else {
            lemma_absent(t, k);
            assert forall|x: K| lookup(table_map(d), x) == lookup(table_map(t), x) by {
                assert(lookup(table_map(s), x) == lookup(table_map(t), x));
            }
            lemma_sum_by_lookup(d, t);
        }
    }
}

/// Where a map differs from another only in the amount under `k`, its sum
/// differs by as much.
pub proof fn lemma_sum_after_set<K>(s: Seq<(K, u128)>, t: Seq<(K, u128)>, k: K, v: u128)
    requires
        unique_keys(s),
        unique_keys(t),
        forall|x: K|
            lookup(table_map(t), x) == if x == k {
                v
            } else {
                lookup(table_map(s), x)
            },
    ensures
        amount_sum(t) + lookup(table_map(s), k) == amount_sum(s) + v,
{
    if exists|i: int| 0 <= i < s.len() && s[i].0 == k {
        let i = choose|i: int| 0 <= i < s.len() && s[i].0 == k;
        lemma_row(s, i);
        lemma_update(s, i, v);
        let u = s.update(i, (s[i].0, v));
        assert forall|x: K| lookup(table_map(u), x) == lookup(table_map(t), x) by {}
        lemma_sum_by_lookup(u, t);
    } else {
        lemma_absent(s, k);
        lemma_push(s, k, v);
        let u = s.push((k, v));
        assert forall|x: K| lookup(table_map(u), x) == lookup(table_map(t), x) by {}
        lemma_sum_by_lookup(u, t);
    }
}

/// Some rows describe the map with the amount under `k` replaced by `v`.
pub proof fn lemma_set_row<K>(s: Seq<(K, u128)>, k: K, v: u128) -> (u: Seq<(K, u128)>)
    requires
        unique_keys(s),
    ensures
        unique_keys(u),
        forall|x: K|
            lookup(table_map(u), x) == if x == k {
                v
            } else {
                lookup(table_map(s), x)
            },
{
    if exists|i: int| 0 <= i < s.len() && s[i].0 == k {
        let i = choose|i: int| 0 <= i < s.len() && s[i].0 == k;
        lemma_update(s, i, v);
        s.update(i, (s[i].0, v))
    } else {
        lemma_push(s, k, v);
        s.push((k, v))
    }
}

} // verus!
