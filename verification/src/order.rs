//! Stable ordering of records by a text key.
//!
//! An ordering of `n` keys is a sequence of the indices `0..n`. It is the
//! stable order when every index occurs in it and each index comes before
//! every later one either by a smaller key or, for equal keys, by its smaller
//! position in the input. That order exists, is unique, and is what
//! [`stable_order`] computes by merging.

use vstd::prelude::*;
use crate::text::{
    chars_of, ordinal_less, ordinal_lt, ordinal_lt_connected, ordinal_lt_irreflexive,
    ordinal_lt_transitive,
};

verus! {

/// The keys held by a vector of character vectors.
pub open spec fn keys_of(v: Seq<Vec<char>>) -> Seq<Seq<char>> {
    Seq::new(v.len(), |i: int| v[i]@)
}

/// The indices held by a vector of machine integers.
pub open spec fn indices_of(v: Seq<usize>) -> Seq<int> {
    Seq::new(v.len(), |i: int| v[i] as int)
}

/// Record `i` goes before record `j`: its key is smaller, or the keys are
/// equal and `i` is the earlier of the two.
pub open spec fn precedes(keys: Seq<Seq<char>>, i: int, j: int) -> bool {
    ordinal_lt(keys[i], keys[j]) || (keys[i] == keys[j] && i < j)
}

/// `order` lists each index of `lo..hi` and every earlier element of it
/// precedes every later one.
pub open spec fn orders_range(keys: Seq<Seq<char>>, lo: int, hi: int, order: Seq<int>) -> bool {
    &&& order.len() == hi - lo
    &&& forall|k: int| 0 <= k < order.len() ==> lo <= #[trigger] order[k] < hi
    &&& forall|i: int| lo <= i < hi ==> #[trigger] order.contains(i)
    &&& forall|a: int, b: int|
        0 <= a < b < order.len() ==> precedes(keys, #[trigger] order[a], #[trigger] order[b])
}

/// `order` is the stable order of all of `keys`.
pub open spec fn is_stable_order(keys: Seq<Seq<char>>, order: Seq<int>) -> bool {
    orders_range(keys, 0, keys.len() as int, order)
}

/// `items` rearranged as `order` says.
pub open spec fn arranged<T>(items: Seq<T>, order: Seq<int>) -> Seq<T> {
    Seq::new(order.len(), |k: int| items[order[k]])
}

/// The texts held by a vector of strings.
pub open spec fn texts_of(v: Seq<String>) -> Seq<Seq<char>> {
    Seq::new(v.len(), |i: int| v[i]@)
}

/// The keys of a vector of key and value pairs.
pub open spec fn pair_keys(v: Seq<(String, String)>) -> Seq<Seq<char>> {
    Seq::new(v.len(), |i: int| v[i].0@)
}

/// The values of a vector of key and value pairs.
pub open spec fn pair_values(v: Seq<(String, String)>) -> Seq<Seq<char>> {
    Seq::new(v.len(), |i: int| v[i].1@)
}

/// `out` holds `items` in the stable order of `keys`: ascending by key, items
/// of equal keys in the order in which `items` holds them.
pub open spec fn is_sorted_by<T>(items: Seq<T>, keys: Seq<Seq<char>>, out: Seq<T>) -> bool {
    exists|order: Seq<int>| is_stable_order(keys, order) && out == arranged(items, order)
}

/// Nothing precedes itself.
pub proof fn precedes_irreflexive(keys: Seq<Seq<char>>, i: int)
    ensures
        !precedes(keys, i, i),
{
    ordinal_lt_irreflexive(keys[i]);
}

/// Of two records that precede each other in turn, the first precedes the third.
pub proof fn precedes_transitive(keys: Seq<Seq<char>>, i: int, j: int, k: int)
    requires
        precedes(keys, i, j),
        precedes(keys, j, k),
    ensures
        precedes(keys, i, k),
{
    if ordinal_lt(keys[i], keys[j]) && ordinal_lt(keys[j], keys[k]) {
        ordinal_lt_transitive(keys[i], keys[j], keys[k]);
    }
}

/// Two different records are ordered one way or the other.
pub proof fn precedes_connected(keys: Seq<Seq<char>>, i: int, j: int)
    requires
        i != j,
    ensures
        precedes(keys, i, j) || precedes(keys, j, i),
{
    if keys[i] != keys[j] {
        ordinal_lt_connected(keys[i], keys[j]);
    }
}

/// No two records precede each other.
pub proof fn precedes_asymmetric(keys: Seq<Seq<char>>, i: int, j: int)
    requires
        precedes(keys, i, j),
    ensures
        !precedes(keys, j, i),
{
    if precedes(keys, j, i) {
        precedes_transitive(keys, i, j, i);
        precedes_irreflexive(keys, i);
    }
}

/// The stable order of a sequence of keys is unique.
pub proof fn stable_order_is_unique(keys: Seq<Seq<char>>, p: Seq<int>, q: Seq<int>)
    requires
        is_stable_order(keys, p),
        is_stable_order(keys, q),
    ensures
        p == q,
{
    assert forall|i: int| 0 <= i < p.len() implies p[i] == q[i] by {
        agree_up_to(keys, p, q, i);
    }
    assert(p =~= q);
}

proof fn agree_up_to(keys: Seq<Seq<char>>, p: Seq<int>, q: Seq<int>, i: int)
    requires
        is_stable_order(keys, p),
        is_stable_order(keys, q),
        0 <= i < p.len(),
    ensures
        p[i] == q[i],
    decreases i,
{
    assert forall|k: int| 0 <= k < i implies p[k] == q[k] by {
        agree_up_to(keys, p, q, k);
    }
    let m = p[i];
    let n = q[i];
    if m != n {
        assert(q.contains(m));
        let j = choose|j: int| 0 <= j < q.len() && q[j] == m;
        assert(p.contains(n));
        let h = choose|h: int| 0 <= h < p.len() && p[h] == n;
        // Both lie beyond `i`: before it the two orders agree, and neither
        // order holds an index twice.
        if j < i {
            assert(p[j] == m);
            assert(precedes(keys, p[j], p[i]));
            precedes_irreflexive(keys, m);
        }
        if h < i {
            assert(q[h] == n);
            assert(precedes(keys, q[h], q[i]));
            precedes_irreflexive(keys, n);
        }
        assert(precedes(keys, q[i], q[j]));
        assert(precedes(keys, p[i], p[h]));
        precedes_asymmetric(keys, m, n);
    }
}

/// Sorting by key has one result only.
pub proof fn sorting_is_unique<T>(items: Seq<T>, keys: Seq<Seq<char>>, a: Seq<T>, b: Seq<T>)
    requires
        is_sorted_by(items, keys, a),
        is_sorted_by(items, keys, b),
    ensures
        a == b,
{
    let p = choose|p: Seq<int>| is_stable_order(keys, p) && a == arranged(items, p);
    let q = choose|q: Seq<int>| is_stable_order(keys, q) && b == arranged(items, q);
    stable_order_is_unique(keys, p, q);
}

/// What sorting by key keeps and what it orders: the result holds each item
/// once for each time the input holds it, here told by position: every
/// position of the input is the source of exactly one position of the result;
/// and keys never descend along the result.
pub proof fn sorting_keeps_and_orders(keys: Seq<Seq<char>>, order: Seq<int>)
    requires
        is_stable_order(keys, order),
    ensures
        order.len() == keys.len(),
        forall|i: int| 0 <= i < keys.len() ==> #[trigger] order.contains(i),
        forall|a: int, b: int|
            0 <= a < b < order.len() ==> #[trigger] order[a] != #[trigger] order[b],
        forall|a: int, b: int|
            0 <= a < b < order.len() ==> !ordinal_lt(
                keys[#[trigger] order[b]],
                keys[#[trigger] order[a]],
            ),
{
    assert forall|a: int, b: int| 0 <= a < b < order.len() implies #[trigger] order[a]
        != #[trigger] order[b] && !ordinal_lt(keys[order[b]], keys[order[a]]) by {
        assert(precedes(keys, order[a], order[b]));
        precedes_asymmetric(keys, order[a], order[b]);
        precedes_irreflexive(keys, order[a]);
    }
}

/// Merges the stable orders of two adjacent index ranges into that of their union.
fn merge(
    keys: &Vec<Vec<char>>,
    left: &Vec<usize>,
    right: &Vec<usize>,
    Ghost(lo): Ghost<int>,
    Ghost(mid): Ghost<int>,
    Ghost(hi): Ghost<int>,
) -> (out: Vec<usize>)
    requires
        0 <= lo <= mid <= hi <= keys.len(),
        orders_range(keys_of(keys@), lo, mid, indices_of(left@)),
        orders_range(keys_of(keys@), mid, hi, indices_of(right@)),
    ensures
        orders_range(keys_of(keys@), lo, hi, indices_of(out@)),
{
    let ghost ks = keys_of(keys@);
    let ghost l = indices_of(left@);
    let ghost r = indices_of(right@);
    let mut out: Vec<usize> = Vec::new();
    let mut a: usize = 0;
    let mut b: usize = 0;
    while a < left.len() || b < right.len()
        invariant
            0 <= lo <= mid <= hi <= keys.len(),
            ks == keys_of(keys@),
            l == indices_of(left@),
            r == indices_of(right@),
            orders_range(ks, lo, mid, l),
            orders_range(ks, mid, hi, r),
            a <= left.len(),
            b <= right.len(),
            out.len() == a + b,
            forall|k: int| 0 <= k < out.len() ==> lo <= #[trigger] out@[k] < hi,
            forall|x: int| 0 <= x < a ==> indices_of(out@).contains(#[trigger] l[x]),
            forall|y: int| 0 <= y < b ==> indices_of(out@).contains(#[trigger] r[y]),
            forall|i: int, j: int|
                0 <= i < j < out.len() ==> precedes(
                    ks,
                    #[trigger] out@[i] as int,
                    #[trigger] out@[j] as int,
                ),
            forall|k: int, x: int|
                0 <= k < out.len() && a <= x < left.len() ==> precedes(
                    ks,
                    #[trigger] out@[k] as int,
                    #[trigger] l[x],
                ),
            forall|k: int, y: int|
                0 <= k < out.len() && b <= y < right.len() ==> precedes(
                    ks,
                    #[trigger] out@[k] as int,
                    #[trigger] r[y],
                ),
        decreases left.len() - a + right.len() - b,
    {
        let from_left: bool = if a == left.len() {
            false
        } else if b == right.len() {
            true
        } else {
            let li: usize = left[a];
            let ri: usize = right[b];
            assert(l[a as int] == li && r[b as int] == ri);
            !ordinal_less(&keys[ri], &keys[li])
        };
        let ghost before = indices_of(out@);
        if from_left {
            let x: usize = left[a];
            proof {
                assert(l[a as int] == x);
                assert forall|y: int| b <= y < right.len() implies precedes(
                    ks,
                    x as int,
                    #[trigger] r[y],
                ) by {
                    precedes_connected(ks, x as int, r[b as int]);
                    if y > b {
                        assert(precedes(ks, r[b as int], r[y]));
                        precedes_transitive(ks, x as int, r[b as int], r[y]);
                    }
                }
                assert forall|z: int| a < z < left.len() implies precedes(
                    ks,
                    x as int,
                    #[trigger] l[z],
                ) by {
                    assert(precedes(ks, l[a as int], l[z]));
                }
            }
            out.push(x);
            a += 1;
        } else {
            let y: usize = right[b];
            proof {
                assert(r[b as int] == y);
                assert forall|x: int| a <= x < left.len() implies precedes(
                    ks,
                    y as int,
                    #[trigger] l[x],
                ) by {
                    assert(l[a as int] == left@[a as int]);
                    if x > a {
                        assert(precedes(ks, l[a as int], l[x]));
                        precedes_transitive(ks, y as int, l[a as int], l[x]);
                    }
                }
                assert forall|z: int| b < z < right.len() implies precedes(
                    ks,
                    y as int,
                    #[trigger] r[z],
                ) by {
                    assert(precedes(ks, r[b as int], r[z]));
                }
            }
            out.push(y);
            b += 1;
        }
        proof {
            let after = indices_of(out@);
            let last = out.len() - 1;
            assert forall|v: int| before.contains(v) implies after.contains(v) by {
                let k = choose|k: int| 0 <= k < before.len() && before[k] == v;
                assert(after[k] == v);
            }
            assert(after.contains(after[last]));
        }
    }
    proof {
        let o = indices_of(out@);
        assert forall|i: int| lo <= i < hi implies #[trigger] o.contains(i) by {
            if i < mid {
                assert(l.contains(i));
                let x = choose|x: int| 0 <= x < l.len() && l[x] == i;
                assert(o.contains(l[x]));
            } else {
                assert(r.contains(i));
                let y = choose|y: int| 0 <= y < r.len() && r[y] == i;
                assert(o.contains(r[y]));
            }
        }
        assert forall|i: int, j: int| 0 <= i < j < o.len() implies precedes(
            ks,
            #[trigger] o[i],
            #[trigger] o[j],
        ) by {
            assert(precedes(ks, out@[i] as int, out@[j] as int));
        }
    }
    out
}

/// Orders the records `lo..hi` by merging the orders of the two halves.
fn order_range(keys: &Vec<Vec<char>>, lo: usize, hi: usize) -> (out: Vec<usize>)
    requires
        lo <= hi <= keys.len(),
    ensures
        orders_range(keys_of(keys@), lo as int, hi as int, indices_of(out@)),
    decreases hi - lo,
{
    if hi - lo <= 1 {
        let mut out: Vec<usize> = Vec::new();
        if lo < hi {
            out.push(lo);
            assert(indices_of(out@)[0] == lo);
        }
        out
    } else {
        let mid: usize = lo + (hi - lo) / 2;
        let left = order_range(keys, lo, mid);
        let right = order_range(keys, mid, hi);
        merge(keys, &left, &right, Ghost(lo as int), Ghost(mid as int), Ghost(hi as int))
    }
}

/// Computes the stable order of `keys`: the indices `0..keys.len()`, by
/// ascending key, equal keys in their input order.
pub fn stable_order(keys: &Vec<Vec<char>>) -> (order: Vec<usize>)
    ensures
        is_stable_order(keys_of(keys@), indices_of(order@)),
{
    order_range(keys, 0, keys.len())
}

/// Lays `items` out as `order` says, copying each text.
fn arrange(items: &Vec<String>, order: &Vec<usize>) -> (out: Vec<String>)
    requires
        forall|k: int| 0 <= k < order.len() ==> #[trigger] order@[k] < items.len(),
    ensures
        texts_of(out@) == arranged(texts_of(items@), indices_of(order@)),
{
    let mut out: Vec<String> = Vec::new();
    let mut k: usize = 0;
    while k < order.len()
        invariant
            k <= order.len(),
            out.len() == k,
            forall|j: int| 0 <= j < order.len() ==> #[trigger] order@[j] < items.len(),
            forall|j: int| 0 <= j < k ==> #[trigger] out@[j]@ == items@[order@[j] as int]@,
        decreases order.len() - k,
    {
        let i: usize = order[k];
        out.push(items[i].clone());
        k += 1;
    }
    assert(texts_of(out@) =~= arranged(texts_of(items@), indices_of(order@)));
    out
}

/// Sorts `names` in ascending ordinal order.
pub fn sorted(names: &Vec<String>) -> (out: Vec<String>)
    ensures
        is_sorted_by(texts_of(names@), texts_of(names@), texts_of(out@)),
{
    let mut keys: Vec<Vec<char>> = Vec::new();
    let mut i: usize = 0;
    while i < names.len()
        invariant
            i <= names.len(),
            keys.len() == i,
            forall|j: int| 0 <= j < i ==> #[trigger] keys@[j]@ == names@[j]@,
        decreases names.len() - i,
    {
        keys.push(chars_of(names[i].as_str()));
        i += 1;
    }
    assert(keys_of(keys@) =~= texts_of(names@));
    let order = stable_order(&keys);
    assert forall|k: int| 0 <= k < order.len() implies #[trigger] order@[k] < names.len() by {
        assert(indices_of(order@)[k] < keys.len());
    }
    arrange(names, &order)
}

/// Sorts the values of `records` by their keys, in ascending ordinal order;
/// values of equal keys stay in the order in which `records` holds them.
pub fn sorted_by_key(records: &Vec<(String, String)>) -> (out: Vec<String>)
    ensures
        is_sorted_by(pair_values(records@), pair_keys(records@), texts_of(out@)),
{
    let mut keys: Vec<Vec<char>> = Vec::new();
    let mut values: Vec<String> = Vec::new();
    let mut i: usize = 0;
    while i < records.len()
        invariant
            i <= records.len(),
            keys.len() == i,
            values.len() == i,
            forall|j: int| 0 <= j < i ==> #[trigger] keys@[j]@ == records@[j].0@,
            forall|j: int| 0 <= j < i ==> #[trigger] values@[j]@ == records@[j].1@,
        decreases records.len() - i,
    {
        keys.push(chars_of(records[i].0.as_str()));
        values.push(records[i].1.clone());
        i += 1;
    }
    assert(keys_of(keys@) =~= pair_keys(records@));
    assert(texts_of(values@) =~= pair_values(records@));
    let order = stable_order(&keys);
    assert forall|k: int| 0 <= k < order.len() implies #[trigger] order@[k] < values.len() by {
        assert(indices_of(order@)[k] < keys.len());
    }
    arrange(&values, &order)
}

} // verus!
