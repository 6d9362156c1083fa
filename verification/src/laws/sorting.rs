//! Laws of the order on values and of sorting: what comes out of a sort is
//! in ascending order and holds what went in.

use vstd::prelude::*;
use vstd::seq_lib::{to_multiset_build, to_multiset_remove};
use crate::value::{Val, Order, val_order, seq_order, bytes_order, int_order, rank};
use crate::sort::{insertion_point, sorted_upto, sorted_by_key, sorted_vals};

verus! {

/// The outcome of a comparison with its two sides exchanged.
pub open spec fn flipped(o: Order) -> Order {
    match o {
        Order::Less => Order::Greater,
        Order::Equal => Order::Equal,
        Order::Greater => Order::Less,
    }
}

/// Comparing bytes the other way round gives the opposite outcome.
pub proof fn bytes_order_flips(x: Seq<u8>, y: Seq<u8>, i: int)
    ensures
        bytes_order(y, x, i) == flipped(bytes_order(x, y, i)),
    decreases x.len() - i,
{
    if 0 <= i < x.len() && i < y.len() && x[i] == y[i] {
        bytes_order_flips(x, y, i + 1);
    }
}

/// Comparing values the other way round gives the opposite outcome.
pub proof fn val_order_flips(a: Val, b: Val)
    ensures
        val_order(b, a) == flipped(val_order(a, b)),
    decreases a, 0int,
{
    match (a, b) {
        (Val::Arr(xs), Val::Arr(ys)) => {
            seq_order_flips(xs, ys, 0);
        },
        (Val::Str(x), Val::Str(y)) => {
            bytes_order_flips(x, y, 0);
        },
        (Val::Blk(x), Val::Blk(y)) => {
            bytes_order_flips(x, y, 0);
        },
        _ => {},
    }
}

/// Comparing sequences of values the other way round gives the opposite
/// outcome.
pub proof fn seq_order_flips(xs: Seq<Val>, ys: Seq<Val>, i: int)
    ensures
        seq_order(ys, xs, i) == flipped(seq_order(xs, ys, i)),
    decreases xs, xs.len() - i,
{
    if 0 <= i < xs.len() && i < ys.len() {
        val_order_flips(xs[i], ys[i]);
        if val_order(xs[i], ys[i]) == Order::Equal {
            seq_order_flips(xs, ys, i + 1);
        }
    }
}

/// Whether the value at index `i` is not greater than the one behind it.
pub open spec fn in_order_at(ks: Seq<Val>, i: int) -> bool {
    val_order(ks[i], ks[i + 1]) != Order::Greater
}

/// Values in ascending order: no value is greater than the one behind it.
pub open spec fn ascending(ks: Seq<Val>) -> bool {
    forall|i: int| 0 <= i < ks.len() - 1 ==> #[trigger] in_order_at(ks, i)
}

/// Where a key goes: not in front of a key that is not greater, and in
/// front of all the keys that are greater.
pub proof fn insertion_point_divides(ks: Seq<Val>, k: Val, n: int)
    requires
        0 <= n <= ks.len(),
    ensures
        0 <= insertion_point(ks, k, n) <= n,
        insertion_point(ks, k, n) > 0 ==> val_order(ks[insertion_point(ks, k, n) - 1], k)
            != Order::Greater,
        forall|j: int|
            insertion_point(ks, k, n) <= j < n ==> val_order(#[trigger] ks[j], k) == Order::Greater,
    decreases n,
{
    if n > 0 && val_order(ks[n - 1], k) == Order::Greater {
        insertion_point_divides(ks, k, n - 1);
    }
}

/// Inserting one element adds it to what the sequence holds.
pub proof fn insert_adds_to_multiset<A>(s: Seq<A>, p: int, x: A)
    requires
        0 <= p <= s.len(),
    ensures
        s.insert(p, x).to_multiset() == s.to_multiset().insert(x),
{
    broadcast use vstd::multiset::group_multiset_axioms;

    let t = s.insert(p, x);
    assert(t.remove(p) =~= s);
    to_multiset_remove(t, p);
    assert(t[p] == x);
    t.to_multiset_ensures();
    assert(t.contains(x));
    assert(t.to_multiset() =~= s.to_multiset().insert(x));
}

/// A key put where it goes among keys in ascending order leaves them in
/// ascending order.
pub proof fn insert_keeps_ascending(ks: Seq<Val>, k: Val)
    requires
        ascending(ks),
    ensures
        ascending(ks.insert(insertion_point(ks, k, ks.len() as int), k)),
{
    let p = insertion_point(ks, k, ks.len() as int);
    insertion_point_divides(ks, k, ks.len() as int);
    let t = ks.insert(p, k);
    assert forall|i: int| 0 <= i < t.len() - 1 implies #[trigger] in_order_at(t, i) by {
        if i < p - 1 {
            assert(t[i] == ks[i] && t[i + 1] == ks[i + 1]);
            assert(in_order_at(ks, i));
        } else if i == p - 1 {
            assert(t[i] == ks[p - 1] && t[i + 1] == k);
        } else if i == p {
            assert(t[i] == k && t[i + 1] == ks[p]);
            val_order_flips(ks[p], k);
        } else {
            assert(t[i] == ks[i - 1] && t[i + 1] == ks[i]);
            assert(in_order_at(ks, i - 1));
        }
    }
}

/// Sorting the first `n` keys with their items gives `n` keys and `n` items.
pub proof fn sorted_upto_lengths<E>(keys: Seq<Val>, items: Seq<E>, n: int)
    requires
        0 <= n <= keys.len(),
        n <= items.len(),
    ensures
        sorted_upto(keys, items, n).0.len() == n,
        sorted_upto(keys, items, n).1.len() == n,
    decreases n,
{
    if n > 0 {
        sorted_upto_lengths(keys, items, n - 1);
        let ks = sorted_upto(keys, items, n - 1).0;
        insertion_point_divides(ks, keys[n - 1], ks.len() as int);
    }
}

/// Sorting the first `n` keys gives them in ascending order.
pub proof fn sorted_upto_is_ascending<E>(keys: Seq<Val>, items: Seq<E>, n: int)
    requires
        0 <= n <= keys.len(),
        n <= items.len(),
    ensures
        ascending(sorted_upto(keys, items, n).0),
    decreases n,
{
    if n > 0 {
        sorted_upto_is_ascending(keys, items, n - 1);
        insert_keeps_ascending(sorted_upto(keys, items, n - 1).0, keys[n - 1]);
    }
}

/// Sorting the first `n` keys with their items gives the keys and items that
/// went in, each as often as it was there.
pub proof fn sorted_upto_is_rearrangement<E>(keys: Seq<Val>, items: Seq<E>, n: int)
    requires
        0 <= n <= keys.len(),
        n <= items.len(),
    ensures
        sorted_upto(keys, items, n).0.to_multiset() == keys.take(n).to_multiset(),
        sorted_upto(keys, items, n).1.to_multiset() == items.take(n).to_multiset(),
    decreases n,
{
    if n == 0 {
        assert(keys.take(0) =~= Seq::<Val>::empty());
        assert(items.take(0) =~= Seq::<E>::empty());
    } else {
        sorted_upto_is_rearrangement(keys, items, n - 1);
        sorted_upto_lengths(keys, items, n - 1);
        let ks = sorted_upto(keys, items, n - 1).0;
        let xs = sorted_upto(keys, items, n - 1).1;
        let k = keys[n - 1];
        let p = insertion_point(ks, k, ks.len() as int);
        insertion_point_divides(ks, k, ks.len() as int);
        insert_adds_to_multiset(ks, p, k);
        insert_adds_to_multiset(xs, p, items[n - 1]);
        assert(keys.take(n) =~= keys.take(n - 1).push(k));
        assert(items.take(n) =~= items.take(n - 1).push(items[n - 1]));
        to_multiset_build(keys.take(n - 1), k);
        to_multiset_build(items.take(n - 1), items[n - 1]);
    }
}

/// Where the items are their own keys, keys and items come out the same.
pub proof fn keys_and_items_sort_alike(xs: Seq<Val>, n: int)
    requires
        0 <= n <= xs.len(),
    ensures
        sorted_upto(xs, xs, n).0 == sorted_upto(xs, xs, n).1,
    decreases n,
{
    if n > 0 {
        keys_and_items_sort_alike(xs, n - 1);
    }
}

/// Sorted values are in ascending order and are the values that were to be
/// sorted, each as often as it was there.
pub proof fn sort_is_ascending_rearrangement(xs: Seq<Val>)
    ensures
        sorted_vals(xs).len() == xs.len(),
        ascending(sorted_vals(xs)),
        sorted_vals(xs).to_multiset() == xs.to_multiset(),
{
    let n = xs.len() as int;
    sorted_upto_lengths(xs, xs, n);
    sorted_upto_is_ascending(xs, xs, n);
    sorted_upto_is_rearrangement(xs, xs, n);
    keys_and_items_sort_alike(xs, n);
    assert(xs.take(n) =~= xs);
}

/// Items sorted by as many keys are the items that were to be sorted, each
/// as often as it was there.
pub proof fn sort_by_key_is_rearrangement<E>(keys: Seq<Val>, items: Seq<E>)
    requires
        keys.len() == items.len(),
    ensures
        sorted_by_key(keys, items).len() == items.len(),
        sorted_by_key(keys, items).to_multiset() == items.to_multiset(),
{
    let n = keys.len() as int;
    sorted_upto_lengths(keys, items, n);
    sorted_upto_is_rearrangement(keys, items, n);
    assert(items.take(n) =~= items);
}

} // verus!
