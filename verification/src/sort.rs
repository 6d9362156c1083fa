//! Stable sorting of a sequence by keys that are values.

use vstd::prelude::*;
use crate::value::{Gval, Val, Elem, Order, views, val_order};

verus! {

/// Where a key goes among the first `n` of the sorted keys `ks`: behind every
/// key that is not greater than it.
pub open spec fn insertion_point(ks: Seq<Val>, k: Val, n: int) -> int
    decreases n,
{
    if n <= 0 || n > ks.len() {
        0
    } else if val_order(ks[n - 1], k) == Order::Greater {
        insertion_point(ks, k, n - 1)
    } else {
        n
    }
}

/// The first `n` keys with their items, sorted by key; items with equal keys
/// keep the order in which they came.
pub open spec fn sorted_upto<E>(keys: Seq<Val>, items: Seq<E>, n: int) -> (Seq<Val>, Seq<E>)
    decreases n,
{
    if n <= 0 || n > keys.len() || n > items.len() {
        (Seq::empty(), Seq::empty())
    } else {
        let (ks, xs) = sorted_upto(keys, items, n - 1);
        let p = insertion_point(ks, keys[n - 1], ks.len() as int);
        (ks.insert(p, keys[n - 1]), xs.insert(p, items[n - 1]))
    }
}

/// The items in ascending order of their keys, stably.  Where there are more
/// items than keys, the items without a key are left out; where there are
/// more keys than items, nothing is sorted.
pub open spec fn sorted_by_key<E>(keys: Seq<Val>, items: Seq<E>) -> Seq<E> {
    sorted_upto(keys, items, keys.len() as int).1
}

/// A sequence of values in ascending order.
pub open spec fn sorted_vals(xs: Seq<Val>) -> Seq<Val> {
    sorted_by_key(xs, xs)
}

/// Inserting an element inserts its view.
pub proof fn lemma_views_insert<T: View>(s: Seq<T>, p: int, x: T)
    requires
        0 <= p <= s.len(),
    ensures
        views(s.insert(p, x)) == views(s).insert(p, x@),
{
    assert(views(s.insert(p, x)) =~= views(s).insert(p, x@));
}

/// Sorts `items` by `keys`, stably.
pub fn sort_by_key<T: Elem>(keys: &Vec<Gval>, items: &Vec<T>) -> (r: Vec<T>)
    ensures
        views(r@) == sorted_by_key(views(keys@), views(items@)),
{
    let mut ks: Vec<Gval> = Vec::new();
    let mut xs: Vec<T> = Vec::new();
    if keys.len() > items.len() {
        proof {
            assert(views(xs@) =~= Seq::<T::V>::empty());
        }
        return xs;
    }
    let ghost vk = views(keys@);
    let ghost vi = views(items@);
    let mut n: usize = 0;
    proof {
        assert(views(ks@) =~= Seq::<Val>::empty());
        assert(views(xs@) =~= Seq::<T::V>::empty());
    }
    while n < keys.len()
        invariant
            n <= keys.len(),
            keys.len() <= items.len(),
            vk == views(keys@),
            vi == views(items@),
            ks.len() == xs.len(),
            (views(ks@), views(xs@)) == sorted_upto(vk, vi, n as int),
        decreases keys.len() - n,
    {
        let key = keys[n].clone();
        let mut p: usize = ks.len();
        while p > 0 && is_greater(&ks[p - 1], &key)
            invariant
                p <= ks.len(),
                insertion_point(views(ks@), key@, ks.len() as int) == insertion_point(
                    views(ks@),
                    key@,
                    p as int,
                ),
            decreases p,
        {
            p -= 1;
        }
        proof {
            lemma_views_insert(ks@, p as int, key);
            lemma_views_insert(xs@, p as int, items@[n as int]);
        }
        ks.insert(p, key);
        xs.insert(p, items[n].dup());
        n += 1;
    }
    xs
}

/// Whether `a` comes strictly after `b` in the order on values.
pub fn is_greater(a: &Gval, b: &Gval) -> (r: bool)
    ensures
        r == (val_order(a@, b@) == Order::Greater),
{
    match a.order(b) {
        Order::Greater => true,
        _ => false,
    }
}

/// Sorts values in ascending order.
pub fn sort_vals(xs: &Vec<Gval>) -> (r: Vec<Gval>)
    ensures
        views(r@) == sorted_vals(views(xs@)),
{
    sort_by_key(xs, xs)
}

} // verus!
