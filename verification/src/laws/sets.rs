//! Laws of equality on values and of the set-like operators on sequences.

use vstd::prelude::*;
use crate::value::{Val, Elem, val_eq};
use crate::util::{item_eq, has_item, seq_minus, seq_and, seq_or, seq_xor};

verus! {

/// Every value equals itself.
pub proof fn val_eq_reflexive(a: Val)
    ensures
        val_eq(a, a),
    decreases a,
{
    match a {
        Val::Arr(xs) => {
            assert forall|i: int| 0 <= i < xs.len() implies val_eq(#[trigger] xs[i], xs[i]) by {
                val_eq_reflexive(xs[i]);
            }
        },
        _ => {},
    }
}

/// Equality of values does not depend on the order of the two.
pub proof fn val_eq_symmetric(a: Val, b: Val)
    requires
        val_eq(a, b),
    ensures
        val_eq(b, a),
    decreases a,
{
    match (a, b) {
        (Val::Arr(xs), Val::Arr(ys)) => {
            assert forall|i: int| 0 <= i < ys.len() implies val_eq(#[trigger] ys[i], xs[i]) by {
                assert(val_eq(xs[i], ys[i]));
                val_eq_symmetric(xs[i], ys[i]);
            }
        },
        _ => {},
    }
}

/// Two values equal to a third are equal to each other.
pub proof fn val_eq_transitive(a: Val, b: Val, c: Val)
    requires
        val_eq(a, b),
        val_eq(b, c),
    ensures
        val_eq(a, c),
    decreases a,
{
    match (a, b, c) {
        (Val::Arr(xs), Val::Arr(ys), Val::Arr(zs)) => {
            assert forall|i: int| 0 <= i < xs.len() implies val_eq(#[trigger] xs[i], zs[i]) by {
                assert(val_eq(xs[i], ys[i]));
                assert(val_eq(ys[i], zs[i]));
                val_eq_transitive(xs[i], ys[i], zs[i]);
            }
        },
        _ => {},
    }
}

/// Elements equal to each other are, or are not, among the elements of a
/// sequence together.
pub proof fn has_item_respects_equality<T: Elem>(s: Seq<T::V>, x: T::V, y: T::V)
    requires
        item_eq::<T>(x, y),
    ensures
        has_item::<T>(s, x) == has_item::<T>(s, y),
{
    if has_item::<T>(s, x) {
        let j = choose|j: int| 0 <= j < s.len() && item_eq::<T>(#[trigger] s[j], x);
        val_eq_transitive(T::lift(s[j]), T::lift(x), T::lift(y));
    }
    if has_item::<T>(s, y) {
        let j = choose|j: int| 0 <= j < s.len() && item_eq::<T>(#[trigger] s[j], y);
        val_eq_symmetric(T::lift(x), T::lift(y));
        val_eq_transitive(T::lift(s[j]), T::lift(y), T::lift(x));
    }
}

/// A filter that every element passes changes nothing.
pub proof fn filter_keeps_all<E>(s: Seq<E>, p: spec_fn(E) -> bool)
    requires
        forall|i: int| 0 <= i < s.len() ==> p(#[trigger] s[i]),
    ensures
        s.filter(p) == s,
    decreases s.len(),
{
    reveal(Seq::filter);
    if s.len() > 0 {
        filter_keeps_all(s.drop_last(), p);
        assert(s.drop_last().push(s.last()) =~= s);
    }
}

/// A filter that no element passes leaves nothing.
pub proof fn filter_keeps_none<E>(s: Seq<E>, p: spec_fn(E) -> bool)
    requires
        forall|i: int| 0 <= i < s.len() ==> !p(#[trigger] s[i]),
    ensures
        s.filter(p) == Seq::<E>::empty(),
    decreases s.len(),
{
    reveal(Seq::filter);
    if s.len() > 0 {
        filter_keeps_none(s.drop_last(), p);
    } else {
        assert(s =~= Seq::<E>::empty());
    }
}

/// A sequence combined with itself: intersection and union give it back,
/// difference and symmetric difference give the empty sequence.
pub proof fn set_ops_on_equal_operands<T: Elem>(a: Seq<T::V>)
    ensures
        seq_and::<T>(a, a) == a,
        seq_or::<T>(a, a) == a,
        seq_minus::<T>(a, a) == Seq::<T::V>::empty(),
        seq_xor::<T>(a, a) == Seq::<T::V>::empty(),
{
    assert forall|i: int| 0 <= i < a.len() implies has_item::<T>(a, #[trigger] a[i]) by {
        val_eq_reflexive(T::lift(a[i]));
        assert(item_eq::<T>(a[i], a[i]));
    }
    filter_keeps_all(a, |x: T::V| has_item::<T>(a, x));
    filter_keeps_none(a, |x: T::V| !has_item::<T>(a, x));
    assert(a + Seq::<T::V>::empty() =~= a);
}

/// What a membership filter keeps: an element is among the elements of `a`
/// that pass a test on membership in `b` exactly if it is among those of `a`
/// and passes the test itself.
pub proof fn filtered_membership<T: Elem>(a: Seq<T::V>, b: Seq<T::V>, keep: bool, x: T::V)
    ensures
        has_item::<T>(a.filter(|y: T::V| has_item::<T>(b, y) == keep), x) == (has_item::<T>(a, x)
            && has_item::<T>(b, x) == keep),
{
    let p = |y: T::V| has_item::<T>(b, y) == keep;
    let f = a.filter(p);
    if has_item::<T>(f, x) {
        let j = choose|j: int| 0 <= j < f.len() && item_eq::<T>(#[trigger] f[j], x);
        a.lemma_filter_pred(p, j);
        assert(f.contains(f[j]));
        a.lemma_filter_contains_rev(p, f[j]);
        let k = choose|k: int| 0 <= k < a.len() && a[k] == f[j];
        assert(item_eq::<T>(a[k], x));
        has_item_respects_equality::<T>(b, f[j], x);
    }
    if has_item::<T>(a, x) && has_item::<T>(b, x) == keep {
        let k = choose|k: int| 0 <= k < a.len() && item_eq::<T>(#[trigger] a[k], x);
        has_item_respects_equality::<T>(b, a[k], x);
        a.lemma_filter_contains(p, k);
        let j = choose|j: int| 0 <= j < f.len() && f[j] == a[k];
        assert(item_eq::<T>(f[j], x));
    }
}

/// The elements of an intersection are those of both sequences.
pub proof fn intersection_members<T: Elem>(a: Seq<T::V>, b: Seq<T::V>, x: T::V)
    ensures
        has_item::<T>(seq_and::<T>(a, b), x) == (has_item::<T>(a, x) && has_item::<T>(b, x)),
{
    filtered_membership::<T>(a, b, true, x);
    assert((|y: T::V| has_item::<T>(b, y) == true) =~= (|y: T::V| has_item::<T>(b, y)));
}

/// The elements of a difference are those of the first sequence that are
/// not of the second.
pub proof fn difference_members<T: Elem>(a: Seq<T::V>, b: Seq<T::V>, x: T::V)
    ensures
        has_item::<T>(seq_minus::<T>(a, b), x) == (has_item::<T>(a, x) && !has_item::<T>(b, x)),
{
    filtered_membership::<T>(a, b, false, x);
    assert((|y: T::V| has_item::<T>(b, y) == false) =~= (|y: T::V| !has_item::<T>(b, y)));
}

/// The elements of a concatenation are those of either part.
pub proof fn concat_members<T: Elem>(a: Seq<T::V>, b: Seq<T::V>, x: T::V)
    ensures
        has_item::<T>(a + b, x) == (has_item::<T>(a, x) || has_item::<T>(b, x)),
{
    let c = a + b;
    if has_item::<T>(c, x) {
        let j = choose|j: int| 0 <= j < c.len() && item_eq::<T>(#[trigger] c[j], x);
        if j < a.len() {
            assert(item_eq::<T>(a[j], x));
        } else {
            assert(item_eq::<T>(b[j - a.len()], x));
        }
    }
    if has_item::<T>(a, x) {
        let j = choose|j: int| 0 <= j < a.len() && item_eq::<T>(#[trigger] a[j], x);
        assert(item_eq::<T>(c[j], x));
    }
    if has_item::<T>(b, x) {
        let j = choose|j: int| 0 <= j < b.len() && item_eq::<T>(#[trigger] b[j], x);
        assert(item_eq::<T>(c[a.len() + j], x));
    }
}

/// The elements of a union are those of either sequence.
pub proof fn union_members<T: Elem>(a: Seq<T::V>, b: Seq<T::V>, x: T::V)
    ensures
        has_item::<T>(seq_or::<T>(a, b), x) == (has_item::<T>(a, x) || has_item::<T>(b, x)),
{
    difference_members::<T>(b, a, x);
    concat_members::<T>(a, seq_minus::<T>(b, a), x);
}

/// The elements of a symmetric difference are those of exactly one of the
/// two sequences.
pub proof fn symmetric_difference_members<T: Elem>(a: Seq<T::V>, b: Seq<T::V>, x: T::V)
    ensures
        has_item::<T>(seq_xor::<T>(a, b), x) == (has_item::<T>(a, x) != has_item::<T>(b, x)),
{
    union_members::<T>(a, b, x);
    intersection_members::<T>(a, b, x);
    difference_members::<T>(seq_or::<T>(a, b), seq_and::<T>(a, b), x);
}

/// The set-like operators are commutative as far as membership goes: an
/// element is in the union, the intersection or the symmetric difference of
/// two sequences whichever of the two comes first.  (The order of the
/// elements in the result follows the first operand.)
pub proof fn set_ops_commute_in_membership<T: Elem>(a: Seq<T::V>, b: Seq<T::V>, x: T::V)
    ensures
        has_item::<T>(seq_or::<T>(a, b), x) == has_item::<T>(seq_or::<T>(b, a), x),
        has_item::<T>(seq_and::<T>(a, b), x) == has_item::<T>(seq_and::<T>(b, a), x),
        has_item::<T>(seq_xor::<T>(a, b), x) == has_item::<T>(seq_xor::<T>(b, a), x),
{
    union_members::<T>(a, b, x);
    union_members::<T>(b, a, x);
    intersection_members::<T>(a, b, x);
    intersection_members::<T>(b, a, x);
    symmetric_difference_members::<T>(a, b, x);
    symmetric_difference_members::<T>(b, a, x);
}

} // verus!
