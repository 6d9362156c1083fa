//! Utilities on sequences: set-like operations, repetition, chunking,
//! separator-based splitting, indexing and slicing with negative indices, and
//! stable sorting by key.
//!
//! They work on the elements of arrays (values) and of strings (bytes) alike;
//! elements are compared as the values that they stand for.

use vstd::prelude::*;
use crate::bigint::{
    big_value, big_from_i64, big_from_u64, big_lt, big_add, big_abs, big_is_zero,
    big_is_positive, big_to_usize, big_mod_floor, floor_mod, int_abs,
};
use crate::value::{Elem, Order, views, val_eq};

verus! {

/// Whether two elements are equal as values.
pub open spec fn item_eq<T: Elem>(a: T::V, b: T::V) -> bool {
    val_eq(T::lift(a), T::lift(b))
}

/// Whether some element of `s` equals `x`.
pub open spec fn has_item<T: Elem>(s: Seq<T::V>, x: T::V) -> bool {
    exists|j: int| 0 <= j < s.len() && item_eq::<T>(#[trigger] s[j], x)
}

/// The elements of `a` that equal no element of `b`, in the order of `a`.
pub open spec fn seq_minus<T: Elem>(a: Seq<T::V>, b: Seq<T::V>) -> Seq<T::V> {
    a.filter(|x: T::V| !has_item::<T>(b, x))
}

/// The elements of `a` that equal some element of `b`, in the order of `a`.
pub open spec fn seq_and<T: Elem>(a: Seq<T::V>, b: Seq<T::V>) -> Seq<T::V> {
    a.filter(|x: T::V| has_item::<T>(b, x))
}

/// `a`, followed by the elements of `b` that equal no element of `a`.
pub open spec fn seq_or<T: Elem>(a: Seq<T::V>, b: Seq<T::V>) -> Seq<T::V> {
    a + seq_minus::<T>(b, a)
}

/// The union without the intersection, in the order of the union.
pub open spec fn seq_xor<T: Elem>(a: Seq<T::V>, b: Seq<T::V>) -> Seq<T::V> {
    seq_minus::<T>(seq_or::<T>(a, b), seq_and::<T>(a, b))
}

/// `n` copies of `a` in a row; none when `n` is not positive.
pub open spec fn repeated<E>(a: Seq<E>, n: int) -> Seq<E>
    decreases n,
{
    if n <= 0 {
        Seq::empty()
    } else {
        repeated(a, n - 1) + a
    }
}

/// Consecutive pieces of `k` elements each; the last may be shorter.
pub open spec fn chunks<E>(a: Seq<E>, k: int) -> Seq<Seq<E>>
    decreases a.len(),
{
    if a.len() == 0 || k <= 0 {
        Seq::empty()
    } else if a.len() <= k {
        seq![a]
    } else {
        seq![a.take(k)] + chunks(a.skip(k), k)
    }
}

/// Chunks of `n` elements for positive `n`; for negative `n` the reversed
/// sequence in chunks of `-n`; for zero the whole sequence as one piece.
pub open spec fn chunked<E>(a: Seq<E>, n: int) -> Seq<Seq<E>> {
    if n > 0 {
        chunks(a, n)
    } else if n < 0 {
        chunks(a.reverse(), -n)
    } else {
        seq![a]
    }
}

/// The elements at indices `0, k, 2k, ...`.
pub open spec fn strided<E>(a: Seq<E>, k: int) -> Seq<E>
    decreases a.len(),
{
    if a.len() == 0 || k <= 0 {
        Seq::empty()
    } else if a.len() <= k {
        seq![a[0]]
    } else {
        seq![a[0]] + strided(a.skip(k), k)
    }
}

/// Every `n`-th element for positive `n`; for negative `n` every `-n`-th of
/// the reversed sequence; for zero the sequence unchanged.
pub open spec fn every_nth_of<E>(a: Seq<E>, n: int) -> Seq<E> {
    if n > 0 {
        strided(a, n)
    } else if n < 0 {
        strided(a.reverse(), -n)
    } else {
        a
    }
}

/// Whether `sep` occurs in `a` at index `i`.
pub open spec fn occurs_at<T: Elem>(a: Seq<T::V>, sep: Seq<T::V>, i: int) -> bool {
    &&& 0 <= i
    &&& i + sep.len() <= a.len()
    &&& forall|j: int| 0 <= j < sep.len() ==> item_eq::<T>(#[trigger] a[i + j], sep[j])
}

/// The fragments of `a` from `start` on, where the scan for the next
/// occurrence of `sep` stands at `i`.  Occurrences are taken from left to
/// right and do not overlap.
pub open spec fn fragments_from<T: Elem>(
    a: Seq<T::V>,
    sep: Seq<T::V>,
    start: int,
    i: int,
) -> Seq<Seq<T::V>>
    decreases a.len() - i,
{
    if sep.len() == 0 || start < 0 || i < start || i + sep.len() > a.len() {
        seq![a.subrange(start, a.len() as int)]
    } else if occurs_at::<T>(a, sep, i) {
        seq![a.subrange(start, i)] + fragments_from::<T>(
            a,
            sep,
            i + sep.len(),
            i + sep.len(),
        )
    } else {
        fragments_from::<T>(a, sep, start, i + 1)
    }
}

/// `a` split at the occurrences of `sep`; when `clean`, without the empty
/// fragments.  An empty separator occurs nowhere.
pub open spec fn split_of<T: Elem>(a: Seq<T::V>, sep: Seq<T::V>, clean: bool) -> Seq<
    Seq<T::V>,
> {
    let f = fragments_from::<T>(a, sep, 0, 0);
    if clean {
        f.filter(|x: Seq<T::V>| x.len() > 0)
    } else {
        f
    }
}

/// The index that `i` denotes in a sequence of `len > 0` elements, negative
/// indices counting from the end and all indices wrapping around.
pub open spec fn wrapped(i: int, len: int) -> int {
    floor_mod(i, len)
}

/// The cut point that `i` denotes in a sequence of `len` elements: negative
/// indices count from the end, and the result is clamped to `0..=len`.
pub open spec fn cut_point(i: int, len: int) -> int {
    if i < 0 {
        if len + i < 0 {
            0
        } else {
            len + i
        }
    } else if i > len {
        len
    } else {
        i
    }
}

/// The part of `a` that the ordering selects at `i`: the elements before the
/// cut point for `Less`, those from it on for `Greater`, the one at it (if
/// any) for `Equal`.
pub open spec fn sliced<E>(o: Order, a: Seq<E>, i: int) -> Seq<E> {
    let c = cut_point(i, a.len() as int);
    match o {
        Order::Less => a.take(c),
        Order::Greater => a.skip(c),
        Order::Equal => if c < a.len() {
            seq![a[c]]
        } else {
            Seq::empty()
        },
    }
}

/// The first index at or after `i` where `needle` occurs in `hay`, or -1.
pub open spec fn first_occurrence<T: Elem>(hay: Seq<T::V>, needle: Seq<T::V>, i: int) -> int
    decreases hay.len() - i,
{
    if i < 0 || i + needle.len() > hay.len() {
        -1
    } else if occurs_at::<T>(hay, needle, i) {
        i
    } else {
        first_occurrence::<T>(hay, needle, i + 1)
    }
}

/// The first index at or after `i` of an element of `hay` equal to `x`, or -1.
pub open spec fn first_index<T: Elem>(hay: Seq<T::V>, x: T::V, i: int) -> int
    decreases hay.len() - i,
{
    if i < 0 || i >= hay.len() {
        -1
    } else if item_eq::<T>(hay[i], x) {
        i
    } else {
        first_index::<T>(hay, x, i + 1)
    }
}

/// The views of a sequence of vectors.
pub open spec fn views2<T: View>(s: Seq<Vec<T>>) -> Seq<Seq<T::V>> {
    Seq::new(s.len(), |i: int| views(s[i]@))
}

/// Pushing an element pushes its view.
pub proof fn lemma_views_push<T: View>(s: Seq<T>, x: T)
    ensures
        views(s.push(x)) == views(s).push(x@),
{
    assert(views(s.push(x)) =~= views(s).push(x@));
}

/// Pushing a vector pushes its views.
pub proof fn lemma_views2_push<T: View>(s: Seq<Vec<T>>, x: Vec<T>)
    ensures
        views2(s.push(x)) == views2(s).push(views(x@)),
{
    assert(views2(s.push(x)) =~= views2(s).push(views(x@)));
}

/// Copies the elements of `a` from `lo` up to `hi`.
pub fn copy_range<T: Elem>(a: &Vec<T>, lo: usize, hi: usize) -> (r: Vec<T>)
    requires
        lo <= hi <= a.len(),
    ensures
        views(r@) == views(a@).subrange(lo as int, hi as int),
{
    let mut r: Vec<T> = Vec::new();
    let mut i: usize = lo;
    while i < hi
        invariant
            lo <= i <= hi <= a.len(),
            r.len() == i - lo,
            forall|j: int| 0 <= j < r.len() ==> r@[j]@ == a@[lo + j]@,
        decreases hi - i,
    {
        r.push(a[i].dup());
        i += 1;
    }
    proof {
        assert(views(r@) =~= views(a@).subrange(lo as int, hi as int));
    }
    r
}

/// Copies a vector in reverse order.
pub fn reversed<T: Elem>(a: &Vec<T>) -> (r: Vec<T>)
    ensures
        views(r@) == views(a@).reverse(),
{
    let mut r: Vec<T> = Vec::new();
    let mut i: usize = a.len();
    while i > 0
        invariant
            i <= a.len(),
            r.len() == a.len() - i,
            forall|j: int| 0 <= j < r.len() ==> r@[j]@ == a@[a.len() - 1 - j]@,
        decreases i,
    {
        i -= 1;
        r.push(a[i].dup());
    }
    proof {
        assert(views(r@) =~= views(a@).reverse());
    }
    r
}

/// Whether some element of `s` equals `x`.
pub fn contains_item<T: Elem>(s: &Vec<T>, x: &T) -> (r: bool)
    ensures
        r == has_item::<T>(views(s@), x@),
{
    let mut i: usize = 0;
    while i < s.len()
        invariant
            i <= s.len(),
            forall|j: int| 0 <= j < i ==> !item_eq::<T>(#[trigger] views(s@)[j], x@),
        decreases s.len() - i,
    {
        if s[i].is_same(x) {
            proof {
                assert(item_eq::<T>(views(s@)[i as int], x@));
            }
            return true;
        }
        i += 1;
    }
    false
}

/// The elements of `a` that are (when `keep` is true) or are not (when it is
/// false) among those of `b`, in the order of `a`.
fn select_by_membership<T: Elem>(a: &Vec<T>, b: &Vec<T>, keep: bool) -> (r: Vec<T>)
    ensures
        views(r@) == views(a@).filter(|x: T::V| has_item::<T>(views(b@), x) == keep),
{
    let mut r: Vec<T> = Vec::new();
    let ghost pred = |x: T::V| has_item::<T>(views(b@), x) == keep;
    let ghost va = views(a@);
    let mut i: usize = 0;
    proof {
        assert(va.take(0) =~= Seq::<T::V>::empty());
        reveal(Seq::filter);
        assert(views(r@) =~= va.take(0).filter(pred));
    }
    while i < a.len()
        invariant
            i <= a.len(),
            va == views(a@),
            pred == (|x: T::V| has_item::<T>(views(b@), x) == keep),
            views(r@) == va.take(i as int).filter(pred),
        decreases a.len() - i,
    {
        let inside = contains_item(b, &a[i]);
        proof {
            assert(va.take(i + 1) =~= va.take(i as int).push(va[i as int]));
            va.take(i as int).lemma_filter_push(va[i as int], pred);
        }
        if inside == keep {
            proof {
                lemma_views_push(r@, a@[i as int]);
            }
            r.push(a[i].dup());
        }
        i += 1;
    }
    proof {
        assert(va.take(a.len() as int) =~= va);
    }
    r
}

/// The elements of `a` that equal no element of `b`.
pub fn set_subtract<T: Elem>(a: Vec<T>, b: Vec<T>) -> (r: Vec<T>)
    ensures
        views(r@) == seq_minus::<T>(views(a@), views(b@)),
{
    let r = select_by_membership(&a, &b, false);
    proof {
        let tested = |x: T::V| has_item::<T>(views(b@), x) == false;
        let plain = |x: T::V| !has_item::<T>(views(b@), x);
        assert(tested =~= plain);
    }
    r
}

/// The elements of `a` that equal some element of `b`.
pub fn set_and<T: Elem>(a: Vec<T>, b: Vec<T>) -> (r: Vec<T>)
    ensures
        views(r@) == seq_and::<T>(views(a@), views(b@)),
{
    let r = select_by_membership(&a, &b, true);
    proof {
        let tested = |x: T::V| has_item::<T>(views(b@), x) == true;
        let plain = |x: T::V| has_item::<T>(views(b@), x);
        assert(tested =~= plain);
    }
    r
}

/// `a`, followed by the elements of `b` that equal no element of `a`.
pub fn set_or<T: Elem>(a: Vec<T>, b: Vec<T>) -> (r: Vec<T>)
    ensures
        views(r@) == seq_or::<T>(views(a@), views(b@)),
{
    let mut extra = select_by_membership(&b, &a, false);
    proof {
        let tested = |x: T::V| has_item::<T>(views(a@), x) == false;
        let plain = |x: T::V| !has_item::<T>(views(a@), x);
        assert(tested =~= plain);
    }
    let mut r = a;
    let ghost r0 = views(r@);
    let ghost e0 = views(extra@);
    r.append(&mut extra);
    proof {
        assert(views(r@) =~= r0 + e0);
    }
    r
}

/// The union of `a` and `b` without their intersection.
pub fn set_xor<T: Elem>(a: Vec<T>, b: Vec<T>) -> (r: Vec<T>)
    ensures
        views(r@) == seq_xor::<T>(views(a@), views(b@)),
{
    let both = select_by_membership(&a, &b, true);
    proof {
        let tested = |x: T::V| has_item::<T>(views(b@), x) == true;
        let plain = |x: T::V| has_item::<T>(views(b@), x);
        assert(tested =~= plain);
    }
    let all = set_or(a, b);
    set_subtract(all, both)
}

/// Appends copies of the elements of `src` to `dst`.
pub fn extend_copy<T: Elem>(dst: &mut Vec<T>, src: &Vec<T>)
    ensures
        views(final(dst)@) == views(old(dst)@) + views(src@),
{
    let mut i: usize = 0;
    while i < src.len()
        invariant
            i <= src.len(),
            dst.len() == old(dst).len() + i,
            forall|j: int| 0 <= j < old(dst).len() ==> dst@[j]@ == old(dst)@[j]@,
            forall|j: int| 0 <= j < i ==> dst@[old(dst).len() + j]@ == src@[j]@,
        decreases src.len() - i,
    {
        dst.push(src[i].dup());
        i += 1;
    }
    proof {
        assert(views(dst@) =~= views(old(dst)@) + views(src@));
    }
}

/// `n` copies of `a` in a row.
pub fn repeat<T: Elem>(a: Vec<T>, n: num::BigInt) -> (r: Vec<T>)
    ensures
        views(r@) == repeated(views(a@), big_value(n)),
{
    let mut r: Vec<T> = Vec::new();
    let mut k = big_from_i64(0);
    let one = big_from_i64(1);
    proof {
        assert(views(r@) =~= repeated(views(a@), 0));
    }
    while big_lt(&k, &n)
        invariant
            big_value(one) == 1,
            0 <= big_value(k),
            big_value(k) <= big_value(n) || big_value(k) == 0,
            views(r@) == repeated(views(a@), big_value(k)),
        decreases big_value(n) - big_value(k),
    {
        extend_copy(&mut r, &a);
        k = big_add(&k, &one);
    }
    r
}

/// The size of a piece that `n` asks for, at most `len` (and at least one).
fn piece_size(n: &num::BigInt, len: usize) -> (k: usize)
    requires
        big_value(*n) != 0,
    ensures
        k >= 1,
        k == int_abs(big_value(*n)) || (k >= len && int_abs(big_value(*n)) >= len),
{
    let m = big_abs(n);
    match big_to_usize(&m) {
        Some(k) => k,
        None => if len == 0 {
            1
        } else {
            len
        },
    }
}

/// The sequences `chunks` and `strided` do not depend on how far the piece
/// size exceeds the length.
pub proof fn lemma_piece_size_clamped<E>(a: Seq<E>, k: int, k2: int)
    requires
        k >= a.len(),
        k2 >= a.len(),
        k > 0,
        k2 > 0,
    ensures
        chunks(a, k) == chunks(a, k2),
        strided(a, k) == strided(a, k2),
{
}

/// Consecutive pieces of `k` elements each.
fn chunk_by<T: Elem>(a: &Vec<T>, k: usize) -> (r: Vec<Vec<T>>)
    requires
        k >= 1,
    ensures
        views2(r@) == chunks(views(a@), k as int),
{
    let mut r: Vec<Vec<T>> = Vec::new();
    let ghost va = views(a@);
    let mut start: usize = 0;
    proof {
        assert(va.skip(0) =~= va);
        assert(views2(r@) + chunks(va, k as int) =~= chunks(va, k as int));
    }
    while start < a.len()
        invariant
            start <= a.len(),
            k >= 1,
            va == views(a@),
            views2(r@) + chunks(va.skip(start as int), k as int) == chunks(va, k as int),
        decreases a.len() - start,
    {
        let end = if a.len() - start <= k {
            a.len()
        } else {
            start + k
        };
        let piece = copy_range(a, start, end);
        proof {
            let rest = va.skip(start as int);
            lemma_views2_push(r@, piece);
            if a.len() - start <= k {
                assert(va.subrange(start as int, end as int) =~= rest);
                assert(va.skip(end as int).len() == 0);
                assert(chunks(va.skip(end as int), k as int) =~= Seq::<Seq<T::V>>::empty());
                assert(views2(r@).push(views(piece@)) + chunks(va.skip(end as int), k as int)
                    =~= views2(r@) + chunks(rest, k as int));
            } else {
                assert(va.subrange(start as int, end as int) =~= rest.take(k as int));
                assert(rest.skip(k as int) =~= va.skip(end as int));
                assert(views2(r@).push(views(piece@)) + chunks(va.skip(end as int), k as int)
                    =~= views2(r@) + chunks(rest, k as int));
            }
        }
        r.push(piece);
        start = end;
    }
    proof {
        assert(chunks(va.skip(start as int), k as int) =~= Seq::<Seq<T::V>>::empty());
        assert(views2(r@) + Seq::<Seq<T::V>>::empty() =~= views2(r@));
    }
    r
}

/// Chunks of `n` elements; for negative `n`, of the reversed sequence.
pub fn chunk<T: Elem>(a: &Vec<T>, n: num::BigInt) -> (r: Vec<Vec<T>>)
    ensures
        views2(r@) == chunked(views(a@), big_value(n)),
{
    if big_is_zero(&n) {
        let mut r: Vec<Vec<T>> = Vec::new();
        let whole = copy_range(a, 0, a.len());
        proof {
            lemma_views2_push(r@, whole);
            assert(views(a@).subrange(0, a.len() as int) =~= views(a@));
            assert(views2(r@).push(views(whole@)) =~= seq![views(a@)]);
        }
        r.push(whole);
        r
    } else {
        let k = piece_size(&n, a.len());
        if big_is_positive(&n) {
            proof {
                if k != big_value(n) {
                    lemma_piece_size_clamped(views(a@), k as int, big_value(n));
                }
            }
            chunk_by(a, k)
        } else {
            let b = reversed(a);
            proof {
                if k != -big_value(n) {
                    lemma_piece_size_clamped(views(b@), k as int, -big_value(n));
                }
            }
            chunk_by(&b, k)
        }
    }
}

/// The elements at indices `0, k, 2k, ...`.
fn stride_by<T: Elem>(a: &Vec<T>, k: usize) -> (r: Vec<T>)
    requires
        k >= 1,
    ensures
        views(r@) == strided(views(a@), k as int),
{
    let mut r: Vec<T> = Vec::new();
    let ghost va = views(a@);
    let mut start: usize = 0;
    proof {
        assert(va.skip(0) =~= va);
        assert(views(r@) + strided(va, k as int) =~= strided(va, k as int));
    }
    while start < a.len()
        invariant
            start <= a.len(),
            k >= 1,
            va == views(a@),
            views(r@) + strided(va.skip(start as int), k as int) == strided(va, k as int),
        decreases a.len() - start,
    {
        let next = if a.len() - start <= k {
            a.len()
        } else {
            start + k
        };
        proof {
            let rest = va.skip(start as int);
            lemma_views_push(r@, a@[start as int]);
            if a.len() - start <= k {
                assert(va.skip(next as int).len() == 0);
                assert(strided(va.skip(next as int), k as int) =~= Seq::<T::V>::empty());
                assert(views(r@).push(a@[start as int]@) + strided(
                    va.skip(next as int),
                    k as int,
                ) =~= views(r@) + strided(rest, k as int));
            } else {
                assert(rest.skip(k as int) =~= va.skip(next as int));
                assert(views(r@).push(a@[start as int]@) + strided(
                    va.skip(next as int),
                    k as int,
                ) =~= views(r@) + strided(rest, k as int));
            }
        }
        r.push(a[start].dup());
        start = next;
    }
    proof {
        assert(strided(va.skip(start as int), k as int) =~= Seq::<T::V>::empty());
        assert(views(r@) + Seq::<T::V>::empty() =~= views(r@));
    }
    r
}

/// Every `n`-th element; for negative `n`, of the reversed sequence.
pub fn every_nth<T: Elem>(a: Vec<T>, n: num::BigInt) -> (r: Vec<T>)
    ensures
        views(r@) == every_nth_of(views(a@), big_value(n)),
{
    if big_is_zero(&n) {
        a
    } else {
        let k = piece_size(&n, a.len());
        if big_is_positive(&n) {
            proof {
                if k != big_value(n) {
                    lemma_piece_size_clamped(views(a@), k as int, big_value(n));
                }
            }
            stride_by(&a, k)
        } else {
            let b = reversed(&a);
            proof {
                if k != -big_value(n) {
                    lemma_piece_size_clamped(views(b@), k as int, -big_value(n));
                }
            }
            stride_by(&b, k)
        }
    }
}

/// Whether `sep` occurs in `a` at index `i`.
pub fn occurs<T: Elem>(a: &Vec<T>, sep: &Vec<T>, i: usize) -> (r: bool)
    ensures
        r == occurs_at::<T>(views(a@), views(sep@), i as int),
{
    if sep.len() > a.len() || i > a.len() - sep.len() {
        return false;
    }
    let mut j: usize = 0;
    while j < sep.len()
        invariant
            j <= sep.len(),
            i + sep.len() <= a.len(),
            forall|m: int|
                0 <= m < j ==> item_eq::<T>(#[trigger] views(a@)[i + m], views(sep@)[m]),
        decreases sep.len() - j,
    {
        if !a[i + j].is_same(&sep[j]) {
            proof {
                assert(!item_eq::<T>(views(a@)[i + j], views(sep@)[j as int]));
            }
            return false;
        }
        j += 1;
    }
    true
}

/// `a` split at the occurrences of `sep`; when `clean`, without the empty
/// fragments.
pub fn split<T: Elem>(a: Vec<T>, sep: Vec<T>, clean: bool) -> (r: Vec<Vec<T>>)
    ensures
        views2(r@) == split_of::<T>(views(a@), views(sep@), clean),
{
    let ghost va = views(a@);
    let ghost vs = views(sep@);
    let ghost keep = |x: Seq<T::V>| x.len() > 0;
    let mut r: Vec<Vec<T>> = Vec::new();
    let mut start: usize = 0;
    let mut i: usize = 0;
    proof {
        reveal(Seq::filter);
        assert(views2(r@) =~= Seq::<Seq<T::V>>::empty());
        assert(views2(r@).filter(keep) =~= views2(r@));
        assert(views2(r@) + fragments_from::<T>(va, vs, 0, 0) =~= fragments_from::<T>(
            va,
            vs,
            0,
            0,
        ));
    }
    let ghost mut done: Seq<Seq<T::V>> = Seq::empty();
    while sep.len() > 0 && sep.len() <= a.len() && i <= a.len() - sep.len()
        invariant
            va == views(a@),
            vs == views(sep@),
            keep == (|x: Seq<T::V>| x.len() > 0),
            start <= i <= a.len(),
            done + fragments_from::<T>(va, vs, start as int, i as int) == fragments_from::<T>(
                va,
                vs,
                0,
                0,
            ),
            views2(r@) == (if clean {
                done.filter(keep)
            } else {
                done
            }),
        decreases a.len() - i,
    {
        if occurs(&a, &sep, i) {
            let piece = copy_range(&a, start, i);
            proof {
                let f = va.subrange(start as int, i as int);
                let next = i + sep.len();
                assert(done.push(f) + fragments_from::<T>(va, vs, next, next) =~= done
                    + fragments_from::<T>(va, vs, start as int, i as int));
                done.lemma_filter_push(f, keep);
                lemma_views2_push(r@, piece);
                done = done.push(f);
            }
            if !clean || piece.len() > 0 {
                r.push(piece);
            }
            i = i + sep.len();
            start = i;
        } else {
            i += 1;
        }
    }
    let piece = copy_range(&a, start, a.len());
    proof {
        let f = va.subrange(start as int, a.len() as int);
        assert(fragments_from::<T>(va, vs, start as int, i as int) =~= seq![f]);
        assert(done.push(f) =~= done + seq![f]);
        done.lemma_filter_push(f, keep);
        lemma_views2_push(r@, piece);
    }
    if !clean || piece.len() > 0 {
        r.push(piece);
    }
    r
}

/// The element that `i` denotes in `a`, with negative indices counting from
/// the end and all indices wrapping around; none in an empty sequence.
pub fn index<'a, T: Elem>(a: &'a Vec<T>, i: &num::BigInt) -> (r: Option<&'a T>)
    ensures
        a.len() == 0 ==> r.is_none(),
        a.len() > 0 ==> r == Some(&a@[wrapped(big_value(*i), a.len() as int)]),
        a.len() > 0 ==> 0 <= wrapped(big_value(*i), a.len() as int) < a.len(),
{
    if a.len() == 0 {
        return None;
    }
    let len = big_from_u64(a.len() as u64);
    let m = big_mod_floor(i, &len);
    proof {
        let x = big_value(*i);
        let l = a.len() as int;
        assert(0 <= floor_mod(x, l) < l) by (nonlinear_arith)
            requires
                l > 0,
                floor_mod(x, l) == x - l * (x / l),
        ;
    }
    match big_to_usize(&m) {
        Some(k) => Some(&a[k]),
        None => None,
    }
}

/// The cut point that `i` denotes in a sequence of `len` elements.
pub fn cut<T: Elem>(a: &Vec<T>, i: &num::BigInt) -> (c: usize)
    ensures
        c == cut_point(big_value(*i), a.len() as int),
{
    let len = big_from_u64(a.len() as u64);
    let zero = big_from_i64(0);
    if big_lt(i, &zero) {
        let s = big_add(&len, i);
        match big_to_usize(&s) {
            Some(c) => c,
            None => 0,
        }
    } else {
        match big_to_usize(i) {
            Some(c) => if c > a.len() {
                a.len()
            } else {
                c
            },
            None => a.len(),
        }
    }
}

/// The part of `a` that the ordering selects at `i`.
pub fn slice<T: Elem>(o: Order, a: Vec<T>, i: num::BigInt) -> (r: Vec<T>)
    ensures
        views(r@) == sliced(o, views(a@), big_value(i)),
{
    let c = cut(&a, &i);
    match o {
        Order::Less => {
            let r = copy_range(&a, 0, c);
            proof {
                assert(views(a@).subrange(0, c as int) =~= views(a@).take(c as int));
            }
            r
        },
        Order::Greater => {
            let r = copy_range(&a, c, a.len());
            proof {
                assert(views(a@).subrange(c as int, a.len() as int) =~= views(a@).skip(c as int));
            }
            r
        },
        Order::Equal => {
            if c < a.len() {
                let r = copy_range(&a, c, c + 1);
                proof {
                    assert(views(a@).subrange(c as int, c + 1) =~= seq![views(a@)[c as int]]);
                }
                r
            } else {
                let r: Vec<T> = Vec::new();
                proof {
                    assert(views(r@) =~= Seq::<T::V>::empty());
                }
                r
            }
        },
    }
}

/// The first index where `needle` occurs in `hay`, or -1.
pub fn find_occurrence<T: Elem>(hay: &Vec<T>, needle: &Vec<T>) -> (r: num::BigInt)
    ensures
        big_value(r) == first_occurrence::<T>(views(hay@), views(needle@), 0),
{
    let mut i: usize = 0;
    while needle.len() <= hay.len() && i <= hay.len() - needle.len()
        invariant
            i <= hay.len(),
            first_occurrence::<T>(views(hay@), views(needle@), 0) == first_occurrence::<T>(
                views(hay@),
                views(needle@),
                i as int,
            ),
        decreases hay.len() - i,
    {
        if occurs(hay, needle, i) {
            return big_from_u64(i as u64);
        }
        i += 1;
    }
    big_from_i64(-1)
}

/// The first index where the bytes `needle` occur in `hay`, or -1.
pub fn string_index(hay: &Vec<u8>, needle: &Vec<u8>) -> (r: num::BigInt)
    ensures
        big_value(r) == first_occurrence::<u8>(hay@, needle@, 0),
{
    proof {
        crate::value::lemma_views_bytes(hay@);
        crate::value::lemma_views_bytes(needle@);
    }
    find_occurrence(hay, needle)
}

/// The first index of an element of `hay` equal to `x`, or -1.
pub fn position<T: Elem>(hay: &Vec<T>, x: &T) -> (r: num::BigInt)
    ensures
        big_value(r) == first_index::<T>(views(hay@), x@, 0),
{
    let mut i: usize = 0;
    while i < hay.len()
        invariant
            i <= hay.len(),
            first_index::<T>(views(hay@), x@, 0) == first_index::<T>(views(hay@), x@, i as int),
        decreases hay.len() - i,
    {
        if hay[i].is_same(x) {
            return big_from_u64(i as u64);
        }
        i += 1;
    }
    big_from_i64(-1)
}

} // verus!
