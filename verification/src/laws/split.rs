//! Laws of splitting and joining: a sequence split at a separator and joined
//! with the same separator is the sequence again.

use vstd::prelude::*;
use crate::value::{Val, Gval, Elem, val_eq};
use crate::coerce::{joined, joined_upto};
use crate::util::{item_eq, occurs_at, fragments_from, split_of};
use crate::machine::{State, push, arrs, strs, op_slash, op_asterisk};
use crate::laws::sets::{val_eq_reflexive, filter_keeps_all};

verus! {

/// The first `n` fragments in a row, with `sep` between neighbours.
pub open spec fn glued<E>(f: Seq<Seq<E>>, sep: Seq<E>, n: int) -> Seq<E>
    decreases n,
{
    if n <= 0 || n > f.len() {
        Seq::empty()
    } else if n == 1 {
        f[0]
    } else {
        glued(f, sep, n - 1) + sep + f[n - 1]
    }
}

/// Sequences of the same length whose elements are equal one by one.
pub open spec fn items_eq<T: Elem>(x: Seq<T::V>, y: Seq<T::V>) -> bool {
    x.len() == y.len() && forall|k: int| 0 <= k < x.len() ==> item_eq::<T>(#[trigger] x[k], y[k])
}

/// Joining strings with a string is gluing their bytes.
pub proof fn joined_strings_are_glued(f: Seq<Seq<u8>>, sep: Seq<u8>, n: int)
    requires
        0 <= n <= f.len(),
    ensures
        joined_upto(strs(f), Val::Str(sep), n) == Val::Str(glued(f, sep, n)),
    decreases n,
{
    if n == 1 {
        assert(Seq::<u8>::empty() + f[0] =~= f[0]);
    } else if n > 1 {
        joined_strings_are_glued(f, sep, n - 1);
    }
}

/// Joining arrays with an array is gluing their elements.
pub proof fn joined_arrays_are_glued(f: Seq<Seq<Val>>, sep: Seq<Val>, n: int)
    requires
        0 <= n <= f.len(),
    ensures
        joined_upto(arrs(f), Val::Arr(sep), n) == Val::Arr(glued(f, sep, n)),
    decreases n,
{
    if n == 1 {
        assert(Seq::<Val>::empty() + f[0] =~= f[0]);
    } else if n > 1 {
        joined_arrays_are_glued(f, sep, n - 1);
    }
}

/// Gluing with one more fragment in front.
pub proof fn glued_with_head<E>(h: Seq<E>, t: Seq<Seq<E>>, sep: Seq<E>, n: int)
    requires
        1 <= n <= t.len(),
    ensures
        glued(seq![h] + t, sep, n + 1) == h + sep + glued(t, sep, n),
    decreases n,
{
    let f = seq![h] + t;
    assert(f[0] == h);
    assert(f[n] == t[n - 1]);
    if n == 1 {
        assert(glued(f, sep, 1) == h);
        assert(glued(f, sep, 2) =~= h + sep + t[0]);
    } else {
        glued_with_head(h, t, sep, n - 1);
        assert(glued(f, sep, n + 1) =~= h + sep + glued(t, sep, n));
    }
}

/// The fragments of a sequence from `start` on, glued with the separator,
/// are the sequence from `start` on, element by element equal.
pub proof fn fragments_glue_back<T: Elem>(a: Seq<T::V>, sep: Seq<T::V>, start: int, i: int)
    requires
        0 <= start <= i <= a.len(),
        sep.len() > 0,
    ensures
        fragments_from::<T>(a, sep, start, i).len() >= 1,
        items_eq::<T>(
            a.subrange(start, a.len() as int),
            glued(
                fragments_from::<T>(a, sep, start, i),
                sep,
                fragments_from::<T>(a, sep, start, i).len() as int,
            ),
        ),
    decreases a.len() - i,
{
    let f = fragments_from::<T>(a, sep, start, i);
    let whole = a.subrange(start, a.len() as int);
    if i + sep.len() > a.len() {
        assert forall|k: int| 0 <= k < whole.len() implies item_eq::<T>(
            #[trigger] whole[k],
            whole[k],
        ) by {
            val_eq_reflexive(T::lift(whole[k]));
        }
    } else if occurs_at::<T>(a, sep, i) {
        let next = i + sep.len();
        let t = fragments_from::<T>(a, sep, next, next);
        fragments_glue_back::<T>(a, sep, next, next);
        let h = a.subrange(start, i);
        glued_with_head(h, t, sep, t.len() as int);
        let g = glued(f, sep, f.len() as int);
        let gt = glued(t, sep, t.len() as int);
        assert(g == h + sep + gt);
        assert forall|k: int| 0 <= k < whole.len() implies item_eq::<T>(#[trigger] whole[k], g[k]) by {
            if k < i - start {
                val_eq_reflexive(T::lift(whole[k]));
            } else if k < next - start {
                assert(whole[k] == a[i + (k - (i - start))]);
                assert(g[k] == sep[k - (i - start)]);
            } else {
                assert(whole[k] == a.subrange(next, a.len() as int)[k - (next - start)]);
                assert(g[k] == gt[k - (next - start)]);
            }
        }
    } else {
        fragments_glue_back::<T>(a, sep, start, i + 1);
    }
}

/// A string split at a separator that is not empty, then joined with the
/// separator, is the string again.
pub proof fn split_then_join_string(x: Seq<u8>, sep: Seq<u8>)
    requires
        sep.len() > 0,
    ensures
        joined(strs(split_of::<u8>(x, sep, false)), Val::Str(sep)) == Val::Str(x),
{
    let f = split_of::<u8>(x, sep, false);
    fragments_glue_back::<u8>(x, sep, 0, 0);
    joined_strings_are_glued(f, sep, f.len() as int);
    let g = glued(f, sep, f.len() as int);
    assert(x.subrange(0, x.len() as int) =~= x);
    assert forall|k: int| 0 <= k < x.len() implies x[k] == g[k] by {
        assert(item_eq::<u8>(x[k], g[k]));
    }
    assert(g =~= x);
}

/// An array split at a separator that is not empty, then joined with the
/// separator, is equal to the array.  (Where the array holds a block and the
/// separator the string of the same bytes, or the other way round, the
/// result holds the separator's.)
pub proof fn split_then_join_array(x: Seq<Val>, sep: Seq<Val>)
    requires
        sep.len() > 0,
    ensures
        val_eq(Val::Arr(x), joined(arrs(split_of::<Gval>(x, sep, false)), Val::Arr(sep))),
{
    let f = split_of::<Gval>(x, sep, false);
    fragments_glue_back::<Gval>(x, sep, 0, 0);
    joined_arrays_are_glued(f, sep, f.len() as int);
    let g = glued(f, sep, f.len() as int);
    assert(x.subrange(0, x.len() as int) =~= x);
    assert forall|k: int| 0 <= k < x.len() implies val_eq(#[trigger] x[k], g[k]) by {
        assert(item_eq::<Gval>(x[k], g[k]));
    }
}

/// Where splitting leaves no empty fragment, the clean split is the split,
/// so that joining it gives the sequence back as well.
pub proof fn clean_split_without_empty_fragments<T: Elem>(x: Seq<T::V>, sep: Seq<T::V>)
    requires
        forall|i: int|
            0 <= i < split_of::<T>(x, sep, false).len() ==> (#[trigger] split_of::<T>(
                x,
                sep,
                false,
            )[i]).len() > 0,
    ensures
        split_of::<T>(x, sep, true) == split_of::<T>(x, sep, false),
{
    filter_keeps_all(split_of::<T>(x, sep, false), |f: Seq<T::V>| f.len() > 0);
}

/// `/` then `*` with the same separator: with a string and, on top of it, a
/// separator string that is not empty, splitting and then joining with the
/// separator leaves the string on top of what was below.
pub proof fn slash_then_asterisk_restores_string(s: State, x: Seq<u8>, sep: Seq<u8>, depth: nat)
    requires
        s.stack.len() >= 2,
        s.stack[s.stack.len() - 2] == Val::Str(x),
        s.stack.last() == Val::Str(sep),
        sep.len() > 0,
    ensures
        op_asterisk(push(op_slash(s, depth), Val::Str(sep)), depth).stack
            == s.stack.drop_last().drop_last().push(Val::Str(x)),
{
    let rest = s.stack.drop_last().drop_last();
    let parts = Val::Arr(strs(split_of::<u8>(x, sep, false)));
    let s1 = op_slash(s, depth);
    assert(s1.stack == rest.push(parts));
    let s2 = push(s1, Val::Str(sep));
    assert(s2.stack.drop_last() =~= s1.stack);
    assert(s1.stack.drop_last() =~= rest);
    split_then_join_string(x, sep);
}

} // verus!
