//! Laws of cutting a sequence into pieces: the chunks of a sequence, put
//! together, are the sequence, and repeating multiplies the length.

use vstd::prelude::*;
use crate::util::{chunks, repeated};

verus! {

/// The pieces one behind the other.
pub open spec fn concat_all<E>(f: Seq<Seq<E>>) -> Seq<E>
    decreases f.len(),
{
    if f.len() == 0 {
        Seq::empty()
    } else {
        f[0] + concat_all(f.skip(1))
    }
}

/// The chunks of a sequence, one behind the other, are the sequence; none is
/// empty and none is longer than asked for.
pub proof fn chunks_make_up_the_sequence<E>(a: Seq<E>, k: int)
    requires
        k > 0,
    ensures
        concat_all(chunks(a, k)) == a,
        forall|i: int|
            0 <= i < chunks(a, k).len() ==> 0 < (#[trigger] chunks(a, k)[i]).len() <= k,
    decreases a.len(),
{
    let c = chunks(a, k);
    if a.len() == 0 {
        assert(a =~= Seq::<E>::empty());
    } else if a.len() <= k {
        assert(c.skip(1) =~= Seq::<Seq<E>>::empty());
        assert(concat_all(c) == c[0] + concat_all(c.skip(1)));
        assert(a + Seq::<E>::empty() =~= a);
    } else {
        let rest = chunks(a.skip(k), k);
        chunks_make_up_the_sequence(a.skip(k), k);
        assert(c.skip(1) =~= rest);
        assert(concat_all(c) == c[0] + concat_all(c.skip(1)));
        assert(a.take(k) + a.skip(k) =~= a);
        assert forall|i: int| 0 <= i < c.len() implies 0 < (#[trigger] c[i]).len() <= k by {
            if i > 0 {
                assert(c[i] == rest[i - 1]);
            }
        }
    }
}

/// Repeating a sequence multiplies its length.
pub proof fn repeated_length<E>(a: Seq<E>, n: int)
    requires
        n >= 0,
    ensures
        repeated(a, n).len() == n * a.len(),
    decreases n,
{
    if n > 0 {
        repeated_length(a, n - 1);
        assert((n - 1) * a.len() + a.len() == n * a.len()) by (nonlinear_arith);
    } else {
        assert(0 * a.len() == 0) by (nonlinear_arith);
    }
}

} // verus!
