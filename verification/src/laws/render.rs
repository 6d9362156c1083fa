//! Laws of the unadorned rendering.

use vstd::prelude::*;
use crate::value::{Val, to_gs, to_gs_upto};

verus! {

/// The rendering of the first `n` elements does not depend on what follows
/// them.
pub proof fn to_gs_upto_prefix(a: Seq<Val>, b: Seq<Val>, n: int)
    requires
        0 <= n <= a.len(),
    ensures
        to_gs_upto(a + b, n) == to_gs_upto(a, n),
    decreases n,
{
    if n > 0 {
        to_gs_upto_prefix(a, b, n - 1);
        assert((a + b)[n - 1] == a[n - 1]);
    }
}

/// The rendering of a concatenation, up to `n` elements into its second
/// part, is the rendering of the first part followed by that of the second
/// up to `n`.
pub proof fn to_gs_upto_concat(a: Seq<Val>, b: Seq<Val>, n: int)
    requires
        0 <= n <= b.len(),
    ensures
        to_gs_upto(a + b, a.len() + n) == to_gs_upto(a, a.len() as int) + to_gs_upto(b, n),
    decreases n,
{
    if n == 0 {
        to_gs_upto_prefix(a, b, a.len() as int);
        assert(to_gs_upto(a, a.len() as int) + to_gs_upto(b, 0) =~= to_gs_upto(
            a,
            a.len() as int,
        ));
    } else {
        to_gs_upto_concat(a, b, n - 1);
        assert((a + b)[a.len() + n - 1] == b[n - 1]);
        assert(to_gs_upto(a + b, a.len() + n) =~= to_gs_upto(a, a.len() as int) + to_gs_upto(
            b,
            n,
        ));
    }
}

/// The unadorned rendering distributes over the concatenation of arrays.
pub proof fn to_gs_of_concatenated_arrays(a: Seq<Val>, b: Seq<Val>)
    ensures
        to_gs(Val::Arr(a + b)) == to_gs(Val::Arr(a)) + to_gs(Val::Arr(b)),
{
    to_gs_upto_concat(a, b, b.len() as int);
}

/// The unadorned rendering distributes over the concatenation of strings.
pub proof fn to_gs_of_concatenated_strings(a: Seq<u8>, b: Seq<u8>)
    ensures
        to_gs(Val::Str(a + b)) == to_gs(Val::Str(a)) + to_gs(Val::Str(b)),
{
}

} // verus!
