//! Promotion of a pair of values to a common kind, in the order
//! `Int < Arr < Str < Blk`.

use vstd::prelude::*;
use crate::bigint::big_value;
use crate::value::{
    Gval, Val, Elem, views, lemma_view_arr, rank, as_items, as_bytes, to_gs, byte_vals, flat,
    flat_upto, flatten, append_bytes,
};

verus! {

/// The mathematical view of a coerced pair.
pub enum CoercedVal {
    Ints(int, int),
    Arrs(Seq<Val>, Seq<Val>),
    Strs(Seq<u8>, Seq<u8>),
    Blks(Seq<u8>, Seq<u8>),
}

/// Two values brought to a common kind.
pub enum Coerced {
    Ints(num::BigInt, num::BigInt),
    Arrs(Vec<Gval>, Vec<Gval>),
    Strs(Vec<u8>, Vec<u8>),
    Blks(Vec<u8>, Vec<u8>),
}

impl View for Coerced {
    type V = CoercedVal;

    open spec fn view(&self) -> CoercedVal {
        match self {
            Coerced::Ints(x, y) => CoercedVal::Ints(big_value(*x), big_value(*y)),
            Coerced::Arrs(x, y) => CoercedVal::Arrs(views(x@), views(y@)),
            Coerced::Strs(x, y) => CoercedVal::Strs(x@, y@),
            Coerced::Blks(x, y) => CoercedVal::Blks(x@, y@),
        }
    }
}

/// Both values promoted to the higher-ranked kind of the two.  An integer
/// becomes a one-element array; an integer or an array becomes a string by
/// its unadorned rendering; a string becomes a block with the same bytes.
pub open spec fn coerced(a: Val, b: Val) -> CoercedVal {
    let r = if rank(a) >= rank(b) {
        rank(a)
    } else {
        rank(b)
    };
    if r == 0 {
        CoercedVal::Ints(a->Int_0, b->Int_0)
    } else if r == 1 {
        CoercedVal::Arrs(as_items(a), as_items(b))
    } else if r == 2 {
        CoercedVal::Strs(as_bytes(a), as_bytes(b))
    } else {
        CoercedVal::Blks(as_bytes(a), as_bytes(b))
    }
}

/// The sum of two values: integers add; any other pair is promoted to a
/// common kind and concatenated.
pub open spec fn plus(a: Val, b: Val) -> Val {
    match coerced(a, b) {
        CoercedVal::Ints(x, y) => Val::Int(x + y),
        CoercedVal::Arrs(x, y) => Val::Arr(x + y),
        CoercedVal::Strs(x, y) => Val::Str(x + y),
        CoercedVal::Blks(x, y) => Val::Blk(x + y),
    }
}

/// The first `n` elements of `a` summed, with `sep` between neighbours,
/// starting from the empty value of the separator's kind.
pub open spec fn joined_upto(a: Seq<Val>, sep: Val, n: int) -> Val
    decreases n,
{
    if n <= 0 || n > a.len() {
        crate::value::factory(sep)
    } else if n == 1 {
        plus(crate::value::factory(sep), a[0])
    } else {
        plus(plus(joined_upto(a, sep, n - 1), sep), a[n - 1])
    }
}

/// The elements of `a` joined with `sep` between neighbours.
pub open spec fn joined(a: Seq<Val>, sep: Val) -> Val {
    joined_upto(a, sep, a.len() as int)
}

/// Bytes as a vector of integer values.
pub fn bytes_to_items(b: &Vec<u8>) -> (r: Vec<Gval>)
    ensures
        views(r@) == byte_vals(b@),
{
    let mut r: Vec<Gval> = Vec::new();
    let mut i: usize = 0;
    while i < b.len()
        invariant
            i <= b.len(),
            r.len() == i,
            forall|j: int| 0 <= j < i ==> r@[j]@ == Val::Int(b@[j] as int),
        decreases b.len() - i,
    {
        r.push(b[i].into_gval());
        i += 1;
    }
    proof {
        assert(views(r@) =~= byte_vals(b@));
    }
    r
}

impl Gval {
    /// The value read as a sequence of values.
    pub fn into_items(self) -> (r: Vec<Gval>)
        ensures
            views(r@) == as_items(self@),
    {
        match self {
            Gval::Int(n) => {
                let mut r: Vec<Gval> = Vec::new();
                let ghost v = Gval::Int(n)@;
                r.push(Gval::Int(n));
                proof {
                    assert(views(r@) =~= seq![v]);
                }
                r
            },
            Gval::Arr(xs) => {
                proof {
                    lemma_view_arr(xs);
                }
                xs
            },
            Gval::Str(b) => bytes_to_items(&b),
            Gval::Blk(b) => bytes_to_items(&b),
        }
    }

    /// The value read as bytes.
    pub fn into_bytes(self) -> (r: Vec<u8>)
        ensures
            r@ == as_bytes(self@),
    {
        match self {
            Gval::Str(b) => b,
            Gval::Blk(b) => b,
            other => other.to_gs(),
        }
    }

    /// Appends the value, flattened to bytes, to `out`.
    #[verifier::loop_isolation(false)]
    pub fn write_flat(&self, out: &mut Vec<u8>)
        ensures
            final(out)@ == old(out)@ + flat(self@),
        decreases self,
    {
        match self {
            Gval::Int(n) => {
                let m = crate::bigint::big_mod_floor(n, &crate::bigint::big_from_i64(256));
                let b = crate::bigint::big_to_u8(&m);
                proof {
                    assert(crate::bigint::floor_mod(big_value(*n), 256) == big_value(*n) % 256)
                        by (nonlinear_arith);
                }
                match b {
                    Some(c) => {
                        out.push(c);
                        proof {
                            assert(out@ =~= old(out)@ + flat(self@));
                        }
                    },
                    None => {},
                }
            },
            Gval::Arr(xs) => {
                proof {
                    lemma_view_arr(*xs);
                    assert(out@ =~= old(out)@ + flat_upto(views(xs@), 0));
                }
                let mut i: usize = 0;
                while i < xs.len()
                    invariant
                        i <= xs.len(),
                        out@ == old(out)@ + flat_upto(views(xs@), i as int),
                    decreases xs.len() - i,
                {
                    let ghost before = out@;
                    xs[i].write_flat(out);
                    proof {
                        assert(out@ == before + flat(views(xs@)[i as int]));
                        assert(out@ =~= old(out)@ + flat_upto(views(xs@), i + 1));
                    }
                    i += 1;
                }
            },
            Gval::Str(b) => {
                append_bytes(out, b);
            },
            Gval::Blk(b) => {
                append_bytes(out, b);
            },
        }
    }

    /// The sum of two values.
    pub fn plus(self, other: Gval) -> (r: Gval)
        ensures
            r@ == plus(self@, other@),
    {
        match coerce(self, other) {
            Coerced::Ints(x, y) => Gval::Int(crate::bigint::big_add(&x, &y)),
            Coerced::Arrs(x, y) => {
                let mut x = x;
                let mut y = y;
                let ghost x0 = views(x@);
                let ghost y0 = views(y@);
                x.append(&mut y);
                proof {
                    lemma_view_arr(x);
                    assert(views(x@) =~= x0 + y0);
                }
                Gval::Arr(x)
            },
            Coerced::Strs(x, y) => {
                let mut x = x;
                append_bytes(&mut x, &y);
                Gval::Str(x)
            },
            Coerced::Blks(x, y) => {
                let mut x = x;
                append_bytes(&mut x, &y);
                Gval::Blk(x)
            },
        }
    }
}

/// A sequence of values flattened to bytes.
pub fn flatten_vals(xs: &Vec<Gval>) -> (r: Vec<u8>)
    ensures
        r@ == flatten(views(xs@)),
{
    let mut out: Vec<u8> = Vec::new();
    let mut i: usize = 0;
    proof {
        assert(out@ =~= flat_upto(views(xs@), 0));
    }
    while i < xs.len()
        invariant
            i <= xs.len(),
            out@ == flat_upto(views(xs@), i as int),
        decreases xs.len() - i,
    {
        let ghost before = out@;
        xs[i].write_flat(&mut out);
        proof {
            assert(out@ == before + flat(views(xs@)[i as int]));
        }
        i += 1;
    }
    out
}

/// Promotes two values to the higher-ranked kind of the two.
pub fn coerce(a: Gval, b: Gval) -> (r: Coerced)
    ensures
        r@ == coerced(a@, b@),
{
    let ra = a.rank();
    let rb = b.rank();
    let r = if ra >= rb {
        ra
    } else {
        rb
    };
    if r == 0 {
        match (a, b) {
            (Gval::Int(x), Gval::Int(y)) => Coerced::Ints(x, y),
            (a, b) => Coerced::Arrs(a.into_items(), b.into_items()),
        }
    } else if r == 1 {
        Coerced::Arrs(a.into_items(), b.into_items())
    } else if r == 2 {
        Coerced::Strs(a.into_bytes(), b.into_bytes())
    } else {
        Coerced::Blks(a.into_bytes(), b.into_bytes())
    }
}

/// Joins the elements of `a` with `sep` between neighbours.
pub fn join(a: Vec<Gval>, sep: Gval) -> (r: Gval)
    ensures
        r@ == joined(views(a@), sep@),
{
    let mut acc = sep.factory();
    let mut i: usize = 0;
    while i < a.len()
        invariant
            i <= a.len(),
            acc@ == joined_upto(views(a@), sep@, i as int),
        decreases a.len() - i,
    {
        if i > 0 {
            acc = acc.plus(sep.clone());
        }
        acc = acc.plus(a[i].clone());
        i += 1;
    }
    acc
}

} // verus!
