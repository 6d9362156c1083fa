//! Laws of `base`: taking an integer to its digits and back.

use vstd::prelude::*;
use vstd::arithmetic::power::pow;
use crate::bigint::{floor_div, floor_mod, int_abs};
use crate::value::Val;
use crate::machine::{State, push, digits_rev, undigits, int_or_zero, op_base};

verus! {

/// The number whose digits in base `b`, least significant first, are the
/// items of `d` from index `k` on.
pub open spec fn lsb_value(d: Seq<Val>, b: int, k: int) -> int
    decreases d.len() - k,
{
    if k < 0 || k >= d.len() {
        0
    } else {
        int_or_zero(d[k]) + b * lsb_value(d, b, k + 1)
    }
}

/// Digits are taken behind what has been collected already.
pub proof fn digits_rev_appends(i: int, b: int, acc: Seq<Val>, budget: nat)
    ensures
        digits_rev(i, b, acc, budget) == acc + digits_rev(i, b, Seq::empty(), budget),
    decreases budget,
{
    if i == 0 || budget == 0 {
        assert(acc + Seq::<Val>::empty() =~= acc);
    } else {
        let d = Val::Int(floor_mod(i, b));
        digits_rev_appends(floor_div(i, b), b, acc.push(d), (budget - 1) as nat);
        digits_rev_appends(floor_div(i, b), b, Seq::<Val>::empty().push(d), (budget - 1) as nat);
        let rest = digits_rev(floor_div(i, b), b, Seq::empty(), (budget - 1) as nat);
        assert(acc.push(d) + rest =~= acc + (Seq::<Val>::empty().push(d) + rest));
    }
}

/// The value of digits does not change when a digit is put in front of them
/// and the reading starts one place later.
pub proof fn lsb_value_shift(x: Val, d: Seq<Val>, b: int, k: int)
    requires
        0 <= k <= d.len(),
    ensures
        lsb_value(seq![x] + d, b, k + 1) == lsb_value(d, b, k),
    decreases d.len() - k,
{
    if k < d.len() {
        lsb_value_shift(x, d, b, k + 1);
        assert((seq![x] + d)[k + 1] == d[k]);
    }
}

/// Reading digits most significant first is reading their reversal least
/// significant first.
pub proof fn undigits_of_reversed(d: Seq<Val>, b: int, n: int)
    requires
        0 <= n <= d.len(),
    ensures
        undigits(d.reverse(), b, n) == lsb_value(d, b, d.len() - n),
    decreases n,
{
    if n > 0 {
        undigits_of_reversed(d, b, n - 1);
        assert(d.reverse()[n - 1] == d[d.len() - n]);
        assert(undigits(d.reverse(), b, n - 1) * b == b * undigits(d.reverse(), b, n - 1))
            by (nonlinear_arith);
    }
}

/// The digits of a natural number, taken in a base above one with enough
/// rounds for all of them, have the number as their value.
pub proof fn digits_have_value(i: int, b: int, budget: nat)
    requires
        0 <= i,
        b > 1,
        i < pow(b, budget),
    ensures
        lsb_value(digits_rev(i, b, Seq::empty(), budget), b, 0) == i,
    decreases budget,
{
    reveal(pow);
    if i == 0 {
    } else {
        assert(budget > 0);
        let q = floor_div(i, b);
        let r = floor_mod(i, b);
        assert(q == i / b);
        assert(0 <= q && i == b * q + r && 0 <= r < b && q < pow(b, (budget - 1) as nat))
            by (nonlinear_arith)
            requires
                q == i / b,
                r == i - b * q,
                b > 1,
                i >= 0,
                i < b * pow(b, (budget - 1) as nat),
        ;
        digits_have_value(q, b, (budget - 1) as nat);
        let x = Val::Int(r);
        let rest = digits_rev(q, b, Seq::empty(), (budget - 1) as nat);
        digits_rev_appends(q, b, Seq::<Val>::empty().push(x), (budget - 1) as nat);
        assert(Seq::<Val>::empty().push(x) =~= seq![x]);
        let all = digits_rev(i, b, Seq::empty(), budget);
        assert(all == seq![x] + rest);
        lsb_value_shift(x, rest, b, 0);
        assert(all[0] == x);
    }
}

/// `base` is undone by `base`: an integer `n` taken to its digits in a base
/// `b` above one, and the digits read back in the same base, give the
/// magnitude of `n`, provided the loop cap allows a round for every digit.
pub proof fn base_round_trip(s: State, n: int, b: int)
    requires
        s.stack.len() >= 2,
        s.stack[s.stack.len() - 2] == Val::Int(n),
        s.stack.last() == Val::Int(b),
        b > 1,
        int_abs(n) < pow(b, s.max_loops as nat),
    ensures
        op_base(push(op_base(s), Val::Int(b))).stack == s.stack.drop_last().drop_last().push(
            Val::Int(int_abs(n)),
        ),
{
    let rest = s.stack.drop_last().drop_last();
    let d = digits_rev(int_abs(n), b, Seq::empty(), s.max_loops as nat);
    let s1 = op_base(s);
    assert(s1.stack == rest.push(Val::Arr(d.reverse())));
    let s2 = push(s1, Val::Int(b));
    assert(s2.stack.drop_last() =~= s1.stack);
    assert(s1.stack.drop_last() =~= rest);
    digits_have_value(int_abs(n), b, s.max_loops as nat);
    undigits_of_reversed(d, b, d.len() as int);
    assert(d.reverse().len() == d.len());
}

} // verus!
