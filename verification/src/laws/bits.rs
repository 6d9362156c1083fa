//! Laws of the bitwise operators on integers.

use vstd::prelude::*;
use crate::bigint::{bit_and, bit_or, bit_xor, bits_constant, int_abs};
use crate::value::Val;
use crate::machine::{State, op_and, op_or, op_xor, op_swap};

verus! {

/// Bitwise AND does not depend on the order of its operands.
pub proof fn bit_and_commutes(a: int, b: int)
    ensures
        bit_and(a, b) == bit_and(b, a),
    decreases int_abs(a) + int_abs(b),
{
    if !(bits_constant(a) && bits_constant(b)) {
        bit_and_commutes(a / 2, b / 2);
    }
}

/// Bitwise OR does not depend on the order of its operands.
pub proof fn bit_or_commutes(a: int, b: int)
    ensures
        bit_or(a, b) == bit_or(b, a),
    decreases int_abs(a) + int_abs(b),
{
    if !(bits_constant(a) && bits_constant(b)) {
        bit_or_commutes(a / 2, b / 2);
    }
}

/// Bitwise XOR does not depend on the order of its operands.
pub proof fn bit_xor_commutes(a: int, b: int)
    ensures
        bit_xor(a, b) == bit_xor(b, a),
    decreases int_abs(a) + int_abs(b),
{
    if !(bits_constant(a) && bits_constant(b)) {
        bit_xor_commutes(a / 2, b / 2);
    }
}

/// An integer combined with itself: AND and OR give it back, XOR gives zero.
pub proof fn bit_ops_on_equal_operands(a: int)
    ensures
        bit_and(a, a) == a,
        bit_or(a, a) == a,
        bit_xor(a, a) == 0,
    decreases int_abs(a),
{
    if !bits_constant(a) {
        bit_ops_on_equal_operands(a / 2);
    }
}

/// `&`, `|` and `^` on two integers give the same whichever of the two is on
/// top.
pub proof fn bitwise_symbols_commute_on_integers(s: State, a: int, b: int)
    requires
        s.stack.len() >= 2,
        s.stack[s.stack.len() - 2] == Val::Int(a),
        s.stack.last() == Val::Int(b),
    ensures
        op_and(op_swap(s)).stack == op_and(s).stack,
        op_or(op_swap(s)).stack == op_or(s).stack,
        op_xor(op_swap(s)).stack == op_xor(s).stack,
{
    let rest = s.stack.drop_last().drop_last();
    let t = op_swap(s);
    assert(t.stack == rest.push(Val::Int(b)).push(Val::Int(a)));
    assert(t.stack.drop_last() =~= rest.push(Val::Int(b)));
    assert(t.stack.drop_last().drop_last() =~= rest);
    bit_and_commutes(a, b);
    bit_or_commutes(a, b);
    bit_xor_commutes(a, b);
}

/// `&`, `|` and `^` on an integer and itself: `&` and `|` give the integer,
/// `^` gives zero.
pub proof fn bitwise_symbols_on_equal_integers(s: State, a: int)
    requires
        s.stack.len() >= 2,
        s.stack[s.stack.len() - 2] == Val::Int(a),
        s.stack.last() == Val::Int(a),
    ensures
        op_and(s).stack == s.stack.drop_last(),
        op_or(s).stack == s.stack.drop_last(),
        op_xor(s).stack == s.stack.drop_last().drop_last().push(Val::Int(0)),
{
    bit_ops_on_equal_operands(a);
    assert(s.stack.drop_last().drop_last().push(Val::Int(a)) =~= s.stack.drop_last());
}

} // verus!
