//! Laws of the symbols that only move values on the stack, and of `,`.

use vstd::prelude::*;
use crate::value::Val;
use crate::parse::Tok;
use crate::machine::{
    State, Builtin, builtin_of, push, pop, op_dup, op_drop, op_swap, op_comma, op_open, op_close,
    range, run_token, run_builtin,
};

verus! {

/// `.` duplicates: with `v` on top, the stack afterwards is the old stack
/// with one more `v`.
pub proof fn dup_duplicates(s: State, v: Val)
    requires
        s.stack.len() > 0,
        s.stack.last() == v,
    ensures
        op_dup(s).stack == s.stack.push(v),
        run_builtin(s, Builtin::Dup, 0).stack == s.stack.push(v),
{
    assert(s.stack.drop_last().push(v) =~= s.stack);
}

/// `.` then `;` leaves the stack as it was, whatever the stack holds.
pub proof fn dup_then_drop_restores_stack(s: State)
    requires
        s.stack.len() > 0,
    ensures
        op_drop(op_dup(s)).stack == s.stack,
{
    let v = s.stack.last();
    dup_duplicates(s, v);
    assert(s.stack.push(v).drop_last() =~= s.stack);
}

/// `\` twice leaves the two topmost values, and all below them, where they
/// were.
pub proof fn swap_twice_restores_stack(s: State)
    requires
        s.stack.len() >= 2,
    ensures
        op_swap(op_swap(s)).stack == s.stack,
{
    let n = s.stack.len() as int;
    let a = s.stack[n - 2];
    let b = s.stack[n - 1];
    let rest = s.stack.take(n - 2);
    assert(s.stack.drop_last().drop_last() =~= rest);
    let once = op_swap(s);
    assert(once.stack == rest.push(b).push(a));
    assert(once.stack.drop_last() =~= rest.push(b));
    assert(once.stack.drop_last().drop_last() =~= rest);
    assert(rest.push(a).push(b) =~= s.stack);
}

/// `,` on a sequence gives its length: an array or string on top is replaced
/// by the number of its elements.
pub proof fn comma_gives_length(s: State, depth: nat)
    requires
        s.stack.len() > 0,
        s.stack.last() is Arr || s.stack.last() is Str,
    ensures
        s.stack.last() matches Val::Arr(xs) ==> op_comma(s, depth).stack
            == s.stack.drop_last().push(Val::Int(xs.len() as int)),
        s.stack.last() matches Val::Str(bs) ==> op_comma(s, depth).stack
            == s.stack.drop_last().push(Val::Int(bs.len() as int)),
{
}

/// `,` on an integer `n` that is not negative gives the integers from 0 up
/// to `n - 1`, provided the loop cap allows `n` rounds.
pub proof fn comma_gives_range(s: State, n: int, depth: nat)
    requires
        s.stack.len() > 0,
        s.stack.last() == Val::Int(n),
        0 <= n <= s.max_loops,
    ensures
        op_comma(s, depth).stack == s.stack.drop_last().push(Val::Arr(range(n))),
        range(n).len() == n,
        forall|i: int| 0 <= i < n ==> #[trigger] range(n)[i] == Val::Int(i),
{
}

/// The token `,` is the built-in symbol as long as no variable has its name.
pub proof fn comma_token_is_builtin(s: State, depth: nat)
    requires
        !s.vars.contains_key(seq![44u8]),
    ensures
        run_token(s, Tok::Symbol(seq![44u8]), depth) == op_comma(s, depth),
{
    let name = seq![44u8];
    assert(name[0] == 44u8);
    assert(builtin_of(name) == Some(Builtin::Comma)) by {
        assert(forall|c: u8| c != 44u8 ==> (#[trigger] seq![c])[0] != name[0]);
    }
}

/// Whether the bracket marks are in order: none lies behind the top of the
/// stack, and none lies above a later one.
pub open spec fn marks_in_order(s: State) -> bool {
    &&& forall|i: int| 0 <= i < s.lb.len() ==> 0 <= #[trigger] s.lb[i] <= s.stack.len()
    &&& forall|i: int, j: int| 0 <= i <= j < s.lb.len() ==> s.lb[i] <= s.lb[j]
}

/// Pushing, popping and the two brackets keep the bracket marks in order: a
/// pop takes the marks down with the top.
pub proof fn marks_stay_in_order(s: State, v: Val)
    requires
        marks_in_order(s),
    ensures
        marks_in_order(push(s, v)),
        marks_in_order(pop(s).0),
        marks_in_order(op_open(s)),
        marks_in_order(op_close(s)),
{
    let popped = pop(s).0;
    assert forall|i: int| 0 <= i < popped.lb.len() implies 0 <= #[trigger] popped.lb[i]
        <= popped.stack.len() by {
        assert(0 <= s.lb[i] <= s.stack.len());
    }
    assert forall|i: int, j: int| 0 <= i <= j < popped.lb.len() implies popped.lb[i]
        <= popped.lb[j] by {
        assert(s.lb[i] <= s.lb[j]);
        assert(0 <= s.lb[i] <= s.stack.len());
        assert(0 <= s.lb[j] <= s.stack.len());
    }
    let opened = op_open(s);
    assert forall|i: int| 0 <= i < opened.lb.len() implies 0 <= #[trigger] opened.lb[i]
        <= opened.stack.len() by {
        if i < s.lb.len() {
            assert(0 <= s.lb[i] <= s.stack.len());
        }
    }
    assert forall|i: int, j: int| 0 <= i <= j < opened.lb.len() implies opened.lb[i]
        <= opened.lb[j] by {
        if j < s.lb.len() {
            assert(s.lb[i] <= s.lb[j]);
        } else if i < s.lb.len() {
            assert(0 <= s.lb[i] <= s.stack.len());
        }
    }
    let closed = op_close(s);
    if s.lb.len() > 0 {
        let last = s.lb.len() - 1;
        assert(0 <= s.lb[last] <= s.stack.len());
        assert forall|i: int| 0 <= i < closed.lb.len() implies 0 <= #[trigger] closed.lb[i]
            <= closed.stack.len() by {
            assert(closed.lb[i] == s.lb[i]);
            assert(0 <= s.lb[i] <= s.stack.len());
            assert(s.lb[i] <= s.lb[last]);
        }
        assert forall|i: int, j: int| 0 <= i <= j < closed.lb.len() implies closed.lb[i]
            <= closed.lb[j] by {
            assert(s.lb[i] <= s.lb[j]);
        }
    }
}

} // verus!
