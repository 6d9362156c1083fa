//! The abstract machine: what every symbol of the language does to the
//! evaluator's state, as mathematical functions from state to state.
//!
//! Evaluation is total.  A pop from an empty stack yields nothing and marks
//! the state unstable; every loop that a program could keep running is cut
//! off after `max_loops` rounds; and blocks run blocks at most `depth` levels
//! deep, a block at level zero being skipped.

use vstd::prelude::*;
use vstd::arithmetic::power::pow;
use crate::bigint::{
    floor_div, floor_mod, int_abs, bit_and, bit_or, bit_xor, is_decimal, decimal_value,
};
use crate::value::{
    Val, Gval, Order, truthy, bool_val, val_order, to_gs, inspect, factory, as_items, byte_vals,
    flat, flatten,
};
use crate::coerce::{CoercedVal, coerced, plus, joined};
use crate::util::{
    seq_minus, seq_and, seq_or, seq_xor, repeated, chunked, every_nth_of, split_of, wrapped,
    sliced, first_occurrence, first_index,
};
use crate::sort::{sorted_by_key, sorted_vals};
use crate::parse::{Tok, lexeme, tokens_of, rest_of};
use crate::unescape::unescaped;

verus! {

/// The state of the evaluator.
pub struct State {
    /// The value stack, its top at the end.
    pub stack: Seq<Val>,
    /// The variables, by name.
    pub vars: Map<Seq<u8>, Val>,
    /// For each open bracket, the length of the stack when it was opened
    /// (less what pops have taken from below the bracket since).
    pub lb: Seq<int>,
    /// The state of the random number generator.
    pub rng_state: u64,
    /// False once a pop has found the stack empty.
    pub stable: bool,
    /// Everything printed so far.
    pub output: Seq<u8>,
    /// The number of rounds after which a loop is cut off.
    pub max_loops: u64,
    /// How many levels deep blocks may run blocks.
    pub max_depth: usize,
}

/// The seed of the random number generator.
pub const RNG_SEED: u64 = 123456789;

/// The multiplier of the random number generator.
pub const RNG_MULTIPLIER: u64 = 1664525;

/// The increment of the random number generator.
pub const RNG_INCREMENT: u64 = 1013904223;

/// The loop cap (in rounds) of the sandboxed entry point.
pub const SANDBOX_MAX_LOOPS: u64 = 2000;

/// How many levels deep blocks may run blocks unless set otherwise.
pub const DEFAULT_MAX_DEPTH: usize = 200;

/// The state in which evaluation starts: nothing on the stack, no variable
/// bound, loops uncapped.
pub open spec fn initial() -> State {
    State {
        stack: Seq::empty(),
        vars: Map::empty(),
        lb: Seq::empty(),
        rng_state: RNG_SEED,
        stable: true,
        output: Seq::empty(),
        max_loops: u64::MAX,
        max_depth: DEFAULT_MAX_DEPTH,
    }
}

/// The empty array, which stands in for a value that the stack did not have.
pub open spec fn empty_arr() -> Val {
    Val::Arr(Seq::empty())
}

/// The state with `v` pushed.
pub open spec fn push(s: State, v: Val) -> State {
    State { stack: s.stack.push(v), ..s }
}

/// The state with `bytes` printed.
pub open spec fn emit(s: State, bytes: Seq<u8>) -> State {
    State { output: s.output + bytes, ..s }
}

/// The bracket marks before a pop from a stack of `len` values: every mark
/// that is not below `len` goes down by one, but not below zero.
pub open spec fn lowered(lb: Seq<int>, len: int) -> Seq<int> {
    Seq::new(
        lb.len(),
        |i: int|
            if lb[i] >= len && lb[i] > 0 {
                lb[i] - 1
            } else {
                lb[i]
            },
    )
}

/// A pop: the bracket marks are lowered, then the top leaves the stack.  On
/// an empty stack nothing is popped and the state becomes unstable.
pub open spec fn pop(s: State) -> (State, Option<Val>) {
    let lb = lowered(s.lb, s.stack.len() as int);
    if s.stack.len() > 0 {
        (State { stack: s.stack.drop_last(), lb, ..s }, Some(s.stack.last()))
    } else {
        (State { lb, stable: false, ..s }, None)
    }
}

/// A pop that yields `d` where the stack is empty.
pub open spec fn pop_or(s: State, d: Val) -> (State, Val) {
    let (s1, v) = pop(s);
    match v {
        Some(x) => (s1, x),
        None => (s1, d),
    }
}

/// Two pops, each yielding `d` where the stack is empty: the state, the
/// value that was below, the value that was on top.
pub open spec fn pop2_or(s: State, d: Val) -> (State, Val, Val) {
    let (s1, b) = pop_or(s, d);
    let (s2, a) = pop_or(s1, d);
    (s2, a, b)
}

/// `:` with the name that follows it: the name is bound to the top of the
/// stack, which stays; with an empty stack nothing happens.
pub open spec fn assign(s: State, name: Seq<u8>) -> State {
    if s.stack.len() > 0 {
        State { vars: s.vars.insert(name, s.stack.last()), ..s }
    } else {
        s
    }
}

/// `.`: the top is duplicated.
pub open spec fn op_dup(s: State) -> State {
    let (s1, v) = pop_or(s, empty_arr());
    push(push(s1, v), v)
}

/// `;`: the top is dropped.
pub open spec fn op_drop(s: State) -> State {
    pop(s).0
}

/// `\`: the two topmost values change places.
pub open spec fn op_swap(s: State) -> State {
    let (s1, b) = pop(s);
    match b {
        Some(b) => {
            let (s2, a) = pop(s1);
            match a {
                Some(a) => push(push(s2, b), a),
                None => push(s2, b),
            }
        },
        None => s1,
    }
}

/// `@`: the third value from the top comes to the top.
pub open spec fn op_rotate(s: State) -> State {
    let (s1, c) = pop(s);
    match c {
        Some(c) => {
            let (s2, b) = pop(s1);
            match b {
                Some(b) => {
                    let (s3, a) = pop_or(s2, empty_arr());
                    push(push(push(s3, b), c), a)
                },
                None => push(push(push(s2, empty_arr()), c), empty_arr()),
            }
        },
        None => push(push(push(s1, empty_arr()), empty_arr()), empty_arr()),
    }
}

/// `` ` ``: the top is replaced by its inspection, as a string.
pub open spec fn op_backtick(s: State) -> State {
    let (s1, v) = pop(s);
    match v {
        Some(v) => push(s1, Val::Str(inspect(v))),
        None => push(s1, Val::Str(Seq::empty())),
    }
}

/// `!`: the top is replaced by one if it is falsey, else by zero.
pub open spec fn op_bang(s: State) -> State {
    let (s1, v) = pop(s);
    match v {
        Some(v) => push(s1, bool_val(!truthy(v))),
        None => push(s1, bool_val(true)),
    }
}

/// `[`: the length of the stack is marked.
pub open spec fn op_open(s: State) -> State {
    State { lb: s.lb.push(s.stack.len() as int), ..s }
}

/// `]`: the values above the latest mark (above the bottom, if there is no
/// mark) leave the stack and come back as one array.
pub open spec fn op_close(s: State) -> State {
    let mark: int = if s.lb.len() > 0 {
        s.lb.last()
    } else {
        0
    };
    let lb = if s.lb.len() > 0 {
        s.lb.drop_last()
    } else {
        s.lb
    };
    let at = if mark > s.stack.len() {
        s.stack.len() as int
    } else if mark < 0 {
        0
    } else {
        mark
    };
    State { stack: s.stack.take(at).push(Val::Arr(s.stack.skip(at))), lb, ..s }
}

/// `+`.
pub open spec fn op_plus(s: State) -> State {
    let (s2, a, b) = pop2_or(s, empty_arr());
    push(s2, plus(a, b))
}

/// `-`: integers subtract; other pairs are coerced, and the elements of the
/// second leave the first.
pub open spec fn op_minus(s: State) -> State {
    let (s2, a, b) = pop2_or(s, empty_arr());
    push(
        s2,
        match coerced(a, b) {
            CoercedVal::Ints(x, y) => Val::Int(x - y),
            CoercedVal::Arrs(x, y) => Val::Arr(seq_minus::<Gval>(x, y)),
            CoercedVal::Strs(x, y) => Val::Str(seq_minus::<u8>(x, y)),
            CoercedVal::Blks(x, y) => Val::Blk(seq_minus::<u8>(x, y)),
        },
    )
}

/// `|`: bitwise or of integers, union of coerced sequences.
pub open spec fn op_or(s: State) -> State {
    let (s2, a, b) = pop2_or(s, empty_arr());
    push(
        s2,
        match coerced(a, b) {
            CoercedVal::Ints(x, y) => Val::Int(bit_or(x, y)),
            CoercedVal::Arrs(x, y) => Val::Arr(seq_or::<Gval>(x, y)),
            CoercedVal::Strs(x, y) => Val::Str(seq_or::<u8>(x, y)),
            CoercedVal::Blks(x, y) => Val::Blk(seq_or::<u8>(x, y)),
        },
    )
}

/// `&`: bitwise and of integers, intersection of coerced sequences.
pub open spec fn op_and(s: State) -> State {
    let (s2, a, b) = pop2_or(s, empty_arr());
    push(
        s2,
        match coerced(a, b) {
            CoercedVal::Ints(x, y) => Val::Int(bit_and(x, y)),
            CoercedVal::Arrs(x, y) => Val::Arr(seq_and::<Gval>(x, y)),
            CoercedVal::Strs(x, y) => Val::Str(seq_and::<u8>(x, y)),
            CoercedVal::Blks(x, y) => Val::Blk(seq_and::<u8>(x, y)),
        },
    )
}

/// `^`: bitwise xor of integers, symmetric difference of coerced sequences.
pub open spec fn op_xor(s: State) -> State {
    let (s2, a, b) = pop2_or(s, empty_arr());
    push(
        s2,
        match coerced(a, b) {
            CoercedVal::Ints(x, y) => Val::Int(bit_xor(x, y)),
            CoercedVal::Arrs(x, y) => Val::Arr(seq_xor::<Gval>(x, y)),
            CoercedVal::Strs(x, y) => Val::Str(seq_xor::<u8>(x, y)),
            CoercedVal::Blks(x, y) => Val::Blk(seq_xor::<u8>(x, y)),
        },
    )
}

/// Each fragment as an array.
pub open spec fn arrs(f: Seq<Seq<Val>>) -> Seq<Val> {
    Seq::new(f.len(), |i: int| Val::Arr(f[i]))
}

/// Each fragment as a string.
pub open spec fn strs(f: Seq<Seq<u8>>) -> Seq<Val> {
    Seq::new(f.len(), |i: int| Val::Str(f[i]))
}

/// Each byte as a one-byte string.
pub open spec fn singletons(b: Seq<u8>) -> Seq<Val> {
    Seq::new(b.len(), |i: int| Val::Str(seq![b[i]]))
}

/// The integers from zero up to `n`, without `n`.
pub open spec fn range(n: int) -> Seq<Val> {
    Seq::new(
        if n > 0 {
            n as nat
        } else {
            0
        },
        |i: int| Val::Int(i),
    )
}

/// `n` cut down to the number of rounds that a loop may make.
pub open spec fn capped(n: int, max_loops: u64) -> int {
    if n <= 0 {
        0
    } else if n > max_loops {
        max_loops as int
    } else {
        n
    }
}

/// Whether a power is too large to be computed: its magnitude reaches
/// ten to the hundredth.
pub open spec fn power_too_large(base: int, e: nat) -> bool {
    pow(int_abs(base), e) >= pow(10, 100)
}

/// The power of two integers.  An exponent that is negative or does not fit
/// 32 bits gives zero; a power that is too large gives the base.
pub open spec fn power(base: int, e: int) -> int {
    if e < 0 || e > u32::MAX {
        0
    } else if power_too_large(base, e as nat) {
        base
    } else {
        pow(base, e as nat)
    }
}

/// The items of `xs` whose flag is set, among the first `n`.
pub open spec fn kept<E>(xs: Seq<E>, flags: Seq<bool>, n: int) -> Seq<E>
    decreases n,
{
    if n <= 0 || n > xs.len() || n > flags.len() {
        Seq::empty()
    } else if flags[n - 1] {
        kept(xs, flags, n - 1).push(xs[n - 1])
    } else {
        kept(xs, flags, n - 1)
    }
}

/// What is kept of the first `n` items does not depend on later flags.
pub proof fn lemma_kept_push<E>(xs: Seq<E>, flags: Seq<bool>, flag: bool, n: int)
    requires
        n <= flags.len(),
    ensures
        kept(xs, flags.push(flag), n) == kept(xs, flags, n),
    decreases n,
{
    if n > 0 && n <= xs.len() {
        lemma_kept_push(xs, flags, flag, n - 1);
    }
}

/// The items of `xs` whose flag is set.
pub open spec fn kept_all<E>(xs: Seq<E>, flags: Seq<bool>) -> Seq<E> {
    kept(xs, flags, xs.len() as int)
}

/// A column of a transposition with one more element.  An array takes the
/// element as it is, a string or block takes it flattened to bytes, and an
/// integer (the empty value of its kind) gives way to a one-element array.
pub open spec fn column_with(col: Val, e: Val) -> Val {
    match col {
        Val::Int(_) => Val::Arr(seq![e]),
        Val::Arr(xs) => Val::Arr(xs.push(e)),
        Val::Str(b) => Val::Str(b + flat(e)),
        Val::Blk(b) => Val::Blk(b + flat(e)),
    }
}

/// The columns `cols` after the elements of one more row, from its element
/// `y` on, have been appended, each to the column of its index.  A column
/// that does not exist yet starts as `blank`, unless the loop cap is zero.
pub open spec fn zip_row(cols: Seq<Val>, row: Seq<Val>, y: int, blank: Val, max_loops: u64) -> Seq<
    Val,
>
    decreases row.len() - y,
{
    if y < 0 || y >= row.len() {
        cols
    } else {
        let cols1 = if cols.len() < y + 1 && max_loops > 0 {
            cols.push(blank)
        } else {
            cols
        };
        let cols2 = if y < cols1.len() {
            cols1.update(y, column_with(cols1[y], row[y]))
        } else {
            cols1
        };
        zip_row(cols2, row, y + 1, blank, max_loops)
    }
}

/// The columns after the rows from `i` on have been appended.
pub open spec fn zip_rows(cols: Seq<Val>, rows: Seq<Val>, i: int, blank: Val, max_loops: u64) -> Seq<
    Val,
>
    decreases rows.len() - i,
{
    if i < 0 || i >= rows.len() {
        cols
    } else {
        zip_rows(
            zip_row(cols, as_items(rows[i]), 0, blank, max_loops),
            rows,
            i + 1,
            blank,
            max_loops,
        )
    }
}

/// The transposition of an array of rows.  Column `y` holds the elements at
/// index `y` of the rows that have one, in the order of the rows; it is of
/// the kind of the first row.
pub open spec fn zipped(rows: Seq<Val>, max_loops: u64) -> Seq<Val> {
    let blank = if rows.len() > 0 {
        factory(rows[0])
    } else {
        empty_arr()
    };
    zip_rows(Seq::empty(), rows, 0, blank, max_loops)
}

/// `zip`: an array on top is replaced by its transposition; any other value
/// stays as it is.
pub open spec fn op_zip(s: State) -> State {
    let (s1, v) = pop_or(s, empty_arr());
    match v {
        Val::Arr(rows) => push(s1, Val::Arr(zipped(rows, s1.max_loops))),
        _ => push(s1, v),
    }
}

/// The digits of `i` in base `b`, least significant first, after `acc`; at
/// most `budget` digits are taken.
pub open spec fn digits_rev(i: int, b: int, acc: Seq<Val>, budget: nat) -> Seq<Val>
    decreases budget,
{
    if i == 0 || budget == 0 {
        acc
    } else {
        digits_rev(floor_div(i, b), b, acc.push(Val::Int(floor_mod(i, b))), (budget - 1) as nat)
    }
}

/// The integer that a value stands for as a digit or a radix: itself if it
/// is an integer, else zero.
pub open spec fn int_or_zero(v: Val) -> int {
    match v {
        Val::Int(n) => n,
        _ => 0,
    }
}

/// The number whose digits in base `b`, most significant first, are the
/// first `n` items.
pub open spec fn undigits(items: Seq<Val>, b: int, n: int) -> int
    decreases n,
{
    if n <= 0 || n > items.len() {
        0
    } else {
        undigits(items, b, n - 1) * b + int_or_zero(items[n - 1])
    }
}

/// `base`: with a radix on top, an integer below it is replaced by the digits
/// of its magnitude, most significant first; any other value below it is read
/// as digits and replaced by their number.
pub open spec fn op_base(s: State) -> State {
    let (s1, r) = pop_or(s, empty_arr());
    let b = int_or_zero(r);
    let (s2, v) = pop(s1);
    match v {
        Some(Val::Int(n)) => push(
            s2,
            Val::Arr(digits_rev(int_abs(n), b, Seq::empty(), s2.max_loops as nat).reverse()),
        ),
        Some(v) => push(s2, Val::Int(undigits(as_items(v), b, as_items(v).len() as int))),
        None => push(s2, Val::Int(0)),
    }
}

/// The next state of the random number generator.
pub open spec fn rng_next(x: u64) -> u64 {
    ((x * RNG_MULTIPLIER + RNG_INCREMENT) % 0x1_0000_0000_0000_0000) as u64
}

/// `rand`: a positive integer `n` on top is replaced by the generator's next
/// output modulo `n`; any other value, or none, by zero.
pub open spec fn op_rand(s: State) -> State {
    let (s1, v) = pop(s);
    match v {
        Some(Val::Int(n)) => if n > 0 {
            let x = rng_next(s1.rng_state);
            push(State { rng_state: x, ..s1 }, Val::Int(x as int % n))
        } else {
            push(s1, Val::Int(0))
        },
        _ => push(s1, Val::Int(0)),
    }
}

/// `abs`: an integer on top is replaced by its magnitude; any other value
/// stays; an empty stack gets a zero.
pub open spec fn op_abs(s: State) -> State {
    let (s1, v) = pop_or(s, Val::Int(0));
    match v {
        Val::Int(n) => push(s1, Val::Int(int_abs(n))),
        _ => push(s1, v),
    }
}

/// `(` on top of the stack: an integer goes down by one; a sequence loses its
/// first element, which comes to lie on top of it; an empty sequence
/// vanishes.
pub open spec fn op_left_paren(s: State) -> State {
    let (s1, v) = pop(s);
    match v {
        Some(Val::Int(n)) => push(s1, Val::Int(n - 1)),
        Some(Val::Arr(a)) => if a.len() > 0 {
            push(push(s1, Val::Arr(a.skip(1))), a[0])
        } else {
            s1
        },
        Some(Val::Str(a)) => if a.len() > 0 {
            push(push(s1, Val::Str(a.skip(1))), Val::Int(a[0] as int))
        } else {
            s1
        },
        Some(Val::Blk(a)) => if a.len() > 0 {
            push(push(s1, Val::Blk(a.skip(1))), Val::Int(a[0] as int))
        } else {
            s1
        },
        None => push(s1, Val::Int(-1)),
    }
}

/// `)` on top of the stack: an integer goes up by one; a sequence loses its
/// last element, which comes to lie on top of it; an empty sequence vanishes.
pub open spec fn op_right_paren(s: State) -> State {
    let (s1, v) = pop(s);
    match v {
        Some(Val::Int(n)) => push(s1, Val::Int(n + 1)),
        Some(Val::Arr(a)) => if a.len() > 0 {
            push(push(s1, Val::Arr(a.drop_last())), a.last())
        } else {
            s1
        },
        Some(Val::Str(a)) => if a.len() > 0 {
            push(push(s1, Val::Str(a.drop_last())), Val::Int(a.last() as int))
        } else {
            s1
        },
        Some(Val::Blk(a)) => if a.len() > 0 {
            push(push(s1, Val::Blk(a.drop_last())), Val::Int(a.last() as int))
        } else {
            s1
        },
        None => push(s1, Val::Int(1)),
    }
}

/// The state with the element that `i` denotes in `a` pushed, if `a` has any.
pub open spec fn push_indexed(s: State, a: Seq<Val>, i: int) -> State {
    if a.len() > 0 {
        push(s, a[wrapped(i, a.len() as int)])
    } else {
        s
    }
}

/// `<`, `=` and `>`.  With an integer and a sequence: the elements before the
/// index, the element at it, the elements from it on.  With any other pair:
/// one if the two compare as the symbol says, else zero.
pub open spec fn op_compare(s: State, o: Order) -> State {
    let (s2, a, b) = pop2_or(s, empty_arr());
    match (a, b) {
        (Val::Int(i), Val::Arr(x)) => if o == Order::Equal {
            push_indexed(s2, x, i)
        } else {
            push(s2, Val::Arr(sliced(o, x, i)))
        },
        (Val::Arr(x), Val::Int(i)) => if o == Order::Equal {
            push_indexed(s2, x, i)
        } else {
            push(s2, Val::Arr(sliced(o, x, i)))
        },
        (Val::Int(i), Val::Str(x)) => if o == Order::Equal {
            push_indexed(s2, byte_vals(x), i)
        } else {
            push(s2, Val::Str(sliced(o, x, i)))
        },
        (Val::Str(x), Val::Int(i)) => if o == Order::Equal {
            push_indexed(s2, byte_vals(x), i)
        } else {
            push(s2, Val::Str(sliced(o, x, i)))
        },
        (Val::Int(i), Val::Blk(x)) => if o == Order::Equal {
            push_indexed(s2, byte_vals(x), i)
        } else {
            push(s2, Val::Blk(sliced(o, x, i)))
        },
        (Val::Blk(x), Val::Int(i)) => if o == Order::Equal {
            push_indexed(s2, byte_vals(x), i)
        } else {
            push(s2, Val::Blk(sliced(o, x, i)))
        },
        _ => push(s2, bool_val(val_order(a, b) == o)),
    }
}

/// `print`, `p` and `puts`: the top is popped and printed, by its inspection
/// for `p` and unadorned otherwise, with a line feed behind it for `p` and
/// `puts`.  With an empty stack only the line feed is printed.
pub open spec fn op_print(s: State, inspected: bool, newline: bool) -> State {
    let (s1, v) = pop(s);
    let body = match v {
        Some(v) => if inspected {
            inspect(v)
        } else {
            to_gs(v)
        },
        None => Seq::empty(),
    };
    let s2 = emit(s1, body);
    if newline {
        emit(s2, seq![10u8])
    } else {
        s2
    }
}

/// A block is run one level further down; at level zero it is skipped.
pub open spec fn run_block(s: State, code: Seq<u8>, depth: nat) -> State
    decreases depth, 0nat, 0nat,
{
    if depth == 0 {
        s
    } else {
        run_code(s, code, (depth - 1) as nat)
    }
}

/// A value is executed: a block is run, any other value is pushed.
pub open spec fn go(s: State, v: Val, depth: nat) -> State
    decreases depth, 1nat, 0nat,
{
    match v {
        Val::Blk(code) => run_block(s, code, depth),
        _ => push(s, v),
    }
}

/// `code` is run on each item from index `i` on, the item pushed first.
pub open spec fn each(s: State, code: Seq<u8>, items: Seq<Val>, i: int, depth: nat) -> State
    decreases depth, 2nat, items.len() - i,
{
    if i < 0 || i >= items.len() {
        s
    } else {
        each(run_block(push(s, items[i]), code, depth), code, items, i + 1, depth)
    }
}

/// The items from index `i` on are pushed, `code` being run after each but
/// the first.
pub open spec fn fold(s: State, code: Seq<u8>, items: Seq<Val>, i: int, depth: nat) -> State
    decreases depth, 2nat, items.len() - i,
{
    if i < 0 || i >= items.len() {
        s
    } else {
        let s1 = push(s, items[i]);
        let s2 = if i >= 1 {
            run_block(s1, code, depth)
        } else {
            s1
        };
        fold(s2, code, items, i + 1, depth)
    }
}

/// `code` is run on each item from index `i` on; whatever a run leaves above
/// the level at which it found the stack is taken off and collected behind
/// `acc`.
pub open spec fn map_items(
    s: State,
    code: Seq<u8>,
    items: Seq<Val>,
    i: int,
    acc: Seq<Val>,
    depth: nat,
) -> (State, Seq<Val>)
    decreases depth, 2nat, items.len() - i,
{
    if i < 0 || i >= items.len() {
        (s, acc)
    } else {
        let level = s.stack.len();
        let s1 = run_block(push(s, items[i]), code, depth);
        if level <= s1.stack.len() {
            map_items(
                State { stack: s1.stack.take(level as int), ..s1 },
                code,
                items,
                i + 1,
                acc + s1.stack.skip(level as int),
                depth,
            )
        } else {
            map_items(s1, code, items, i + 1, acc, depth)
        }
    }
}

/// `code` is run on each item from index `i` on and its result popped; the
/// flags say, item by item, whether the result was truthy.
pub open spec fn select_flags(
    s: State,
    code: Seq<u8>,
    items: Seq<Val>,
    i: int,
    acc: Seq<bool>,
    depth: nat,
) -> (State, Seq<bool>)
    decreases depth, 2nat, items.len() - i,
{
    if i < 0 || i >= items.len() {
        (s, acc)
    } else {
        let (s1, t) = pop(run_block(push(s, items[i]), code, depth));
        let flag = match t {
            Some(t) => truthy(t),
            None => false,
        };
        select_flags(s1, code, items, i + 1, acc.push(flag), depth)
    }
}

/// `code` is run on each item from index `i` on and its result popped, until
/// a result is truthy; the item with that result is pushed.
pub open spec fn find(s: State, code: Seq<u8>, items: Seq<Val>, i: int, depth: nat) -> State
    decreases depth, 2nat, items.len() - i,
{
    if i < 0 || i >= items.len() {
        s
    } else {
        let (s1, t) = pop(run_block(push(s, items[i]), code, depth));
        let found = match t {
            Some(t) => truthy(t),
            None => false,
        };
        if found {
            push(s1, items[i])
        } else {
            find(s1, code, items, i + 1, depth)
        }
    }
}

/// `code` is run on each item from index `i` on and its result popped; the
/// results are the keys by which the items will be sorted.
pub open spec fn sort_keys(
    s: State,
    code: Seq<u8>,
    items: Seq<Val>,
    i: int,
    acc: Seq<Val>,
    depth: nat,
) -> (State, Seq<Val>)
    decreases depth, 2nat, items.len() - i,
{
    if i < 0 || i >= items.len() {
        (s, acc)
    } else {
        let (s1, k) = pop_or(run_block(push(s, items[i]), code, depth), empty_arr());
        sort_keys(s1, code, items, i + 1, acc.push(k), depth)
    }
}

/// `code` is run `n` times, but not more often than `budget` allows.
pub open spec fn times(s: State, code: Seq<u8>, n: int, budget: nat, depth: nat) -> State
    decreases depth, 2nat, budget,
{
    if n <= 0 || budget == 0 {
        s
    } else {
        times(run_block(s, code, depth), code, n - 1, (budget - 1) as nat, depth)
    }
}

/// `do`: the body is executed and its result popped, again and again while
/// the result is truthy.
pub open spec fn do_rounds(s: State, body: Val, budget: nat, depth: nat) -> State
    decreases depth, 2nat, budget,
{
    if budget == 0 {
        s
    } else {
        let (s1, f) = pop(go(s, body, depth));
        let again = match f {
            Some(f) => truthy(f),
            None => false,
        };
        if again {
            do_rounds(s1, body, (budget - 1) as nat, depth)
        } else {
            s1
        }
    }
}

/// `while` (with `which` true) and `until` (with `which` false): the
/// condition is executed and its result popped; unless the result ends the
/// loop, the body is executed and the loop goes round again.  A result that
/// is missing ends `until` but not `while`.
pub open spec fn while_rounds(
    s: State,
    cond: Val,
    body: Val,
    which: bool,
    budget: nat,
    depth: nat,
) -> State
    decreases depth, 2nat, budget,
{
    if budget == 0 {
        s
    } else {
        let (s1, f) = pop(go(s, cond, depth));
        let stop = match f {
            Some(f) => !truthy(f) == which,
            None => !which,
        };
        if stop {
            s1
        } else {
            while_rounds(go(s1, body, depth), cond, body, which, (budget - 1) as nat, depth)
        }
    }
}

/// The top of the stack, or the empty array where there is none.
pub open spec fn top_or_empty(s: State) -> Val {
    if s.stack.len() > 0 {
        s.stack.last()
    } else {
        empty_arr()
    }
}

/// Unfolding: the condition is run on a copy of the top and its result
/// popped; while the result is truthy the top is collected behind `acc` and
/// the step is run.
pub open spec fn unfold_rounds(
    s: State,
    cond: Seq<u8>,
    step: Seq<u8>,
    acc: Seq<Val>,
    budget: nat,
    depth: nat,
) -> (State, Seq<Val>)
    decreases depth, 2nat, budget,
{
    if budget == 0 {
        (s, acc)
    } else {
        let (s1, f) = pop(run_block(push(s, top_or_empty(s)), cond, depth));
        let more = match f {
            Some(f) => truthy(f),
            None => false,
        };
        if more {
            unfold_rounds(
                run_block(s1, step, depth),
                cond,
                step,
                acc.push(top_or_empty(s1)),
                (budget - 1) as nat,
                depth,
            )
        } else {
            (s1, acc)
        }
    }
}

/// `~`: an integer is complemented, an array is spread onto the stack, a
/// string or block is run as code.
pub open spec fn op_tilde(s: State, depth: nat) -> State
    decreases depth, 3nat, 0nat,
{
    let (s1, v) = pop(s);
    match v {
        Some(Val::Int(n)) => push(s1, Val::Int(-n - 1)),
        Some(Val::Arr(vs)) => State { stack: s1.stack + vs, ..s1 },
        Some(Val::Str(code)) => run_block(s1, code, depth),
        Some(Val::Blk(code)) => run_block(s1, code, depth),
        None => push(s1, empty_arr()),
    }
}

/// `$`: with an integer `n` on top, a copy of the value `n` places below the
/// top is pushed (a negative `n` counts from the bottom); an array or string
/// is sorted; with a block on top, the sequence below it is sorted by the
/// keys that the block makes of its elements.
pub open spec fn op_dollar(s: State, depth: nat) -> State
    decreases depth, 3nat, 0nat,
{
    let (s1, v) = pop(s);
    match v {
        Some(Val::Int(n)) => {
            let len = s1.stack.len() as int;
            if n < -1 {
                if -n - 2 < len {
                    push(s1, s1.stack[-n - 2])
                } else {
                    s1
                }
            } else if 0 <= n < len {
                push(s1, s1.stack[len - 1 - n])
            } else {
                s1
            }
        },
        Some(Val::Arr(vs)) => push(s1, Val::Arr(sorted_vals(vs))),
        Some(Val::Str(bs)) => push(s1, Val::Str(sorted_by_key(byte_vals(bs), bs))),
        Some(Val::Blk(code)) => {
            let (s2, w) = pop(s1);
            match w {
                Some(Val::Int(n)) => push(s2, Val::Int(n)),
                Some(Val::Arr(vs)) => {
                    let (s3, keys) = sort_keys(s2, code, vs, 0, Seq::empty(), depth);
                    push(s3, Val::Arr(sorted_by_key(keys, vs)))
                },
                Some(Val::Str(bs)) => {
                    let (s3, keys) = sort_keys(s2, code, byte_vals(bs), 0, Seq::empty(), depth);
                    push(s3, Val::Str(sorted_by_key(keys, bs)))
                },
                Some(Val::Blk(bs)) => {
                    let (s3, keys) = sort_keys(s2, code, byte_vals(bs), 0, Seq::empty(), depth);
                    push(s3, Val::Blk(sorted_by_key(keys, bs)))
                },
                None => push(s2, empty_arr()),
            }
        },
        None => push(s1, empty_arr()),
    }
}

/// `*`: product of integers; join of a sequence with a separator; fold of a
/// sequence with a block; repetition of a sequence; a block run a number of
/// times.
pub open spec fn op_asterisk(s: State, depth: nat) -> State
    decreases depth, 3nat, 0nat,
{
    let (s2, a, b) = pop2_or(s, empty_arr());
    match (a, b) {
        (Val::Int(x), Val::Int(y)) => push(s2, Val::Int(x * y)),
        (Val::Arr(x), Val::Arr(_)) => push(s2, joined(x, b)),
        (Val::Arr(x), Val::Str(_)) => push(s2, joined(x, b)),
        (Val::Str(_), Val::Arr(x)) => push(s2, joined(x, a)),
        (Val::Str(x), Val::Str(_)) => push(s2, joined(singletons(x), b)),
        (Val::Blk(code), Val::Blk(x)) => fold(s2, code, byte_vals(x), 0, depth),
        (Val::Str(x), Val::Blk(code)) => fold(s2, code, byte_vals(x), 0, depth),
        (Val::Blk(code), Val::Str(x)) => fold(s2, code, byte_vals(x), 0, depth),
        (Val::Arr(x), Val::Blk(code)) => fold(s2, code, x, 0, depth),
        (Val::Blk(code), Val::Arr(x)) => fold(s2, code, x, 0, depth),
        (Val::Int(n), Val::Arr(x)) => push(s2, Val::Arr(repeated(x, n))),
        (Val::Arr(x), Val::Int(n)) => push(s2, Val::Arr(repeated(x, n))),
        (Val::Int(n), Val::Str(x)) => push(s2, Val::Str(repeated(x, n))),
        (Val::Str(x), Val::Int(n)) => push(s2, Val::Str(repeated(x, n))),
        (Val::Int(n), Val::Blk(code)) => times(s2, code, n, s2.max_loops as nat, depth),
        (Val::Blk(code), Val::Int(n)) => times(s2, code, n, s2.max_loops as nat, depth),
    }
}

/// `/`: floored quotient of integers; split of a sequence at a separator; a
/// block run on each element; chunks of a sequence; unfolding with two
/// blocks.
pub open spec fn op_slash(s: State, depth: nat) -> State
    decreases depth, 3nat, 0nat,
{
    let (s2, a, b) = pop2_or(s, empty_arr());
    match (a, b) {
        (Val::Int(x), Val::Int(y)) => push(s2, Val::Int(floor_div(x, y))),
        (Val::Arr(x), Val::Arr(sep)) => if sep.len() == 0 {
            push(s2, a)
        } else {
            push(s2, Val::Arr(arrs(split_of::<Gval>(x, sep, false))))
        },
        (Val::Str(x), Val::Str(sep)) => if sep.len() == 0 {
            push(s2, a)
        } else {
            push(s2, Val::Arr(strs(split_of::<u8>(x, sep, false))))
        },
        (Val::Arr(x), Val::Str(sep)) => if sep.len() == 0 {
            push(s2, a)
        } else {
            push(s2, Val::Arr(arrs(split_of::<Gval>(x, byte_vals(sep), false))))
        },
        (Val::Str(sep), Val::Arr(x)) => if sep.len() == 0 {
            push(s2, b)
        } else {
            push(s2, Val::Arr(arrs(split_of::<Gval>(x, byte_vals(sep), false))))
        },
        (Val::Str(x), Val::Blk(code)) => each(s2, code, byte_vals(x), 0, depth),
        (Val::Blk(code), Val::Str(x)) => each(s2, code, byte_vals(x), 0, depth),
        (Val::Arr(x), Val::Blk(code)) => each(s2, code, x, 0, depth),
        (Val::Blk(code), Val::Arr(x)) => each(s2, code, x, 0, depth),
        (Val::Int(n), Val::Arr(x)) => if n == 0 {
            push(s2, b)
        } else {
            push(s2, Val::Arr(arrs(chunked(x, n))))
        },
        (Val::Arr(x), Val::Int(n)) => if n == 0 {
            push(s2, a)
        } else {
            push(s2, Val::Arr(arrs(chunked(x, n))))
        },
        (Val::Int(n), Val::Str(x)) => if n == 0 {
            push(s2, b)
        } else {
            push(s2, Val::Arr(strs(chunked(x, n))))
        },
        (Val::Str(x), Val::Int(n)) => if n == 0 {
            push(s2, a)
        } else {
            push(s2, Val::Arr(strs(chunked(x, n))))
        },
        (Val::Blk(cond), Val::Blk(step)) => {
            let (s3, acc) = unfold_rounds(
                s2,
                cond,
                step,
                Seq::empty(),
                s2.max_loops as nat,
                depth,
            );
            push(pop(s3).0, Val::Arr(acc))
        },
        (Val::Blk(code), Val::Int(_)) => each(s2, code, seq![b], 0, depth),
        (Val::Int(_), Val::Blk(code)) => each(s2, code, seq![a], 0, depth),
    }
}

/// The state and the collected values of a map, with the values pushed as an
/// array.
pub open spec fn push_mapped(r: (State, Seq<Val>)) -> State {
    push(r.0, Val::Arr(r.1))
}

/// `%`: floored remainder of integers; split of a sequence at a separator
/// without the empty fragments; a block mapped over a sequence; every n-th
/// element of a sequence.
pub open spec fn op_percent(s: State, depth: nat) -> State
    decreases depth, 3nat, 0nat,
{
    let (s2, a, b) = pop2_or(s, empty_arr());
    match (a, b) {
        (Val::Int(x), Val::Int(y)) => push(s2, Val::Int(floor_mod(x, y))),
        (Val::Arr(x), Val::Arr(sep)) => if sep.len() == 0 {
            push(s2, a)
        } else {
            push(s2, Val::Arr(arrs(split_of::<Gval>(x, sep, true))))
        },
        (Val::Str(x), Val::Str(sep)) => if sep.len() == 0 {
            push(s2, a)
        } else {
            push(s2, Val::Arr(strs(split_of::<u8>(x, sep, true))))
        },
        (Val::Arr(x), Val::Str(sep)) => if sep.len() == 0 {
            push(s2, a)
        } else {
            push(s2, Val::Arr(arrs(split_of::<Gval>(x, byte_vals(sep), true))))
        },
        (Val::Str(sep), Val::Arr(x)) => if sep.len() == 0 {
            push(s2, b)
        } else {
            push(s2, Val::Arr(arrs(split_of::<Gval>(x, byte_vals(sep), true))))
        },
        (Val::Arr(x), Val::Blk(code)) => push_mapped(
            map_items(s2, code, x, 0, Seq::empty(), depth),
        ),
        (Val::Blk(code), Val::Arr(x)) => push_mapped(
            map_items(s2, code, x, 0, Seq::empty(), depth),
        ),
        (Val::Str(x), Val::Blk(code)) => {
            let (s3, r) = map_items(s2, code, byte_vals(x), 0, Seq::empty(), depth);
            push(s3, Val::Str(flatten(r)))
        },
        (Val::Blk(code), Val::Str(x)) => {
            let (s3, r) = map_items(s2, code, byte_vals(x), 0, Seq::empty(), depth);
            push(s3, Val::Str(flatten(r)))
        },
        (Val::Int(n), Val::Arr(x)) => push(s2, Val::Arr(every_nth_of(x, n))),
        (Val::Arr(x), Val::Int(n)) => push(s2, Val::Arr(every_nth_of(x, n))),
        (Val::Int(n), Val::Str(x)) => push(s2, Val::Str(every_nth_of(x, n))),
        (Val::Str(x), Val::Int(n)) => push(s2, Val::Str(every_nth_of(x, n))),
        (Val::Int(_), Val::Blk(code)) => push_mapped(
            map_items(s2, code, seq![a], 0, Seq::empty(), depth),
        ),
        (Val::Blk(code), Val::Int(_)) => push_mapped(
            map_items(s2, code, seq![b], 0, Seq::empty(), depth),
        ),
        (Val::Blk(_), Val::Blk(code)) => push_mapped(
            map_items(s2, code, seq![a], 0, Seq::empty(), depth),
        ),
    }
}

/// `,`: an integer `n` is replaced by the integers below it from zero on; an
/// array or string by its length; with a block on top, the sequence below it
/// by its elements for which the block gives a truthy result.
pub open spec fn op_comma(s: State, depth: nat) -> State
    decreases depth, 3nat, 0nat,
{
    let (s1, v) = pop(s);
    match v {
        Some(Val::Int(n)) => push(s1, Val::Arr(range(capped(n, s1.max_loops)))),
        Some(Val::Arr(a)) => push(s1, Val::Int(a.len() as int)),
        Some(Val::Str(a)) => push(s1, Val::Int(a.len() as int)),
        Some(Val::Blk(code)) => {
            let (s2, w) = pop(s1);
            match w {
                Some(Val::Int(n)) => {
                    let items = seq![Val::Int(n)];
                    let (s3, flags) = select_flags(s2, code, items, 0, Seq::empty(), depth);
                    push(s3, Val::Arr(kept_all(items, flags)))
                },
                Some(Val::Arr(a)) => {
                    let (s3, flags) = select_flags(s2, code, a, 0, Seq::empty(), depth);
                    push(s3, Val::Arr(kept_all(a, flags)))
                },
                Some(Val::Str(a)) => {
                    let (s3, flags) = select_flags(
                        s2,
                        code,
                        byte_vals(a),
                        0,
                        Seq::empty(),
                        depth,
                    );
                    push(s3, Val::Str(kept_all(a, flags)))
                },
                Some(Val::Blk(a)) => {
                    let (s3, flags) = select_flags(
                        s2,
                        code,
                        byte_vals(a),
                        0,
                        Seq::empty(),
                        depth,
                    );
                    push(s3, Val::Blk(kept_all(a, flags)))
                },
                None => push(s2, empty_arr()),
            }
        },
        None => push(s1, empty_arr()),
    }
}

/// The first index of the byte with the number `n` in `h`, or -1.
pub open spec fn byte_index(h: Seq<u8>, n: int) -> int {
    if 0 <= n <= u8::MAX {
        first_index::<u8>(h, n as u8, 0)
    } else {
        -1
    }
}

/// `?`: power of integers; index of a value in an array, of a byte or a
/// string in a string; with a block, the first element of a sequence for
/// which the block gives a truthy result.
pub open spec fn op_question(s: State, depth: nat) -> State
    decreases depth, 3nat, 0nat,
{
    let (s2, a, b) = pop2_or(s, empty_arr());
    match (a, b) {
        (Val::Int(x), Val::Int(y)) => push(s2, Val::Int(power(x, y))),
        (Val::Arr(h), Val::Int(_)) => push(s2, Val::Int(first_index::<Gval>(h, b, 0))),
        (Val::Int(_), Val::Arr(h)) => push(s2, Val::Int(first_index::<Gval>(h, a, 0))),
        (Val::Arr(h), Val::Str(_)) => push(s2, Val::Int(first_index::<Gval>(h, b, 0))),
        (Val::Str(_), Val::Arr(h)) => push(s2, Val::Int(first_index::<Gval>(h, a, 0))),
        (Val::Arr(h), Val::Arr(_)) => push(s2, Val::Int(first_index::<Gval>(h, b, 0))),
        (Val::Str(h), Val::Int(n)) => push(s2, Val::Int(byte_index(h, n))),
        (Val::Int(n), Val::Str(h)) => push(s2, Val::Int(byte_index(h, n))),
        (Val::Str(h), Val::Str(n)) => push(s2, Val::Int(first_occurrence::<u8>(h, n, 0))),
        (Val::Int(_), Val::Blk(code)) => find(s2, code, seq![a], 0, depth),
        (Val::Blk(code), Val::Int(_)) => find(s2, code, seq![b], 0, depth),
        (Val::Blk(code), Val::Blk(x)) => find(s2, code, byte_vals(x), 0, depth),
        (Val::Blk(code), Val::Str(x)) => find(s2, code, byte_vals(x), 0, depth),
        (Val::Str(x), Val::Blk(code)) => find(s2, code, byte_vals(x), 0, depth),
        (Val::Blk(code), Val::Arr(x)) => find(s2, code, x, 0, depth),
        (Val::Arr(x), Val::Blk(code)) => find(s2, code, x, 0, depth),
    }
}

/// `do`.
pub open spec fn op_do(s: State, depth: nat) -> State
    decreases depth, 3nat, 0nat,
{
    let (s1, body) = pop(s);
    match body {
        Some(body) => do_rounds(s1, body, s1.max_loops as nat, depth),
        None => s1,
    }
}

/// `while` (with `which` true) and `until` (with `which` false): the body is
/// on top, the condition below it.
pub open spec fn op_while(s: State, which: bool, depth: nat) -> State
    decreases depth, 3nat, 0nat,
{
    let (s2, cond, body) = pop2_or(s, empty_arr());
    while_rounds(s2, cond, body, which, s2.max_loops as nat, depth)
}

/// `if`: with a condition, then a value, then another value on top of it, the
/// first value is executed if the condition is truthy, else the second.
pub open spec fn op_if(s: State, depth: nat) -> State
    decreases depth, 3nat, 0nat,
{
    let (s1, c) = pop_or(s, bool_val(false));
    let (s2, b) = pop_or(s1, bool_val(false));
    let (s3, a) = pop_or(s2, bool_val(false));
    if truthy(a) {
        go(s3, b, depth)
    } else {
        go(s3, c, depth)
    }
}

/// `and`: of the two topmost values the upper is executed if the lower is
/// truthy, else the lower.
pub open spec fn op_and_word(s: State, depth: nat) -> State
    decreases depth, 3nat, 0nat,
{
    let (s1, b) = pop(s);
    match b {
        Some(b) => {
            let (s2, a) = pop(s1);
            match a {
                Some(a) => go(
                    s2,
                    if truthy(a) {
                        b
                    } else {
                        a
                    },
                    depth,
                ),
                None => go(s2, b, depth),
            }
        },
        None => push(s1, bool_val(false)),
    }
}

/// `or`: of the two topmost values the lower is executed if it is truthy,
/// else the upper.
pub open spec fn op_or_word(s: State, depth: nat) -> State
    decreases depth, 3nat, 0nat,
{
    let (s1, b) = pop(s);
    match b {
        Some(b) => {
            let (s2, a) = pop(s1);
            match a {
                Some(a) => go(
                    s2,
                    if truthy(a) {
                        a
                    } else {
                        b
                    },
                    depth,
                ),
                None => go(s2, b, depth),
            }
        },
        None => push(s1, bool_val(false)),
    }
}

/// `xor`: of the two topmost values the one that is truthy is executed if
/// the other is not; else zero is pushed.
pub open spec fn op_xor_word(s: State, depth: nat) -> State
    decreases depth, 3nat, 0nat,
{
    let (s1, b) = pop_or(s, bool_val(false));
    let (s2, a) = pop_or(s1, bool_val(false));
    go(
        s2,
        if truthy(a) && !truthy(b) {
            a
        } else if !truthy(a) && truthy(b) {
            b
        } else {
            bool_val(false)
        },
        depth,
    )
}

/// The symbols that are built in.
#[derive(Clone, Copy)]
pub enum Builtin {
    /// `~`
    Tilde,
    /// `` ` ``
    Backtick,
    /// `!`
    Bang,
    /// `@`
    At,
    /// `$`
    Dollar,
    /// `+`
    Plus,
    /// `-`
    Minus,
    /// `*`
    Asterisk,
    /// `/`
    Slash,
    /// `%`
    Percent,
    /// `|`
    Bar,
    /// `&`
    Ampersand,
    /// `^`
    Caret,
    /// `[`
    Open,
    /// `]`
    Close,
    /// `\\`
    Swap,
    /// `;`
    Drop,
    /// `<`
    Less,
    /// `=`
    Equal,
    /// `>`
    Greater,
    /// `,`
    Comma,
    /// `.`
    Dup,
    /// `?`
    Question,
    /// `(`
    LeftParen,
    /// `)`
    RightParen,
    /// `and`
    And,
    /// `or`
    Or,
    /// `xor`
    Xor,
    /// `n`, the line feed as a string
    Newline,
    /// `print`
    Print,
    /// `p`
    P,
    /// `puts`
    Puts,
    /// `rand`
    Rand,
    /// `do`
    Do,
    /// `while`
    While,
    /// `until`
    Until,
    /// `if`
    If,
    /// `abs`
    Abs,
    /// `zip`
    Zip,
    /// `base`
    Base,
}

/// The built-in symbol of a name, if it is one.
pub open spec fn builtin_of(name: Seq<u8>) -> Option<Builtin> {
    if name == seq![126u8] {
        Some(Builtin::Tilde)
    }     else if name == seq![96u8] {
        Some(Builtin::Backtick)
    }     else if name == seq![33u8] {
        Some(Builtin::Bang)
    }     else if name == seq![64u8] {
        Some(Builtin::At)
    }     else if name == seq![36u8] {
        Some(Builtin::Dollar)
    }     else if name == seq![43u8] {
        Some(Builtin::Plus)
    }     else if name == seq![45u8] {
        Some(Builtin::Minus)
    }     else if name == seq![42u8] {
        Some(Builtin::Asterisk)
    }     else if name == seq![47u8] {
        Some(Builtin::Slash)
    }     else if name == seq![37u8] {
        Some(Builtin::Percent)
    }     else if name == seq![124u8] {
        Some(Builtin::Bar)
    }     else if name == seq![38u8] {
        Some(Builtin::Ampersand)
    }     else if name == seq![94u8] {
        Some(Builtin::Caret)
    }     else if name == seq![91u8] {
        Some(Builtin::Open)
    }     else if name == seq![93u8] {
        Some(Builtin::Close)
    }     else if name == seq![92u8] {
        Some(Builtin::Swap)
    }     else if name == seq![59u8] {
        Some(Builtin::Drop)
    }     else if name == seq![60u8] {
        Some(Builtin::Less)
    }     else if name == seq![61u8] {
        Some(Builtin::Equal)
    }     else if name == seq![62u8] {
        Some(Builtin::Greater)
    }     else if name == seq![44u8] {
        Some(Builtin::Comma)
    }     else if name == seq![46u8] {
        Some(Builtin::Dup)
    }     else if name == seq![63u8] {
        Some(Builtin::Question)
    }     else if name == seq![40u8] {
        Some(Builtin::LeftParen)
    }     else if name == seq![41u8] {
        Some(Builtin::RightParen)
    }     else if name == seq![97u8, 110u8, 100u8] {
        Some(Builtin::And)
    }     else if name == seq![111u8, 114u8] {
        Some(Builtin::Or)
    }     else if name == seq![120u8, 111u8, 114u8] {
        Some(Builtin::Xor)
    }     else if name == seq![110u8] {
        Some(Builtin::Newline)
    }     else if name == seq![112u8, 114u8, 105u8, 110u8, 116u8] {
        Some(Builtin::Print)
    }     else if name == seq![112u8] {
        Some(Builtin::P)
    }     else if name == seq![112u8, 117u8, 116u8, 115u8] {
        Some(Builtin::Puts)
    }     else if name == seq![114u8, 97u8, 110u8, 100u8] {
        Some(Builtin::Rand)
    }     else if name == seq![100u8, 111u8] {
        Some(Builtin::Do)
    }     else if name == seq![119u8, 104u8, 105u8, 108u8, 101u8] {
        Some(Builtin::While)
    }     else if name == seq![117u8, 110u8, 116u8, 105u8, 108u8] {
        Some(Builtin::Until)
    }     else if name == seq![105u8, 102u8] {
        Some(Builtin::If)
    }     else if name == seq![97u8, 98u8, 115u8] {
        Some(Builtin::Abs)
    }     else if name == seq![122u8, 105u8, 112u8] {
        Some(Builtin::Zip)
    }     else if name == seq![98u8, 97u8, 115u8, 101u8] {
        Some(Builtin::Base)
    } else {
        None
    }
}

/// What a built-in symbol does.
pub open spec fn run_builtin(s: State, b: Builtin, depth: nat) -> State
    decreases depth, 4nat, 0nat,
{
    match b {
        Builtin::Tilde => op_tilde(s, depth),
        Builtin::Backtick => op_backtick(s),
        Builtin::Bang => op_bang(s),
        Builtin::At => op_rotate(s),
        Builtin::Dollar => op_dollar(s, depth),
        Builtin::Plus => op_plus(s),
        Builtin::Minus => op_minus(s),
        Builtin::Asterisk => op_asterisk(s, depth),
        Builtin::Slash => op_slash(s, depth),
        Builtin::Percent => op_percent(s, depth),
        Builtin::Bar => op_or(s),
        Builtin::Ampersand => op_and(s),
        Builtin::Caret => op_xor(s),
        Builtin::Open => op_open(s),
        Builtin::Close => op_close(s),
        Builtin::Swap => op_swap(s),
        Builtin::Drop => op_drop(s),
        Builtin::Less => op_compare(s, Order::Less),
        Builtin::Equal => op_compare(s, Order::Equal),
        Builtin::Greater => op_compare(s, Order::Greater),
        Builtin::Comma => op_comma(s, depth),
        Builtin::Dup => op_dup(s),
        Builtin::Question => op_question(s, depth),
        Builtin::LeftParen => op_left_paren(s),
        Builtin::RightParen => op_right_paren(s),
        Builtin::And => op_and_word(s, depth),
        Builtin::Or => op_or_word(s, depth),
        Builtin::Xor => op_xor_word(s, depth),
        Builtin::Newline => push(s, Val::Str(seq![10u8])),
        Builtin::Print => op_print(s, false, false),
        Builtin::P => op_print(s, true, true),
        Builtin::Puts => op_print(s, false, true),
        Builtin::Rand => op_rand(s),
        Builtin::Do => op_do(s, depth),
        Builtin::While => op_while(s, true, depth),
        Builtin::Until => op_while(s, false, depth),
        Builtin::If => op_if(s, depth),
        Builtin::Abs => op_abs(s),
        Builtin::Zip => op_zip(s),
        Builtin::Base => op_base(s),
    }
}

/// What a symbol does when no variable of its name is bound.  A symbol that
/// is not built in does nothing.
pub open spec fn run_symbol(s: State, name: Seq<u8>, depth: nat) -> State
    decreases depth, 4nat, 1nat,
{
    match builtin_of(name) {
        Some(b) => run_builtin(s, b, depth),
        None => s,
    }
}

/// What a token does.  If a variable of its name is bound, the variable's
/// value is executed, whatever the token.  Else a literal pushes its value, a
/// block pushes itself, a comment does nothing, and a symbol does what is
/// built in for it.
pub open spec fn run_token(s: State, t: Tok, depth: nat) -> State
    decreases depth, 5nat, 0nat,
{
    if s.vars.contains_key(lexeme(t)) {
        go(s, s.vars[lexeme(t)], depth)
    } else {
        match t {
            Tok::IntLiteral(b) => if is_decimal(b) {
                push(s, Val::Int(decimal_value(b)))
            } else {
                s
            },
            Tok::SingleQuotedString(b) => push(s, Val::Str(unescaped(b, true))),
            Tok::DoubleQuotedString(b) => push(s, Val::Str(unescaped(b, false))),
            Tok::Symbol(b) => run_symbol(s, b, depth),
            Tok::Block(_, body) => push(s, Val::Blk(body)),
            Tok::Comment(_) => s,
        }
    }
}

/// Whether a token is the assignment symbol `:`.
pub open spec fn is_assign(t: Tok) -> bool {
    t == Tok::Symbol(seq![58u8])
}

/// The tokens from index `i` on are run in turn.  `:` takes the token behind
/// it as a name, whatever that token is, and binds it.
pub open spec fn run_tokens(s: State, toks: Seq<Tok>, i: int, depth: nat) -> State
    decreases depth, 6nat, toks.len() - i,
{
    if i < 0 || i >= toks.len() {
        s
    } else if is_assign(toks[i]) {
        if i + 1 < toks.len() {
            run_tokens(assign(s, lexeme(toks[i + 1])), toks, i + 2, depth)
        } else {
            s
        }
    } else {
        run_tokens(run_token(s, toks[i], depth), toks, i + 1, depth)
    }
}

/// A program is run: its tokens in turn, if all of it is tokens; if not, it
/// is not run at all.
pub open spec fn run_code(s: State, code: Seq<u8>, depth: nat) -> State
    decreases depth, 7nat, 0nat,
{
    if rest_of(code).len() > 0 {
        s
    } else {
        run_tokens(s, tokens_of(code), 0, depth)
    }
}

/// A program is run from the top level.
pub open spec fn run(s: State, code: Seq<u8>) -> State {
    run_code(s, code, s.max_depth as nat)
}

} // verus!
