//! The evaluator: the state of a running program and what each token does to
//! it.  Every function here does to the state what the function of the same
//! purpose in the abstract machine says.

use vstd::prelude::*;
use crate::bigint::{
    big_value, big_from_i64, big_from_u64, big_clone, big_add, big_sub, big_mul, big_abs,
    big_div_floor, big_mod_floor, big_lt, big_is_zero, big_is_positive, big_to_u32, big_pow,
    big_and, big_or, big_xor,
};
use crate::value::{Gval, Val, Order, Elem, views, lifted, group_views, clone_bytes, bool_val};
use crate::coerce::{Coerced, coerce};
use crate::util::{set_subtract, set_and, set_or, set_xor, index, slice, lemma_views_push};
use crate::vars::Vars;
use crate::machine::{
    State, initial, empty_arr, push, emit, lowered, pop, pop_or, pop2_or, assign, op_dup,
    op_drop, op_swap, op_rotate, op_backtick, op_bang, op_open, op_close, op_plus, op_minus,
    op_or, op_and, op_xor, RNG_SEED, RNG_MULTIPLIER, RNG_INCREMENT, DEFAULT_MAX_DEPTH,
    push_indexed, op_compare, op_left_paren, op_right_paren, rng_next, op_rand, op_abs,
    column_with, zip_row, zip_rows, zipped, op_zip, digits_rev, int_or_zero, undigits, op_base,
    op_print, power, range, capped,
};
use vstd::arithmetic::power::{
    pow, lemma_pow0, lemma_pow1, lemma0_pow, lemma1_pow, lemma_pow_increases,
};
use vstd::arithmetic::div_mod::{lemma_add_mod_noop, lemma_small_mod};

verus! {

broadcast use group_views;

/// The evaluator.
pub struct Gs {
    /// The value stack, its top at the end.
    pub stack: Vec<Gval>,
    vars: Vars,
    lb: Vec<usize>,
    rng_state: u64,
    stable: bool,
    output: Vec<u8>,
    max_loops: u64,
    max_depth: usize,
}

impl View for Gs {
    type V = State;

    closed spec fn view(&self) -> State {
        State {
            stack: views(self.stack@),
            vars: self.vars@,
            lb: marks(self.lb@),
            rng_state: self.rng_state,
            stable: self.stable,
            output: self.output@,
            max_loops: self.max_loops,
            max_depth: self.max_depth,
        }
    }
}

/// The bracket marks as integers.
pub open spec fn marks(lb: Seq<usize>) -> Seq<int> {
    Seq::new(lb.len(), |i: int| lb[i] as int)
}

/// An array value of the given elements.
pub(crate) fn arr_of(v: Vec<Gval>) -> (r: Gval)
    ensures
        r@ == Val::Arr(views(v@)),
{
    Gval::Arr(v)
}

impl Gs {
    /// An evaluator in the initial state.
    pub fn new() -> (r: Gs)
        ensures
            r@ == initial(),
    {
        let r = Gs {
            stack: Vec::new(),
            vars: Vars::new(),
            lb: Vec::new(),
            rng_state: RNG_SEED,
            stable: true,
            output: Vec::new(),
            max_loops: u64::MAX,
            max_depth: DEFAULT_MAX_DEPTH,
        };
        proof {
            assert(r@.stack =~= Seq::<Val>::empty());
            assert(r@.lb =~= Seq::<int>::empty());
            assert(r@.output =~= Seq::<u8>::empty());
        }
        r
    }

    /// Marks the state unstable.
    pub fn set_unstable(&mut self)
        ensures
            final(self)@ == (State { stable: false, ..old(self)@ }),
    {
        self.stable = false;
    }

    /// Sets the number of rounds after which a loop is cut off.
    pub fn set_max_loops(&mut self, loops: u64)
        ensures
            final(self)@ == (State { max_loops: loops, ..old(self)@ }),
    {
        self.max_loops = loops;
    }

    /// Sets how many levels deep blocks may run blocks.
    pub fn set_max_depth(&mut self, depth: usize)
        ensures
            final(self)@ == (State { max_depth: depth, ..old(self)@ }),
    {
        self.max_depth = depth;
    }

    /// Appends `bytes` to the output.
    pub fn print(&mut self, bytes: &[u8])
        ensures
            final(self)@ == emit(old(self)@, bytes@),
    {
        let mut i: usize = 0;
        while i < bytes.len()
            invariant
                i <= bytes.len(),
                self@ == emit(old(self)@, bytes@.take(i as int)),
            decreases bytes.len() - i,
        {
            self.output.push(bytes[i]);
            proof {
                assert(old(self)@.output + bytes@.take(i + 1) =~= (old(self)@.output
                    + bytes@.take(i as int)).push(bytes@[i as int]));
            }
            i += 1;
        }
        proof {
            assert(bytes@.take(bytes.len() as int) =~= bytes@);
        }
    }

    /// Everything printed so far.
    pub fn output(&self) -> (r: &Vec<u8>)
        ensures
            r@ == self@.output,
    {
        &self.output
    }

    /// Whether no pop has found the stack empty.
    pub fn is_stable(&self) -> (r: bool)
        ensures
            r == self@.stable,
    {
        self.stable
    }

    /// Pushes a value.
    pub fn push(&mut self, val: Gval)
        ensures
            final(self)@ == push(old(self)@, val@),
    {
        proof {
            lemma_views_push(self.stack@, val);
        }
        self.stack.push(val);
    }

    /// The top of the stack, if any.
    pub fn top(&self) -> (r: Option<&Gval>)
        ensures
            self@.stack.len() == 0 ==> r is None,
            self@.stack.len() > 0 ==> r is Some && r->0@ == self@.stack.last(),
    {
        if self.stack.len() > 0 {
            Some(&self.stack[self.stack.len() - 1])
        } else {
            None
        }
    }

    /// Pops the top of the stack, lowering the bracket marks first.
    pub fn pop(&mut self) -> (r: Option<Gval>)
        ensures
            final(self)@ == pop(old(self)@).0,
            r matches Some(v) ==> pop(old(self)@).1 == Some(v@),
            r is None ==> pop(old(self)@).1 is None,
    {
        let len = self.stack.len();
        let mut i: usize = 0;
        while i < self.lb.len()
            invariant
                i <= self.lb.len(),
                self.lb.len() == old(self).lb.len(),
                len == self.stack.len(),
                self.stack == old(self).stack,
                self.vars == old(self).vars,
                self.rng_state == old(self).rng_state,
                self.stable == old(self).stable,
                self.output == old(self).output,
                self.max_loops == old(self).max_loops,
                self.max_depth == old(self).max_depth,
                forall|j: int|
                    0 <= j < i ==> self.lb@[j] == lowered(marks(old(self).lb@), len as int)[j],
                forall|j: int| i <= j < self.lb.len() ==> self.lb@[j] == old(self).lb@[j],
            decreases self.lb.len() - i,
        {
            let m = self.lb[i];
            if m >= len && m > 0 {
                self.lb.set(i, m - 1);
            }
            i += 1;
        }
        proof {
            assert(marks(self.lb@) =~= lowered(marks(old(self).lb@), len as int));
        }
        let r = self.stack.pop();
        match r {
            Some(v) => {
                proof {
                    assert(views(self.stack@) =~= views(old(self).stack@).drop_last());
                }
                Some(v)
            },
            None => {
                self.stable = false;
                None
            },
        }
    }

    /// Pops the top of the stack; an empty stack gives the empty array.
    pub fn pop_or_empty(&mut self) -> (r: Gval)
        ensures
            (final(self)@, r@) == pop_or(old(self)@, empty_arr()),
    {
        match self.pop() {
            Some(v) => v,
            None => Gval::empty_arr(),
        }
    }

    /// Pops the top of the stack; an empty stack gives zero.
    pub(crate) fn pop_or_false(&mut self) -> (r: Gval)
        ensures
            (final(self)@, r@) == pop_or(old(self)@, bool_val(false)),
    {
        match self.pop() {
            Some(v) => v,
            None => Gval::bool(false),
        }
    }

    /// Pops two values: the one that was below, then the one that was on top.
    pub(crate) fn pop2(&mut self) -> (r: (Gval, Gval))
        ensures
            (final(self)@, r.0@, r.1@) == pop2_or(old(self)@, empty_arr()),
    {
        let b = self.pop_or_empty();
        let a = self.pop_or_empty();
        (a, b)
    }

    /// Binds `name` to the top of the stack, if there is one.
    pub(crate) fn assign(&mut self, name: &Vec<u8>)
        ensures
            final(self)@ == assign(old(self)@, name@),
    {
        if self.stack.len() > 0 {
            let v = self.stack[self.stack.len() - 1].clone();
            self.vars.insert(clone_bytes(name), v);
        }
    }

    /// `.`
    pub(crate) fn dup(&mut self)
        ensures
            final(self)@ == op_dup(old(self)@),
    {
        let a = self.pop_or_empty();
        self.push(a.clone());
        self.push(a);
    }

    /// `;`
    pub(crate) fn drop_top(&mut self)
        ensures
            final(self)@ == op_drop(old(self)@),
    {
        let _ = self.pop();
    }

    /// `\`
    pub(crate) fn swap(&mut self)
        ensures
            final(self)@ == op_swap(old(self)@),
    {
        match self.pop() {
            Some(b) => match self.pop() {
                Some(a) => {
                    self.push(b);
                    self.push(a);
                },
                None => {
                    self.push(b);
                },
            },
            None => {},
        }
    }

    /// `@`
    pub(crate) fn at_sign(&mut self)
        ensures
            final(self)@ == op_rotate(old(self)@),
    {
        match self.pop() {
            Some(c) => match self.pop() {
                Some(b) => {
                    let a = self.pop_or_empty();
                    self.push(b);
                    self.push(c);
                    self.push(a);
                },
                None => {
                    self.push(Gval::empty_arr());
                    self.push(c);
                    self.push(Gval::empty_arr());
                },
            },
            None => {
                self.push(Gval::empty_arr());
                self.push(Gval::empty_arr());
                self.push(Gval::empty_arr());
            },
        }
    }

    /// `` ` ``
    pub(crate) fn backtick(&mut self)
        ensures
            final(self)@ == op_backtick(old(self)@),
    {
        match self.pop() {
            Some(v) => {
                self.push(Gval::Str(v.inspect()));
            },
            None => {
                self.push(Gval::Str(Vec::new()));
            },
        }
    }

    /// `!`
    pub(crate) fn bang(&mut self)
        ensures
            final(self)@ == op_bang(old(self)@),
    {
        match self.pop() {
            Some(v) => {
                self.push(Gval::bool(v.falsey()));
            },
            None => {
                self.push(Gval::bool(true));
            },
        }
    }

    /// `[`
    pub(crate) fn open_bracket(&mut self)
        ensures
            final(self)@ == op_open(old(self)@),
    {
        self.lb.push(self.stack.len());
        proof {
            assert(marks(self.lb@) =~= marks(old(self).lb@).push(self.stack.len() as int));
        }
    }

    /// `]`
    pub(crate) fn close_bracket(&mut self)
        ensures
            final(self)@ == op_close(old(self)@),
    {
        let mark = match self.lb.pop() {
            Some(m) => m,
            None => 0,
        };
        proof {
            if old(self).lb.len() > 0 {
                assert(marks(self.lb@) =~= marks(old(self).lb@).drop_last());
            } else {
                assert(marks(self.lb@) =~= marks(old(self).lb@));
            }
        }
        let at = if mark > self.stack.len() {
            self.stack.len()
        } else {
            mark
        };
        let vs = self.stack.split_off(at);
        proof {
            assert(views(self.stack@) =~= old(self)@.stack.take(at as int));
            assert(views(vs@) =~= old(self)@.stack.skip(at as int));
        }
        self.push(arr_of(vs));
    }

    /// `+`
    pub(crate) fn plus(&mut self)
        ensures
            final(self)@ == op_plus(old(self)@),
    {
        let (a, b) = self.pop2();
        self.push(a.plus(b));
    }

    /// `-`
    pub(crate) fn minus(&mut self)
        ensures
            final(self)@ == op_minus(old(self)@),
    {
        let (a, b) = self.pop2();
        let r = match coerce(a, b) {
            Coerced::Ints(x, y) => Gval::Int(big_sub(&x, &y)),
            Coerced::Arrs(x, y) => Gval::Arr(set_subtract(x, y)),
            Coerced::Strs(x, y) => Gval::Str(set_subtract(x, y)),
            Coerced::Blks(x, y) => Gval::Blk(set_subtract(x, y)),
        };
        self.push(r);
    }

    /// `|`
    pub(crate) fn vertical_bar(&mut self)
        ensures
            final(self)@ == op_or(old(self)@),
    {
        let (a, b) = self.pop2();
        let r = match coerce(a, b) {
            Coerced::Ints(x, y) => Gval::Int(big_or(&x, &y)),
            Coerced::Arrs(x, y) => Gval::Arr(set_or(x, y)),
            Coerced::Strs(x, y) => Gval::Str(set_or(x, y)),
            Coerced::Blks(x, y) => Gval::Blk(set_or(x, y)),
        };
        self.push(r);
    }

    /// `&`
    pub(crate) fn ampersand(&mut self)
        ensures
            final(self)@ == op_and(old(self)@),
    {
        let (a, b) = self.pop2();
        let r = match coerce(a, b) {
            Coerced::Ints(x, y) => Gval::Int(big_and(&x, &y)),
            Coerced::Arrs(x, y) => Gval::Arr(set_and(x, y)),
            Coerced::Strs(x, y) => Gval::Str(set_and(x, y)),
            Coerced::Blks(x, y) => Gval::Blk(set_and(x, y)),
        };
        self.push(r);
    }

    /// `^`
    pub(crate) fn caret(&mut self)
        ensures
            final(self)@ == op_xor(old(self)@),
    {
        let (a, b) = self.pop2();
        let r = match coerce(a, b) {
            Coerced::Ints(x, y) => Gval::Int(big_xor(&x, &y)),
            Coerced::Arrs(x, y) => Gval::Arr(set_xor(x, y)),
            Coerced::Strs(x, y) => Gval::Str(set_xor(x, y)),
            Coerced::Blks(x, y) => Gval::Blk(set_xor(x, y)),
        };
        self.push(r);
    }
}

/// Whether two comparison outcomes are the same.
fn same_order(x: Order, y: Order) -> (r: bool)
    ensures
        r == (x == y),
{
    match (x, y) {
        (Order::Less, Order::Less) => true,
        (Order::Equal, Order::Equal) => true,
        (Order::Greater, Order::Greater) => true,
        _ => false,
    }
}

/// A column of a transposition with one more element.
fn add_to_column(col: Gval, e: Gval) -> (r: Gval)
    ensures
        r@ == column_with(col@, e@),
{
    match col {
        Gval::Int(_) => {
            let mut v: Vec<Gval> = Vec::new();
            proof {
                lemma_views_push(v@, e);
                assert(views(v@).push(e@) =~= seq![e@]);
            }
            v.push(e);
            Gval::Arr(v)
        },
        Gval::Arr(xs) => {
            let mut xs = xs;
            proof {
                lemma_views_push(xs@, e);
            }
            xs.push(e);
            Gval::Arr(xs)
        },
        Gval::Str(b) => {
            let mut b = b;
            e.write_flat(&mut b);
            Gval::Str(b)
        },
        Gval::Blk(b) => {
            let mut b = b;
            e.write_flat(&mut b);
            Gval::Blk(b)
        },
    }
}

/// Replaces the column at index `y` by itself with one more element.
fn extend_column(cols: &mut Vec<Gval>, y: usize, e: Gval)
    requires
        y < old(cols).len(),
    ensures
        views(final(cols)@) == views(old(cols)@).update(
            y as int,
            column_with(views(old(cols)@)[y as int], e@),
        ),
{
    let col = cols.remove(y);
    let col2 = add_to_column(col, e);
    cols.insert(y, col2);
    proof {
        assert(views(cols@) =~= views(old(cols)@).update(
            y as int,
            column_with(views(old(cols)@)[y as int], e@),
        ));
    }
}

/// The transposition of an array of rows.
fn transpose(rows: &Vec<Gval>, max_loops: u64) -> (r: Vec<Gval>)
    ensures
        views(r@) == zipped(views(rows@), max_loops),
{
    let blank = if rows.len() > 0 {
        rows[0].factory()
    } else {
        Gval::empty_arr()
    };
    let mut cols: Vec<Gval> = Vec::new();
    let mut i: usize = 0;
    proof {
        assert(views(cols@) =~= Seq::<Val>::empty());
    }
    while i < rows.len()
        invariant
            i <= rows.len(),
            zipped(views(rows@), max_loops) == zip_rows(
                views(cols@),
                views(rows@),
                i as int,
                blank@,
                max_loops,
            ),
        decreases rows.len() - i,
    {
        let row = rows[i].clone().into_items();
        let mut y: usize = 0;
        let ghost cols0 = views(cols@);
        while y < row.len()
            invariant
                y <= row.len(),
                zip_row(cols0, views(row@), 0, blank@, max_loops) == zip_row(
                    views(cols@),
                    views(row@),
                    y as int,
                    blank@,
                    max_loops,
                ),
            decreases row.len() - y,
        {
            if cols.len() < y + 1 && max_loops > 0 {
                let fresh = blank.clone();
                proof {
                    lemma_views_push(cols@, fresh);
                }
                cols.push(fresh);
            }
            if y < cols.len() {
                extend_column(&mut cols, y, row[y].clone());
            }
            y += 1;
        }
        i += 1;
    }
    cols
}

/// The digits of a non-negative integer in base `b`, most significant first;
/// at most `budget` digits are taken, from the least significant on.
fn digits(n: num::BigInt, b: &num::BigInt, budget: u64) -> (r: Vec<Gval>)
    ensures
        views(r@) == digits_rev(big_value(n), big_value(*b), Seq::empty(), budget as nat).reverse(),
{
    let mut rev: Vec<Gval> = Vec::new();
    let mut i = n;
    let mut left: u64 = budget;
    proof {
        assert(views(rev@) =~= Seq::<Val>::empty());
    }
    while !big_is_zero(&i) && left > 0
        invariant
            digits_rev(big_value(n), big_value(*b), Seq::empty(), budget as nat) == digits_rev(
                big_value(i),
                big_value(*b),
                views(rev@),
                left as nat,
            ),
        decreases left,
    {
        let (q, d) = if big_is_zero(b) {
            (big_from_i64(0), big_from_i64(0))
        } else {
            (big_div_floor(&i, b), big_mod_floor(&i, b))
        };
        proof {
            lemma_views_push(rev@, Gval::Int(d));
        }
        rev.push(Gval::Int(d));
        i = q;
        left -= 1;
    }
    crate::util::reversed(&rev)
}

/// The number whose digits in base `b`, most significant first, are `items`.
fn from_digits(items: &Vec<Gval>, b: &num::BigInt) -> (r: num::BigInt)
    ensures
        big_value(r) == undigits(views(items@), big_value(*b), items.len() as int),
{
    let mut total = big_from_i64(0);
    let mut i: usize = 0;
    while i < items.len()
        invariant
            i <= items.len(),
            big_value(total) == undigits(views(items@), big_value(*b), i as int),
        decreases items.len() - i,
    {
        let scaled = big_mul(&total, b);
        total = match &items[i] {
            Gval::Int(d) => big_add(&scaled, d),
            _ => scaled,
        };
        i += 1;
    }
    total
}

/// A value read as an integer: itself if it is one, else zero.
fn to_int_or_zero(v: Gval) -> (r: num::BigInt)
    ensures
        big_value(r) == int_or_zero(v@),
{
    match v {
        Gval::Int(n) => n,
        _ => big_from_i64(0),
    }
}

/// The power of an integer, or the integer itself where the power is too
/// large.
fn guarded_pow(a: &num::BigInt, e: u32) -> (r: num::BigInt)
    ensures
        big_value(r) == power(big_value(*a), e as int),
{
    let mag = big_abs(a);
    let one = big_from_i64(1);
    let ten = big_from_i64(10);
    let limit = big_pow(&ten, 100);
    proof {
        lemma_pow1(10);
        lemma_pow_increases(10, 1, 100);
    }
    if !big_lt(&one, &mag) {
        proof {
            if big_value(mag) == 0 {
                if e > 0 {
                    lemma0_pow(e as nat);
                } else {
                    lemma_pow0(0);
                }
            } else {
                lemma1_pow(e as nat);
            }
        }
        return big_pow(a, e);
    }
    let mut acc = big_from_i64(1);
    let mut i: u32 = 0;
    proof {
        lemma_pow0(big_value(mag));
    }
    while i < e
        invariant
            i <= e,
            big_value(mag) == crate::bigint::int_abs(big_value(*a)),
            big_value(mag) > 1,
            big_value(limit) == pow(10, 100),
            big_value(acc) == pow(big_value(mag), i as nat),
            big_value(acc) < big_value(limit),
        decreases e - i,
    {
        acc = big_mul(&acc, &mag);
        i += 1;
        proof {
            reveal(pow);
            assert(pow(big_value(mag), i as nat) == big_value(mag) * pow(
                big_value(mag),
                (i - 1) as nat,
            ));
            assert(big_value(acc) == pow(big_value(mag), i as nat)) by (nonlinear_arith)
                requires
                    big_value(acc) == pow(big_value(mag), (i - 1) as nat) * big_value(mag),
                    pow(big_value(mag), i as nat) == big_value(mag) * pow(
                        big_value(mag),
                        (i - 1) as nat,
                    ),
            ;
        }
        if !big_lt(&acc, &limit) {
            proof {
                lemma_pow_increases(big_value(mag) as nat, i as nat, e as nat);
            }
            return big_clone(a);
        }
    }
    big_pow(a, e)
}

/// The power of two integers.
pub(crate) fn int_power(a: &num::BigInt, b: &num::BigInt) -> (r: num::BigInt)
    ensures
        big_value(r) == power(big_value(*a), big_value(*b)),
{
    match big_to_u32(b) {
        Some(e) => guarded_pow(a, e),
        None => big_from_i64(0),
    }
}

/// The integers from zero up to `n`, at most `max_loops` of them.
pub(crate) fn int_range(n: &num::BigInt, max_loops: u64) -> (r: Vec<Gval>)
    ensures
        views(r@) == range(capped(big_value(*n), max_loops)),
{
    let mut r: Vec<Gval> = Vec::new();
    let mut j: u64 = 0;
    let mut i = big_from_u64(0);
    let one = big_from_u64(1);
    while big_lt(&i, n) && j < max_loops
        invariant
            big_value(i) == j,
            big_value(one) == 1,
            j <= max_loops,
            j <= big_value(*n) || j == 0,
            r.len() == j,
            forall|k: int| 0 <= k < j ==> r@[k]@ == Val::Int(k),
        decreases max_loops - j,
    {
        r.push(Gval::Int(big_clone(&i)));
        i = big_add(&i, &one);
        j += 1;
    }
    proof {
        assert(views(r@) =~= range(capped(big_value(*n), max_loops)));
    }
    r
}

impl Gs {
    /// Pushes the element that `i` denotes in `x`, if `x` has any.
    pub(crate) fn push_at<T: Elem>(&mut self, x: &Vec<T>, i: &num::BigInt)
        ensures
            final(self)@ == push_indexed(old(self)@, lifted::<T>(views(x@)), big_value(*i)),
    {
        match index(x, i) {
            Some(e) => {
                self.push(e.dup().into_gval());
            },
            None => {},
        }
    }

    /// `<`, `=` and `>`
    pub(crate) fn lteqgt(&mut self, o: Order)
        ensures
            final(self)@ == op_compare(old(self)@, o),
    {
        let (a, b) = self.pop2();
        let at = same_order(o, Order::Equal);
        match (a, b) {
            (Gval::Int(i), Gval::Arr(x)) => {
                if at {
                    self.push_at(&x, &i);
                } else {
                    self.push(Gval::Arr(slice(o, x, i)));
                }
            },
            (Gval::Arr(x), Gval::Int(i)) => {
                if at {
                    self.push_at(&x, &i);
                } else {
                    self.push(Gval::Arr(slice(o, x, i)));
                }
            },
            (Gval::Int(i), Gval::Str(x)) => {
                if at {
                    self.push_at(&x, &i);
                } else {
                    self.push(Gval::Str(slice(o, x, i)));
                }
            },
            (Gval::Str(x), Gval::Int(i)) => {
                if at {
                    self.push_at(&x, &i);
                } else {
                    self.push(Gval::Str(slice(o, x, i)));
                }
            },
            (Gval::Int(i), Gval::Blk(x)) => {
                if at {
                    self.push_at(&x, &i);
                } else {
                    self.push(Gval::Blk(slice(o, x, i)));
                }
            },
            (Gval::Blk(x), Gval::Int(i)) => {
                if at {
                    self.push_at(&x, &i);
                } else {
                    self.push(Gval::Blk(slice(o, x, i)));
                }
            },
            (a, b) => {
                let r = same_order(a.order(&b), o);
                self.push(Gval::bool(r));
            },
        }
    }

    /// `(`
    pub(crate) fn left_paren(&mut self)
        ensures
            final(self)@ == op_left_paren(old(self)@),
    {
        match self.pop() {
            Some(Gval::Int(n)) => {
                self.push(Gval::Int(big_sub(&n, &big_from_i64(1))));
            },
            Some(Gval::Arr(a)) => {
                if a.len() > 0 {
                    let rest = crate::util::copy_range(&a, 1, a.len());
                    proof {
                        assert(views(a@).subrange(1, a.len() as int) =~= views(a@).skip(1));
                    }
                    self.push(Gval::Arr(rest));
                    self.push(a[0].clone());
                }
            },
            Some(Gval::Str(a)) => {
                if a.len() > 0 {
                    let rest = crate::util::copy_range(&a, 1, a.len());
                    proof {
                        assert(a@.subrange(1, a.len() as int) =~= a@.skip(1));
                    }
                    self.push(Gval::Str(rest));
                    self.push(a[0].into_gval());
                }
            },
            Some(Gval::Blk(a)) => {
                if a.len() > 0 {
                    let rest = crate::util::copy_range(&a, 1, a.len());
                    proof {
                        assert(a@.subrange(1, a.len() as int) =~= a@.skip(1));
                    }
                    self.push(Gval::Blk(rest));
                    self.push(a[0].into_gval());
                }
            },
            None => {
                self.push(Gval::Int(big_from_i64(-1)));
            },
        }
    }

    /// `)`
    pub(crate) fn right_paren(&mut self)
        ensures
            final(self)@ == op_right_paren(old(self)@),
    {
        match self.pop() {
            Some(Gval::Int(n)) => {
                self.push(Gval::Int(big_add(&n, &big_from_i64(1))));
            },
            Some(Gval::Arr(a)) => {
                let mut a = a;
                let ghost a0 = views(a@);
                match a.pop() {
                    Some(l) => {
                        proof {
                            assert(views(a@) =~= a0.drop_last());
                        }
                        self.push(Gval::Arr(a));
                        self.push(l);
                    },
                    None => {},
                }
            },
            Some(Gval::Str(a)) => {
                let mut a = a;
                match a.pop() {
                    Some(l) => {
                        self.push(Gval::Str(a));
                        self.push(l.into_gval());
                    },
                    None => {},
                }
            },
            Some(Gval::Blk(a)) => {
                let mut a = a;
                match a.pop() {
                    Some(l) => {
                        self.push(Gval::Blk(a));
                        self.push(l.into_gval());
                    },
                    None => {},
                }
            },
            None => {
                self.push(Gval::Int(big_from_i64(1)));
            },
        }
    }

    /// Advances the random number generator and returns its new state.
    pub(crate) fn rng(&mut self) -> (r: u64)
        ensures
            r == rng_next(old(self)@.rng_state),
            final(self)@ == (State { rng_state: r, ..old(self)@ }),
    {
        let m = self.rng_state.wrapping_mul(RNG_MULTIPLIER);
        let r = m.wrapping_add(RNG_INCREMENT);
        proof {
            let x = self.rng_state as int;
            let range = 0x1_0000_0000_0000_0000int;
            assert(m == (x * RNG_MULTIPLIER) % range);
            lemma_add_mod_noop(x * RNG_MULTIPLIER, RNG_INCREMENT as int, range);
            lemma_small_mod(RNG_INCREMENT as nat, range as nat);
            assert((m + RNG_INCREMENT) % range == (x * RNG_MULTIPLIER + RNG_INCREMENT) % range);
            if m + RNG_INCREMENT > u64::MAX {
                vstd::arithmetic::div_mod::lemma_mod_add_multiples_vanish(
                    m + RNG_INCREMENT - range,
                    range,
                );
                lemma_small_mod((m + RNG_INCREMENT - range) as nat, range as nat);
            } else {
                lemma_small_mod((m + RNG_INCREMENT) as nat, range as nat);
            }
        }
        self.rng_state = r;
        r
    }

    /// `rand`
    pub(crate) fn rand(&mut self)
        ensures
            final(self)@ == op_rand(old(self)@),
    {
        match self.pop() {
            Some(Gval::Int(n)) => {
                if big_is_positive(&n) {
                    let x = self.rng();
                    let r = big_mod_floor(&big_from_u64(x), &n);
                    proof {
                        let xi = x as int;
                        let ni = big_value(n);
                        assert(crate::bigint::floor_mod(xi, ni) == xi % ni) by (nonlinear_arith)
                            requires
                                ni > 0,
                                crate::bigint::floor_mod(xi, ni) == xi - ni * (xi / ni),
                        ;
                    }
                    self.push(Gval::Int(r));
                } else {
                    self.push(Gval::Int(big_from_i64(0)));
                }
            },
            _ => {
                self.push(Gval::Int(big_from_i64(0)));
            },
        }
    }

    /// `abs`
    pub(crate) fn abs(&mut self)
        ensures
            final(self)@ == op_abs(old(self)@),
    {
        let v = match self.pop() {
            Some(v) => v,
            None => Gval::Int(big_from_i64(0)),
        };
        match v {
            Gval::Int(n) => {
                self.push(Gval::Int(big_abs(&n)));
            },
            other => {
                self.push(other);
            },
        }
    }

    /// `zip`
    pub(crate) fn zip(&mut self)
        ensures
            final(self)@ == op_zip(old(self)@),
    {
        let v = self.pop_or_empty();
        match v {
            Gval::Arr(rows) => {
                let cols = transpose(&rows, self.max_loops);
                self.push(Gval::Arr(cols));
            },
            other => {
                self.push(other);
            },
        }
    }

    /// `base`
    pub(crate) fn base(&mut self)
        ensures
            final(self)@ == op_base(old(self)@),
    {
        let r = self.pop_or_empty();
        let b = to_int_or_zero(r);
        match self.pop() {
            Some(Gval::Int(n)) => {
                let d = digits(big_abs(&n), &b, self.max_loops);
                self.push(Gval::Arr(d));
            },
            Some(v) => {
                let items = v.into_items();
                let total = from_digits(&items, &b);
                self.push(Gval::Int(total));
            },
            None => {
                self.push(Gval::Int(big_from_i64(0)));
            },
        }
    }

    /// The number of rounds after which a loop is cut off.
    pub fn max_loops(&self) -> (r: u64)
        ensures
            r == self@.max_loops,
    {
        self.max_loops
    }

    /// How many levels deep blocks may run blocks.
    pub fn max_depth(&self) -> (r: usize)
        ensures
            r == self@.max_depth,
    {
        self.max_depth
    }

    /// The number of values on the stack.
    pub fn depth_of_stack(&self) -> (r: usize)
        ensures
            r == self@.stack.len(),
    {
        self.stack.len()
    }

    /// A copy of the value at index `i` of the stack, counted from the bottom.
    pub(crate) fn copy_at(&self, i: usize) -> (r: Gval)
        requires
            i < self@.stack.len(),
        ensures
            r@ == self@.stack[i as int],
    {
        self.stack[i].clone()
    }

    /// A copy of the value bound to `name`, if any.
    pub(crate) fn lookup(&self, name: &Vec<u8>) -> (r: Option<Gval>)
        ensures
            r is Some == self@.vars.contains_key(name@),
            r matches Some(v) ==> v@ == self@.vars[name@],
    {
        match self.vars.get(name) {
            Some(v) => Some(v.clone()),
            None => None,
        }
    }

    /// Takes the values from index `level` on off the stack.
    pub(crate) fn take_above(&mut self, level: usize) -> (r: Vec<Gval>)
        requires
            level <= old(self)@.stack.len(),
        ensures
            final(self)@ == (State { stack: old(self)@.stack.take(level as int), ..old(self)@ }),
            views(r@) == old(self)@.stack.skip(level as int),
    {
        let r = self.stack.split_off(level);
        proof {
            assert(views(self.stack@) =~= old(self)@.stack.take(level as int));
            assert(views(r@) =~= old(self)@.stack.skip(level as int));
        }
        r
    }

    /// Replaces the stack by a stack of one array that holds its values.
    pub fn wrap_stack(&mut self)
        ensures
            final(self)@ == (State { stack: seq![Val::Arr(old(self)@.stack)], ..old(self)@ }),
    {
        let mut all: Vec<Gval> = Vec::new();
        let ghost s0 = views(self.stack@);
        all.append(&mut self.stack);
        proof {
            assert(views(all@) =~= s0);
        }
        let whole = Gval::Arr(all);
        self.stack.push(whole);
        proof {
            assert(views(self.stack@) =~= seq![Val::Arr(s0)]);
        }
    }

    /// Puts the values of `vs` on the stack, the last on top.
    pub(crate) fn spread(&mut self, vs: Vec<Gval>)
        ensures
            final(self)@ == (State { stack: old(self)@.stack + views(vs@), ..old(self)@ }),
    {
        let mut vs = vs;
        let ghost v0 = views(vs@);
        self.stack.append(&mut vs);
        proof {
            assert(views(self.stack@) =~= old(self)@.stack + v0);
        }
    }

    /// `print`, `p` and `puts`
    pub(crate) fn print_top(&mut self, inspected: bool, newline: bool)
        ensures
            final(self)@ == op_print(old(self)@, inspected, newline),
    {
        match self.pop() {
            Some(v) => {
                if inspected {
                    v.write_inspect(&mut self.output);
                } else {
                    v.write_gs(&mut self.output);
                }
            },
            None => {
                proof {
                    assert(self.output@ + Seq::<u8>::empty() =~= self.output@);
                }
            },
        }
        if newline {
            self.output.push(10u8);
            proof {
                assert(self.output@ =~= op_print(old(self)@, inspected, newline).output);
            }
        }
    }
}

} // verus!
