//! The value model: the four kinds of value, their mathematical view, and the
//! operations that read a single value (truthiness, equality, ordering,
//! rendering).

use vstd::prelude::*;
use crate::bigint::{
    big_value, big_clone, big_eq, big_lt, big_is_zero, big_from_u64, big_from_i64,
    big_to_decimal, decimal,
};

verus! {

/// The mathematical view of a value.
pub enum Val {
    /// An integer of any size.
    Int(int),
    /// An ordered sequence of values.
    Arr(Seq<Val>),
    /// A sequence of raw bytes.
    Str(Seq<u8>),
    /// Deferred code, held as its source bytes (without the outer braces).
    Blk(Seq<u8>),
}

/// The outcome of a three-way comparison.
#[derive(Clone, Copy, Debug, PartialEq, Eq, Structural)]
pub enum Order {
    Less,
    Equal,
    Greater,
}

/// A value of the language.
#[derive(Debug)]
pub enum Gval {
    Int(num::BigInt),
    Arr(Vec<Gval>),
    Str(Vec<u8>),
    Blk(Vec<u8>),
}

impl View for Gval {
    type V = Val;

    open spec fn view(&self) -> Val
        decreases self,
    {
        match self {
            Gval::Int(n) => Val::Int(big_value(*n)),
            Gval::Arr(v) => Val::Arr(
                Seq::new(
                    v@.len(),
                    |i: int|
                        if 0 <= i < v@.len() {
                            v@[i].view()
                        } else {
                            Val::Int(0)
                        },
                ),
            ),
            Gval::Str(b) => Val::Str(b@),
            Gval::Blk(b) => Val::Blk(b@),
        }
    }
}

/// The views of a sequence of elements, one by one.
pub open spec fn views<T: View>(s: Seq<T>) -> Seq<T::V> {
    Seq::new(s.len(), |i: int| s[i]@)
}

/// A byte is its own view, so a byte sequence is its own sequence of views.
pub broadcast proof fn lemma_views_bytes(b: Seq<u8>)
    ensures
        #[trigger] views(b) == b,
{
    assert(views(b) =~= b);
}

/// The view of an array is the array of its elements' views.
pub broadcast proof fn lemma_view_arr(v: Vec<Gval>)
    ensures
        #[trigger] Gval::Arr(v)@ == Val::Arr(views(v@)),
{
    assert(Gval::Arr(v)@->Arr_0 =~= views(v@));
}

/// The values that bytes stand for are the bytes as integers.
pub broadcast proof fn lemma_lifted_bytes(b: Seq<u8>)
    ensures
        #[trigger] lifted::<u8>(b) == byte_vals(b),
{
    assert(lifted::<u8>(b) =~= byte_vals(b));
}

/// Values stand for themselves.
pub broadcast proof fn lemma_lifted_vals(xs: Seq<Val>)
    ensures
        #[trigger] lifted::<Gval>(xs) == xs,
{
    assert(lifted::<Gval>(xs) =~= xs);
}

pub broadcast group group_views {
    lemma_views_bytes,
    lemma_view_arr,
    lemma_lifted_bytes,
    lemma_lifted_vals,
}

/// Bytes read as values: each byte is the integer of the same number.
pub open spec fn byte_vals(b: Seq<u8>) -> Seq<Val> {
    Seq::new(b.len(), |i: int| Val::Int(b[i] as int))
}

/// The position of a kind in the promotion order `Int < Arr < Str < Blk`.
pub open spec fn rank(v: Val) -> int {
    match v {
        Val::Int(_) => 0,
        Val::Arr(_) => 1,
        Val::Str(_) => 2,
        Val::Blk(_) => 3,
    }
}

/// A value is truthy unless it is the integer zero or an empty sequence.
pub open spec fn truthy(v: Val) -> bool {
    match v {
        Val::Int(n) => n != 0,
        Val::Arr(xs) => xs.len() > 0,
        Val::Str(b) => b.len() > 0,
        Val::Blk(b) => b.len() > 0,
    }
}

/// The integer that stands for a boolean: one for true, zero for false.
pub open spec fn bool_val(b: bool) -> Val {
    Val::Int(if b { 1 } else { 0 })
}

/// Equality of values.  Within a kind it is structural (arrays element by
/// element); a string and a block are equal when their bytes are; any other
/// pair of different kinds is unequal.
pub open spec fn val_eq(a: Val, b: Val) -> bool
    decreases a,
{
    match (a, b) {
        (Val::Int(x), Val::Int(y)) => x == y,
        (Val::Arr(xs), Val::Arr(ys)) => xs.len() == ys.len() && forall|i: int|
            0 <= i < xs.len() ==> val_eq(#[trigger] xs[i], ys[i]),
        (Val::Str(x), Val::Str(y)) => x == y,
        (Val::Str(x), Val::Blk(y)) => x == y,
        (Val::Blk(x), Val::Str(y)) => x == y,
        (Val::Blk(x), Val::Blk(y)) => x == y,
        _ => false,
    }
}

/// Three-way comparison of integers.
pub open spec fn int_order(x: int, y: int) -> Order {
    if x < y {
        Order::Less
    } else if x == y {
        Order::Equal
    } else {
        Order::Greater
    }
}

/// Lexicographic comparison of two byte sequences from index `i` on.
pub open spec fn bytes_order(x: Seq<u8>, y: Seq<u8>, i: int) -> Order
    decreases x.len() - i,
{
    if i < 0 || (i >= x.len() && i >= y.len()) {
        Order::Equal
    } else if i >= x.len() {
        Order::Less
    } else if i >= y.len() {
        Order::Greater
    } else if x[i] != y[i] {
        int_order(x[i] as int, y[i] as int)
    } else {
        bytes_order(x, y, i + 1)
    }
}

/// Lexicographic comparison of two value sequences from index `i` on.
pub open spec fn seq_order(xs: Seq<Val>, ys: Seq<Val>, i: int) -> Order
    decreases xs, xs.len() - i,
{
    if i < 0 || (i >= xs.len() && i >= ys.len()) {
        Order::Equal
    } else if i >= xs.len() {
        Order::Less
    } else if i >= ys.len() {
        Order::Greater
    } else {
        match val_order(xs[i], ys[i]) {
            Order::Equal => seq_order(xs, ys, i + 1),
            o => o,
        }
    }
}

/// The total order on values: within a kind the natural one (integers by
/// size, sequences lexicographically), across kinds by rank.
pub open spec fn val_order(a: Val, b: Val) -> Order
    decreases a, 0int,
{
    match (a, b) {
        (Val::Int(x), Val::Int(y)) => int_order(x, y),
        (Val::Arr(xs), Val::Arr(ys)) => seq_order(xs, ys, 0),
        (Val::Str(x), Val::Str(y)) => bytes_order(x, y, 0),
        (Val::Blk(x), Val::Blk(y)) => bytes_order(x, y, 0),
        _ => int_order(rank(a), rank(b)),
    }
}

/// The unadorned rendering: integers in decimal, strings as their bytes,
/// arrays as the concatenation of their elements' renderings, blocks between
/// braces.
pub open spec fn to_gs(v: Val) -> Seq<u8>
    decreases v, 0int,
{
    match v {
        Val::Int(n) => decimal(n),
        Val::Arr(xs) => to_gs_upto(xs, xs.len() as int),
        Val::Str(b) => b,
        Val::Blk(b) => seq![123u8] + b + seq![125u8],
    }
}

/// The concatenated renderings of the first `n` elements of `xs`.
pub open spec fn to_gs_upto(xs: Seq<Val>, n: int) -> Seq<u8>
    decreases xs, n,
{
    if 0 < n <= xs.len() {
        to_gs_upto(xs, n - 1) + to_gs(xs[n - 1])
    } else {
        Seq::empty()
    }
}

/// The first `n` bytes of `b` with a backslash put before each double quote
/// and each backslash.
pub open spec fn escaped_upto(b: Seq<u8>, n: int) -> Seq<u8>
    decreases n,
{
    if 0 < n <= b.len() {
        if b[n - 1] == 34 || b[n - 1] == 92 {
            escaped_upto(b, n - 1).push(92u8).push(b[n - 1])
        } else {
            escaped_upto(b, n - 1).push(b[n - 1])
        }
    } else {
        Seq::empty()
    }
}

/// The rendering that reads back as the same value: integers in decimal,
/// strings between double quotes with `"` and `\` escaped, arrays between
/// brackets with a space between elements, blocks between braces.
pub open spec fn inspect(v: Val) -> Seq<u8>
    decreases v, 0int,
{
    match v {
        Val::Int(n) => decimal(n),
        Val::Arr(xs) => seq![91u8] + inspect_upto(xs, xs.len() as int) + seq![93u8],
        Val::Str(b) => seq![34u8] + escaped_upto(b, b.len() as int) + seq![34u8],
        Val::Blk(b) => seq![123u8] + b + seq![125u8],
    }
}

/// The inspections of the first `n` elements of `xs`, separated by spaces.
pub open spec fn inspect_upto(xs: Seq<Val>, n: int) -> Seq<u8>
    decreases xs, n,
{
    if 1 < n <= xs.len() {
        inspect_upto(xs, n - 1) + seq![32u8] + inspect(xs[n - 1])
    } else if n == 1 && n <= xs.len() {
        inspect(xs[0])
    } else {
        Seq::empty()
    }
}

/// The empty value of the same kind (zero for an integer).
pub open spec fn factory(v: Val) -> Val {
    match v {
        Val::Int(_) => Val::Int(0),
        Val::Arr(_) => Val::Arr(Seq::empty()),
        Val::Str(_) => Val::Str(Seq::empty()),
        Val::Blk(_) => Val::Blk(Seq::empty()),
    }
}

/// A value read as a sequence of values: an integer is a sequence of one, an
/// array is its elements, a string or block is its bytes as integers.
pub open spec fn as_items(v: Val) -> Seq<Val> {
    match v {
        Val::Int(_) => seq![v],
        Val::Arr(xs) => xs,
        Val::Str(b) => byte_vals(b),
        Val::Blk(b) => byte_vals(b),
    }
}

/// A value read as bytes: a string or block is its bytes, anything else its
/// unadorned rendering.
pub open spec fn as_bytes(v: Val) -> Seq<u8> {
    match v {
        Val::Str(b) => b,
        Val::Blk(b) => b,
        _ => to_gs(v),
    }
}

/// One value flattened to bytes: an integer is the byte with that number
/// modulo 256, a string or block is its bytes, an array is flattened element
/// by element.
pub open spec fn flat(v: Val) -> Seq<u8>
    decreases v, 0int,
{
    match v {
        Val::Int(n) => seq![(n % 256) as u8],
        Val::Arr(xs) => flat_upto(xs, xs.len() as int),
        Val::Str(b) => b,
        Val::Blk(b) => b,
    }
}

/// The first `n` elements of `xs` flattened to bytes and concatenated.
pub open spec fn flat_upto(xs: Seq<Val>, n: int) -> Seq<u8>
    decreases xs, n,
{
    if 0 < n <= xs.len() {
        flat_upto(xs, n - 1) + flat(xs[n - 1])
    } else {
        Seq::empty()
    }
}

/// A sequence of values flattened to bytes.
pub open spec fn flatten(xs: Seq<Val>) -> Seq<u8> {
    flat_upto(xs, xs.len() as int)
}

/// Copies a byte vector.
pub fn clone_bytes(b: &Vec<u8>) -> (r: Vec<u8>)
    ensures
        r@ == b@,
{
    let mut r: Vec<u8> = Vec::new();
    let mut i: usize = 0;
    while i < b.len()
        invariant
            i <= b.len(),
            r@ == b@.take(i as int),
        decreases b.len() - i,
    {
        r.push(b[i]);
        proof {
            assert(b@.take(i + 1) =~= b@.take(i as int).push(b@[i as int]));
        }
        i += 1;
    }
    proof {
        assert(b@.take(b.len() as int) =~= b@);
    }
    r
}

/// Appends the bytes of `src` to `dst`.
pub fn append_bytes(dst: &mut Vec<u8>, src: &Vec<u8>)
    ensures
        final(dst)@ == old(dst)@ + src@,
{
    let mut i: usize = 0;
    while i < src.len()
        invariant
            i <= src.len(),
            dst@ == old(dst)@ + src@.take(i as int),
        decreases src.len() - i,
    {
        dst.push(src[i]);
        proof {
            assert(src@.take(i + 1) =~= src@.take(i as int).push(src@[i as int]));
            assert(old(dst)@ + src@.take(i + 1) =~= (old(dst)@ + src@.take(i as int)).push(
                src@[i as int],
            ));
        }
        i += 1;
    }
    proof {
        assert(src@.take(src.len() as int) =~= src@);
    }
}

/// Copies a vector of values.
pub fn clone_vals(v: &Vec<Gval>) -> (r: Vec<Gval>)
    ensures
        views(r@) == views(v@),
    decreases v,
{
    let mut r: Vec<Gval> = Vec::new();
    let mut i: usize = 0;
    while i < v.len()
        invariant
            i <= v.len(),
            r.len() == i,
            forall|j: int| 0 <= j < i ==> r@[j]@ == v@[j]@,
        decreases v.len() - i,
    {
        r.push(v[i].clone());
        i += 1;
    }
    proof {
        assert(views(r@) =~= views(v@));
    }
    r
}

impl Clone for Gval {
    fn clone(&self) -> (r: Gval)
        ensures
            r@ == self@,
        decreases self,
    {
        match self {
            Gval::Int(n) => Gval::Int(big_clone(n)),
            Gval::Arr(v) => {
                let r = clone_vals(v);
                proof {
                    lemma_view_arr(r);
                    lemma_view_arr(*v);
                }
                Gval::Arr(r)
            },
            Gval::Str(b) => Gval::Str(clone_bytes(b)),
            Gval::Blk(b) => Gval::Blk(clone_bytes(b)),
        }
    }
}

/// What a sequence may hold: bytes (in strings and blocks) or values (in
/// arrays).  Every element stands for a value, the one that it becomes when it
/// is taken out of its sequence; elements are compared as those values.
pub trait Elem: View + Sized {
    /// The value that an element with this view stands for.
    spec fn lift(m: Self::V) -> Val;

    /// A copy of the element.
    fn dup(&self) -> (r: Self)
        ensures
            r@ == self@,
    ;

    /// Whether two elements are equal as values.
    fn is_same(&self, other: &Self) -> (r: bool)
        ensures
            r == val_eq(Self::lift(self@), Self::lift(other@)),
    ;

    /// The element as a value.
    fn into_gval(self) -> (r: Gval)
        ensures
            r@ == Self::lift(self@),
    ;
}

impl Elem for u8 {
    open spec fn lift(m: u8) -> Val {
        Val::Int(m as int)
    }

    fn dup(&self) -> (r: u8) {
        *self
    }

    fn is_same(&self, other: &u8) -> (r: bool) {
        *self == *other
    }

    fn into_gval(self) -> (r: Gval) {
        Gval::Int(big_from_u64(self as u64))
    }
}

impl Elem for Gval {
    open spec fn lift(m: Val) -> Val {
        m
    }

    fn dup(&self) -> (r: Gval) {
        self.clone()
    }

    fn is_same(&self, other: &Gval) -> (r: bool) {
        self.same(other)
    }

    fn into_gval(self) -> (r: Gval) {
        self
    }
}

impl PartialEq for Gval {
    /// `==` on values is equality of values, by which a string and a block
    /// of the same bytes are equal.
    fn eq(&self, other: &Gval) -> (r: bool) {
        self.same(other)
    }
}

impl vstd::std_specs::cmp::PartialEqSpecImpl for Gval {
    open spec fn obeys_eq_spec() -> bool {
        true
    }

    open spec fn eq_spec(&self, other: &Gval) -> bool {
        val_eq(self@, other@)
    }
}

/// The values that the elements of a sequence stand for.
pub open spec fn lifted<T: Elem>(s: Seq<T::V>) -> Seq<Val> {
    Seq::new(s.len(), |i: int| T::lift(s[i]))
}

/// Compares two byte vectors lexicographically.
pub fn compare_bytes(x: &Vec<u8>, y: &Vec<u8>) -> (r: Order)
    ensures
        r == bytes_order(x@, y@, 0),
{
    let mut i: usize = 0;
    loop
        invariant
            i <= x.len(),
            i <= y.len(),
            bytes_order(x@, y@, 0) == bytes_order(x@, y@, i as int),
        decreases x.len() - i,
    {
        if i >= x.len() && i >= y.len() {
            return Order::Equal;
        } else if i >= x.len() {
            return Order::Less;
        } else if i >= y.len() {
            return Order::Greater;
        } else if x[i] != y[i] {
            if x[i] < y[i] {
                return Order::Less;
            } else {
                return Order::Greater;
            }
        }
        i += 1;
    }
}

/// Whether two byte vectors hold the same bytes.
pub fn bytes_eq(x: &Vec<u8>, y: &Vec<u8>) -> (r: bool)
    ensures
        r == (x@ == y@),
{
    if x.len() != y.len() {
        return false;
    }
    let mut i: usize = 0;
    while i < x.len()
        invariant
            i <= x.len(),
            x.len() == y.len(),
            forall|j: int| 0 <= j < i ==> x@[j] == y@[j],
        decreases x.len() - i,
    {
        if x[i] != y[i] {
            return false;
        }
        i += 1;
    }
    proof {
        assert(x@ =~= y@);
    }
    true
}

impl Gval {
    /// The integer that stands for a boolean.
    pub fn bool(b: bool) -> (r: Gval)
        ensures
            r@ == bool_val(b),
    {
        if b {
            Gval::Int(big_from_i64(1))
        } else {
            Gval::Int(big_from_i64(0))
        }
    }

    /// The integer value of a length or an index.
    pub fn from_len(n: usize) -> (r: Gval)
        ensures
            r@ == Val::Int(n as int),
    {
        Gval::Int(big_from_u64(n as u64))
    }

    /// An empty array.
    pub fn empty_arr() -> (r: Gval)
        ensures
            r@ == Val::Arr(Seq::empty()),
    {
        let v: Vec<Gval> = Vec::new();
        proof {
            lemma_view_arr(v);
            assert(views(v@) =~= Seq::<Val>::empty());
        }
        Gval::Arr(v)
    }

    /// Whether the value counts as true.
    pub fn truthy(&self) -> (r: bool)
        ensures
            r == truthy(self@),
    {
        match self {
            Gval::Int(n) => !big_is_zero(n),
            Gval::Arr(v) => v.len() > 0,
            Gval::Str(b) => b.len() > 0,
            Gval::Blk(b) => b.len() > 0,
        }
    }

    /// Whether the value counts as false.
    pub fn falsey(&self) -> (r: bool)
        ensures
            r == !truthy(self@),
    {
        !self.truthy()
    }

    /// The empty value of the same kind.
    pub fn factory(&self) -> (r: Gval)
        ensures
            r@ == factory(self@),
    {
        match self {
            Gval::Int(_) => Gval::Int(big_from_i64(0)),
            Gval::Arr(_) => Gval::empty_arr(),
            Gval::Str(_) => Gval::Str(Vec::new()),
            Gval::Blk(_) => Gval::Blk(Vec::new()),
        }
    }

    /// Equality of values.
    #[verifier::loop_isolation(false)]
    pub fn same(&self, other: &Gval) -> (r: bool)
        ensures
            r == val_eq(self@, other@),
        decreases self,
    {
        match (self, other) {
            (Gval::Int(x), Gval::Int(y)) => big_eq(x, y),
            (Gval::Arr(xs), Gval::Arr(ys)) => {
                proof {
                    lemma_view_arr(*xs);
                    lemma_view_arr(*ys);
                }
                if xs.len() != ys.len() {
                    return false;
                }
                let mut i: usize = 0;
                while i < xs.len()
                    invariant
                        i <= xs.len(),
                        xs.len() == ys.len(),
                        self@ == Val::Arr(views(xs@)),
                        other@ == Val::Arr(views(ys@)),
                        forall|j: int| 0 <= j < i ==> val_eq(#[trigger] views(xs@)[j], views(ys@)[j]),
                    decreases xs.len() - i,
                {
                    if !xs[i].same(&ys[i]) {
                        proof {
                            assert(!val_eq(views(xs@)[i as int], views(ys@)[i as int]));
                        }
                        return false;
                    }
                    i += 1;
                }
                true
            },
            (Gval::Str(x), Gval::Str(y)) => bytes_eq(x, y),
            (Gval::Str(x), Gval::Blk(y)) => bytes_eq(x, y),
            (Gval::Blk(x), Gval::Str(y)) => bytes_eq(x, y),
            (Gval::Blk(x), Gval::Blk(y)) => bytes_eq(x, y),
            _ => false,
        }
    }

    /// The position of the value's kind in the promotion order.
    pub fn rank(&self) -> (r: u8)
        ensures
            r == rank(self@),
    {
        match self {
            Gval::Int(_) => 0,
            Gval::Arr(_) => 1,
            Gval::Str(_) => 2,
            Gval::Blk(_) => 3,
        }
    }

    /// The total order on values.
    #[verifier::loop_isolation(false)]
    pub fn order(&self, other: &Gval) -> (r: Order)
        ensures
            r == val_order(self@, other@),
        decreases self,
    {
        match (self, other) {
            (Gval::Int(x), Gval::Int(y)) => {
                if big_lt(x, y) {
                    Order::Less
                } else if big_eq(x, y) {
                    Order::Equal
                } else {
                    Order::Greater
                }
            },
            (Gval::Arr(xs), Gval::Arr(ys)) => {
                proof {
                    lemma_view_arr(*xs);
                    lemma_view_arr(*ys);
                }
                let mut i: usize = 0;
                loop
                    invariant
                        i <= xs.len(),
                        i <= ys.len(),
                        self@ == Val::Arr(views(xs@)),
                        other@ == Val::Arr(views(ys@)),
                        val_order(self@, other@) == seq_order(views(xs@), views(ys@), i as int),
                    decreases xs.len() - i,
                {
                    if i >= xs.len() && i >= ys.len() {
                        return Order::Equal;
                    } else if i >= xs.len() {
                        return Order::Less;
                    } else if i >= ys.len() {
                        return Order::Greater;
                    }
                    let o = xs[i].order(&ys[i]);
                    match o {
                        Order::Equal => {},
                        _ => {
                            return o;
                        },
                    }
                    i += 1;
                }
            },
            (Gval::Str(x), Gval::Str(y)) => compare_bytes(x, y),
            (Gval::Blk(x), Gval::Blk(y)) => compare_bytes(x, y),
            _ => {
                let a = self.rank();
                let b = other.rank();
                if a < b {
                    Order::Less
                } else if a == b {
                    Order::Equal
                } else {
                    Order::Greater
                }
            },
        }
    }

    /// Appends the unadorned rendering of the value to `out`.
    #[verifier::loop_isolation(false)]
    pub fn write_gs(&self, out: &mut Vec<u8>)
        ensures
            final(out)@ == old(out)@ + to_gs(self@),
        decreases self,
    {
        match self {
            Gval::Int(n) => {
                let d = big_to_decimal(n);
                append_bytes(out, &d);
            },
            Gval::Arr(xs) => {
                proof {
                    lemma_view_arr(*xs);
                    assert(out@ =~= old(out)@ + to_gs_upto(views(xs@), 0));
                }
                let mut i: usize = 0;
                while i < xs.len()
                    invariant
                        i <= xs.len(),
                        self@ == Val::Arr(views(xs@)),
                        out@ == old(out)@ + to_gs_upto(views(xs@), i as int),
                    decreases xs.len() - i,
                {
                    let ghost before = out@;
                    xs[i].write_gs(out);
                    proof {
                        assert(out@ == before + to_gs(views(xs@)[i as int]));
                        assert(to_gs_upto(views(xs@), i + 1) == to_gs_upto(views(xs@), i as int)
                            + to_gs(views(xs@)[i as int]));
                        assert(out@ =~= old(out)@ + to_gs_upto(views(xs@), i + 1));
                    }
                    i += 1;
                }
            },
            Gval::Str(b) => {
                append_bytes(out, b);
            },
            Gval::Blk(b) => {
                out.push(123u8);
                append_bytes(out, b);
                out.push(125u8);
                proof {
                    assert(out@ =~= old(out)@ + (seq![123u8] + b@ + seq![125u8]));
                }
            },
        }
    }

    /// The unadorned rendering of the value.
    pub fn to_gs(&self) -> (r: Vec<u8>)
        ensures
            r@ == to_gs(self@),
    {
        let mut out: Vec<u8> = Vec::new();
        self.write_gs(&mut out);
        proof {
            assert(out@ =~= to_gs(self@));
        }
        out
    }

    /// Appends the inspection of the value to `out`.
    #[verifier::loop_isolation(false)]
    pub fn write_inspect(&self, out: &mut Vec<u8>)
        ensures
            final(out)@ == old(out)@ + inspect(self@),
        decreases self,
    {
        match self {
            Gval::Int(n) => {
                let d = big_to_decimal(n);
                append_bytes(out, &d);
            },
            Gval::Arr(xs) => {
                out.push(91u8);
                proof {
                    lemma_view_arr(*xs);
                    assert(out@ =~= old(out)@ + seq![91u8] + inspect_upto(views(xs@), 0));
                }
                let mut i: usize = 0;
                while i < xs.len()
                    invariant
                        i <= xs.len(),
                        self@ == Val::Arr(views(xs@)),
                        out@ == old(out)@ + seq![91u8] + inspect_upto(views(xs@), i as int),
                    decreases xs.len() - i,
                {
                    let ghost before = out@;
                    if i > 0 {
                        out.push(32u8);
                    }
                    xs[i].write_inspect(out);
                    proof {
                        let vs = views(xs@);
                        if i > 0 {
                            assert(out@ == before.push(32u8) + inspect(vs[i as int]));
                            assert(inspect_upto(vs, i + 1) == inspect_upto(vs, i as int) + seq![
                                32u8,
                            ] + inspect(vs[i as int]));
                        } else {
                            assert(inspect_upto(vs, 0) =~= Seq::<u8>::empty());
                            assert(inspect_upto(vs, 1) == inspect(vs[0]));
                        }
                        assert(out@ =~= old(out)@ + seq![91u8] + inspect_upto(vs, i + 1));
                    }
                    i += 1;
                }
                out.push(93u8);
                proof {
                    let vs = views(xs@);
                    assert(out@ =~= old(out)@ + (seq![91u8] + inspect_upto(vs, vs.len() as int)
                        + seq![93u8]));
                }
            },
            Gval::Str(b) => {
                out.push(34u8);
                let mut i: usize = 0;
                while i < b.len()
                    invariant
                        i <= b.len(),
                        out@ == old(out)@ + seq![34u8] + escaped_upto(b@, i as int),
                    decreases b.len() - i,
                {
                    let c = b[i];
                    if c == 34 || c == 92 {
                        out.push(92u8);
                    }
                    out.push(c);
                    proof {
                        assert(out@ =~= old(out)@ + seq![34u8] + escaped_upto(b@, i + 1));
                    }
                    i += 1;
                }
                out.push(34u8);
                proof {
                    assert(out@ =~= old(out)@ + (seq![34u8] + escaped_upto(b@, b@.len() as int)
                        + seq![34u8]));
                }
            },
            Gval::Blk(b) => {
                out.push(123u8);
                append_bytes(out, b);
                out.push(125u8);
                proof {
                    assert(out@ =~= old(out)@ + (seq![123u8] + b@ + seq![125u8]));
                }
            },
        }
    }

    /// The inspection of the value.
    pub fn inspect(&self) -> (r: Vec<u8>)
        ensures
            r@ == inspect(self@),
    {
        let mut out: Vec<u8> = Vec::new();
        self.write_inspect(&mut out);
        proof {
            assert(out@ =~= inspect(self@));
        }
        out
    }
}

} // verus!
