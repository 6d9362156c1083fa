//! The evaluator's loop: running tokens, and the symbols that run blocks.

use vstd::prelude::*;
use crate::bigint::{
    big_value, big_from_i64, big_sub, big_mul, big_not, big_div_floor, big_mod_floor,
    big_is_zero, big_is_positive, big_to_u8, big_parse, is_decimal_literal,
};
use crate::value::{
    Gval, Val, Elem, views, lifted, group_views, clone_bytes, clone_vals, byte_vals, truthy,
};
use crate::coerce::{join, flatten_vals};
use crate::util::{
    repeat, chunk, every_nth, split, string_index, position, views2, lemma_views_push,
};
use crate::sort::{sort_by_key, sort_vals};
use crate::parse::{Gtoken, parse_code};
use crate::unescape::unescape;
use crate::interp::{Gs, int_power, int_range};
use crate::value::Order;
use crate::machine::{
    Builtin, builtin_of, empty_arr, push, pop, top_or_empty, arrs, strs, singletons, kept,
    kept_all, lemma_kept_push, run_block, go, each, fold, map_items, select_flags, find,
    sort_keys, times, do_rounds, while_rounds, unfold_rounds, op_tilde, op_dollar, op_asterisk,
    op_slash, op_percent, op_comma, op_question, op_do, op_while, op_if, op_and_word, op_or_word,
    op_xor_word, run_builtin, run_token, run_tokens, run_code, run, is_assign, byte_index,
    push_mapped,
};

verus! {

broadcast use group_views;

/// Whether `name` is the one byte `a`.
fn is1(name: &Vec<u8>, a: u8) -> (r: bool)
    ensures
        r == (name@ == seq![a]),
{
    let r = name.len() == 1 && name[0] == a;
    proof {
        if r {
            assert(name@ =~= seq![a]);
        }
    }
    r
}

/// Whether `name` is the two bytes `a`, `b`.
fn is2(name: &Vec<u8>, a: u8, b: u8) -> (r: bool)
    ensures
        r == (name@ == seq![a, b]),
{
    let r = name.len() == 2 && name[0] == a && name[1] == b;
    proof {
        if r {
            assert(name@ =~= seq![a, b]);
        }
    }
    r
}

/// Whether `name` is the three bytes `a`, `b`, `c`.
fn is3(name: &Vec<u8>, a: u8, b: u8, c: u8) -> (r: bool)
    ensures
        r == (name@ == seq![a, b, c]),
{
    let r = name.len() == 3 && name[0] == a && name[1] == b && name[2] == c;
    proof {
        if r {
            assert(name@ =~= seq![a, b, c]);
        }
    }
    r
}

/// Whether `name` is the four bytes `a`, `b`, `c`, `d`.
fn is4(name: &Vec<u8>, a: u8, b: u8, c: u8, d: u8) -> (r: bool)
    ensures
        r == (name@ == seq![a, b, c, d]),
{
    let r = name.len() == 4 && name[0] == a && name[1] == b && name[2] == c && name[3] == d;
    proof {
        if r {
            assert(name@ =~= seq![a, b, c, d]);
        }
    }
    r
}

/// Whether `name` is the five bytes `a`, `b`, `c`, `d`, `e`.
fn is5(name: &Vec<u8>, a: u8, b: u8, c: u8, d: u8, e: u8) -> (r: bool)
    ensures
        r == (name@ == seq![a, b, c, d, e]),
{
    let r = name.len() == 5 && name[0] == a && name[1] == b && name[2] == c && name[3] == d
        && name[4] == e;
    proof {
        if r {
            assert(name@ =~= seq![a, b, c, d, e]);
        }
    }
    r
}

/// The built-in symbol of a name, if it is one.
pub fn lookup_builtin(name: &Vec<u8>) -> (r: Option<Builtin>)
    ensures
        r == builtin_of(name@),
{
    if is1(name, 126) {
        Some(Builtin::Tilde)
    } else if is1(name, 96) {
        Some(Builtin::Backtick)
    } else if is1(name, 33) {
        Some(Builtin::Bang)
    } else if is1(name, 64) {
        Some(Builtin::At)
    } else if is1(name, 36) {
        Some(Builtin::Dollar)
    } else if is1(name, 43) {
        Some(Builtin::Plus)
    } else if is1(name, 45) {
        Some(Builtin::Minus)
    } else if is1(name, 42) {
        Some(Builtin::Asterisk)
    } else if is1(name, 47) {
        Some(Builtin::Slash)
    } else if is1(name, 37) {
        Some(Builtin::Percent)
    } else if is1(name, 124) {
        Some(Builtin::Bar)
    } else if is1(name, 38) {
        Some(Builtin::Ampersand)
    } else if is1(name, 94) {
        Some(Builtin::Caret)
    } else if is1(name, 91) {
        Some(Builtin::Open)
    } else if is1(name, 93) {
        Some(Builtin::Close)
    } else if is1(name, 92) {
        Some(Builtin::Swap)
    } else if is1(name, 59) {
        Some(Builtin::Drop)
    } else if is1(name, 60) {
        Some(Builtin::Less)
    } else if is1(name, 61) {
        Some(Builtin::Equal)
    } else if is1(name, 62) {
        Some(Builtin::Greater)
    } else if is1(name, 44) {
        Some(Builtin::Comma)
    } else if is1(name, 46) {
        Some(Builtin::Dup)
    } else if is1(name, 63) {
        Some(Builtin::Question)
    } else if is1(name, 40) {
        Some(Builtin::LeftParen)
    } else if is1(name, 41) {
        Some(Builtin::RightParen)
    } else if is3(name, 97, 110, 100) {
        Some(Builtin::And)
    } else if is2(name, 111, 114) {
        Some(Builtin::Or)
    } else if is3(name, 120, 111, 114) {
        Some(Builtin::Xor)
    } else if is1(name, 110) {
        Some(Builtin::Newline)
    } else if is5(name, 112, 114, 105, 110, 116) {
        Some(Builtin::Print)
    } else if is1(name, 112) {
        Some(Builtin::P)
    } else if is4(name, 112, 117, 116, 115) {
        Some(Builtin::Puts)
    } else if is4(name, 114, 97, 110, 100) {
        Some(Builtin::Rand)
    } else if is2(name, 100, 111) {
        Some(Builtin::Do)
    } else if is5(name, 119, 104, 105, 108, 101) {
        Some(Builtin::While)
    } else if is5(name, 117, 110, 116, 105, 108) {
        Some(Builtin::Until)
    } else if is2(name, 105, 102) {
        Some(Builtin::If)
    } else if is3(name, 97, 98, 115) {
        Some(Builtin::Abs)
    } else if is3(name, 122, 105, 112) {
        Some(Builtin::Zip)
    } else if is4(name, 98, 97, 115, 101) {
        Some(Builtin::Base)
    } else {
        None
    }
}

/// Each fragment as an array value.
fn wrap_arrs(f: &Vec<Vec<Gval>>) -> (r: Vec<Gval>)
    ensures
        views(r@) == arrs(views2(f@)),
{
    let mut r: Vec<Gval> = Vec::new();
    let mut i: usize = 0;
    while i < f.len()
        invariant
            i <= f.len(),
            r.len() == i,
            forall|j: int| 0 <= j < i ==> r@[j]@ == Val::Arr(views(f@[j]@)),
        decreases f.len() - i,
    {
        r.push(Gval::Arr(clone_vals(&f[i])));
        i += 1;
    }
    proof {
        assert(views(r@) =~= arrs(views2(f@)));
    }
    r
}

/// Each fragment as a string value.
fn wrap_strs(f: &Vec<Vec<u8>>) -> (r: Vec<Gval>)
    ensures
        views(r@) == strs(views2(f@)),
{
    let mut r: Vec<Gval> = Vec::new();
    let mut i: usize = 0;
    while i < f.len()
        invariant
            i <= f.len(),
            r.len() == i,
            forall|j: int| 0 <= j < i ==> r@[j]@ == Val::Str(f@[j]@),
        decreases f.len() - i,
    {
        r.push(Gval::Str(clone_bytes(&f[i])));
        i += 1;
    }
    proof {
        assert(views(r@) =~= strs(views2(f@)));
    }
    r
}

/// Each byte as a one-byte string value.
fn singleton_strs(b: &Vec<u8>) -> (r: Vec<Gval>)
    ensures
        views(r@) == singletons(b@),
{
    let mut r: Vec<Gval> = Vec::new();
    let mut i: usize = 0;
    while i < b.len()
        invariant
            i <= b.len(),
            r.len() == i,
            forall|j: int| 0 <= j < i ==> r@[j]@ == Val::Str(seq![b@[j]]),
        decreases b.len() - i,
    {
        let mut one: Vec<u8> = Vec::new();
        one.push(b[i]);
        proof {
            assert(one@ =~= seq![b@[i as int]]);
        }
        r.push(Gval::Str(one));
        i += 1;
    }
    proof {
        assert(views(r@) =~= singletons(b@));
    }
    r
}

/// A vector of the one value `v`.
fn one_item(v: Gval) -> (r: Vec<Gval>)
    ensures
        views(r@) == seq![v@],
{
    let mut r: Vec<Gval> = Vec::new();
    proof {
        lemma_views_push(r@, v);
        assert(views(r@).push(v@) =~= seq![v@]);
    }
    r.push(v);
    r
}

/// The first index of the byte with the number `n` in `h`, or -1.
fn index_of_byte(h: &Vec<u8>, n: &num::BigInt) -> (r: num::BigInt)
    ensures
        big_value(r) == byte_index(h@, big_value(*n)),
{
    match big_to_u8(n) {
        Some(b) => position(h, &b),
        None => big_from_i64(-1),
    }
}

impl Gs {
    /// Runs a block one level further down; at level zero it is skipped.
    pub(crate) fn run_block(&mut self, code: &Vec<u8>, depth: usize)
        ensures
            final(self)@ == run_block(old(self)@, code@, depth as nat),
        decreases depth, 0nat,
    {
        if depth > 0 {
            self.run_code(code.as_slice(), depth - 1);
        }
    }

    /// Executes a value: a block is run, any other value is pushed.
    pub(crate) fn go(&mut self, val: Gval, depth: usize)
        ensures
            final(self)@ == go(old(self)@, val@, depth as nat),
        decreases depth, 1nat,
    {
        match val {
            Gval::Blk(code) => {
                self.run_block(&code, depth);
            },
            other => {
                self.push(other);
            },
        }
    }

    /// Runs `code` on each element, the element pushed first.
    pub(crate) fn each<T: Elem>(&mut self, code: &Vec<u8>, vs: &Vec<T>, depth: usize)
        ensures
            final(self)@ == each(old(self)@, code@, lifted::<T>(views(vs@)), 0, depth as nat),
        decreases depth, 2nat,
    {
        let ghost items = lifted::<T>(views(vs@));
        let mut i: usize = 0;
        while i < vs.len()
            invariant
                i <= vs.len(),
                items == lifted::<T>(views(vs@)),
                each(old(self)@, code@, items, 0, depth as nat) == each(
                    self@,
                    code@,
                    items,
                    i as int,
                    depth as nat,
                ),
            decreases vs.len() - i,
        {
            self.push(vs[i].dup().into_gval());
            self.run_block(code, depth);
            i += 1;
        }
    }

    /// Pushes the elements, running `code` after each but the first.
    pub(crate) fn fold<T: Elem>(&mut self, code: &Vec<u8>, vs: &Vec<T>, depth: usize)
        ensures
            final(self)@ == fold(old(self)@, code@, lifted::<T>(views(vs@)), 0, depth as nat),
        decreases depth, 2nat,
    {
        let ghost items = lifted::<T>(views(vs@));
        let mut i: usize = 0;
        while i < vs.len()
            invariant
                i <= vs.len(),
                items == lifted::<T>(views(vs@)),
                fold(old(self)@, code@, items, 0, depth as nat) == fold(
                    self@,
                    code@,
                    items,
                    i as int,
                    depth as nat,
                ),
            decreases vs.len() - i,
        {
            self.push(vs[i].dup().into_gval());
            if i >= 1 {
                self.run_block(code, depth);
            }
            i += 1;
        }
    }

    /// Runs `code` on each element and collects what each run leaves above
    /// the level at which it found the stack.
    pub(crate) fn gs_map<T: Elem>(&mut self, code: &Vec<u8>, vs: &Vec<T>, depth: usize) -> (r:
        Vec<Gval>)
        ensures
            (final(self)@, views(r@)) == map_items(
                old(self)@,
                code@,
                lifted::<T>(views(vs@)),
                0,
                Seq::empty(),
                depth as nat,
            ),
        decreases depth, 2nat,
    {
        let ghost items = lifted::<T>(views(vs@));
        let mut r: Vec<Gval> = Vec::new();
        let mut i: usize = 0;
        proof {
            assert(views(r@) =~= Seq::<Val>::empty());
        }
        while i < vs.len()
            invariant
                i <= vs.len(),
                items == lifted::<T>(views(vs@)),
                map_items(old(self)@, code@, items, 0, Seq::empty(), depth as nat) == map_items(
                    self@,
                    code@,
                    items,
                    i as int,
                    views(r@),
                    depth as nat,
                ),
            decreases vs.len() - i,
        {
            let level = self.depth_of_stack();
            self.push(vs[i].dup().into_gval());
            self.run_block(code, depth);
            if level <= self.depth_of_stack() {
                let mut got = self.take_above(level);
                let ghost r0 = views(r@);
                let ghost g0 = views(got@);
                r.append(&mut got);
                proof {
                    assert(views(r@) =~= r0 + g0);
                }
            }
            i += 1;
        }
        r
    }

    /// The elements for which `code` gives a truthy result.
    pub(crate) fn select<T: Elem>(&mut self, code: &Vec<u8>, vs: &Vec<T>, depth: usize) -> (r:
        Vec<T>)
        ensures
            final(self)@ == select_flags(
                old(self)@,
                code@,
                lifted::<T>(views(vs@)),
                0,
                Seq::empty(),
                depth as nat,
            ).0,
            views(r@) == kept_all(
                views(vs@),
                select_flags(
                    old(self)@,
                    code@,
                    lifted::<T>(views(vs@)),
                    0,
                    Seq::empty(),
                    depth as nat,
                ).1,
            ),
        decreases depth, 2nat,
    {
        let ghost items = lifted::<T>(views(vs@));
        let ghost mut flags: Seq<bool> = Seq::empty();
        let mut r: Vec<T> = Vec::new();
        let mut i: usize = 0;
        proof {
            assert(views(r@) =~= Seq::<T::V>::empty());
        }
        while i < vs.len()
            invariant
                i <= vs.len(),
                items == lifted::<T>(views(vs@)),
                flags.len() == i,
                views(r@) == kept(views(vs@), flags, i as int),
                select_flags(old(self)@, code@, items, 0, Seq::empty(), depth as nat)
                    == select_flags(self@, code@, items, i as int, flags, depth as nat),
            decreases vs.len() - i,
        {
            self.push(vs[i].dup().into_gval());
            self.run_block(code, depth);
            let keep = match self.pop() {
                Some(t) => t.truthy(),
                None => false,
            };
            proof {
                lemma_kept_push(views(vs@), flags, keep, i as int);
                lemma_views_push(r@, vs@[i as int]);
                flags = flags.push(keep);
            }
            if keep {
                r.push(vs[i].dup());
            }
            i += 1;
        }
        r
    }

    /// Pushes the first element for which `code` gives a truthy result.
    pub(crate) fn find<T: Elem>(&mut self, code: &Vec<u8>, vs: &Vec<T>, depth: usize)
        ensures
            final(self)@ == find(old(self)@, code@, lifted::<T>(views(vs@)), 0, depth as nat),
        decreases depth, 2nat,
    {
        let ghost items = lifted::<T>(views(vs@));
        let mut i: usize = 0;
        while i < vs.len()
            invariant
                i <= vs.len(),
                items == lifted::<T>(views(vs@)),
                find(old(self)@, code@, items, 0, depth as nat) == find(
                    self@,
                    code@,
                    items,
                    i as int,
                    depth as nat,
                ),
            decreases vs.len() - i,
        {
            self.push(vs[i].dup().into_gval());
            self.run_block(code, depth);
            let found = match self.pop() {
                Some(t) => t.truthy(),
                None => false,
            };
            if found {
                self.push(vs[i].dup().into_gval());
                return ;
            }
            i += 1;
        }
    }

    /// The elements sorted by the keys that `code` makes of them.
    pub(crate) fn sort_by<T: Elem>(&mut self, code: &Vec<u8>, vs: &Vec<T>, depth: usize) -> (r:
        Vec<T>)
        ensures
            final(self)@ == sort_keys(
                old(self)@,
                code@,
                lifted::<T>(views(vs@)),
                0,
                Seq::empty(),
                depth as nat,
            ).0,
            views(r@) == crate::sort::sorted_by_key(
                sort_keys(
                    old(self)@,
                    code@,
                    lifted::<T>(views(vs@)),
                    0,
                    Seq::empty(),
                    depth as nat,
                ).1,
                views(vs@),
            ),
        decreases depth, 2nat,
    {
        let ghost items = lifted::<T>(views(vs@));
        let mut keys: Vec<Gval> = Vec::new();
        let mut i: usize = 0;
        proof {
            assert(views(keys@) =~= Seq::<Val>::empty());
        }
        while i < vs.len()
            invariant
                i <= vs.len(),
                items == lifted::<T>(views(vs@)),
                keys.len() == i,
                sort_keys(old(self)@, code@, items, 0, Seq::empty(), depth as nat) == sort_keys(
                    self@,
                    code@,
                    items,
                    i as int,
                    views(keys@),
                    depth as nat,
                ),
            decreases vs.len() - i,
        {
            self.push(vs[i].dup().into_gval());
            self.run_block(code, depth);
            let k = self.pop_or_empty();
            proof {
                lemma_views_push(keys@, k);
            }
            keys.push(k);
            i += 1;
        }
        sort_by_key(&keys, vs)
    }

    /// Runs `code` `n` times, but not more often than the loop cap allows.
    pub(crate) fn times(&mut self, code: &Vec<u8>, n: num::BigInt, depth: usize)
        ensures
            final(self)@ == times(
                old(self)@,
                code@,
                big_value(n),
                old(self)@.max_loops as nat,
                depth as nat,
            ),
        decreases depth, 2nat,
    {
        let mut n = n;
        let ghost n0 = big_value(n);
        let cap = self.max_loops();
        let mut left: u64 = cap;
        let one = big_from_i64(1);
        while big_is_positive(&n) && left > 0
            invariant
                big_value(one) == 1,
                times(old(self)@, code@, n0, cap as nat, depth as nat) == times(
                    self@,
                    code@,
                    big_value(n),
                    left as nat,
                    depth as nat,
                ),
            decreases left,
        {
            self.run_block(code, depth);
            n = big_sub(&n, &one);
            left -= 1;
        }
    }

    /// The rounds of `do`.
    pub(crate) fn do_rounds(&mut self, body: &Gval, depth: usize)
        ensures
            final(self)@ == do_rounds(
                old(self)@,
                body@,
                old(self)@.max_loops as nat,
                depth as nat,
            ),
        decreases depth, 2nat,
    {
        let cap = self.max_loops();
        let mut left: u64 = cap;
        let mut running = true;
        while running && left > 0
            invariant
                do_rounds(old(self)@, body@, cap as nat, depth as nat) == (if running {
                    do_rounds(self@, body@, left as nat, depth as nat)
                } else {
                    self@
                }),
            decreases left,
        {
            self.go(body.clone(), depth);
            let again = match self.pop() {
                Some(f) => f.truthy(),
                None => false,
            };
            if !again {
                running = false;
            }
            left -= 1;
        }
    }

    /// The rounds of `while` and `until`.
    pub(crate) fn while_rounds(&mut self, cond: &Gval, body: &Gval, which: bool, depth: usize)
        ensures
            final(self)@ == while_rounds(
                old(self)@,
                cond@,
                body@,
                which,
                old(self)@.max_loops as nat,
                depth as nat,
            ),
        decreases depth, 2nat,
    {
        let cap = self.max_loops();
        let mut left: u64 = cap;
        let mut running = true;
        while running && left > 0
            invariant
                while_rounds(old(self)@, cond@, body@, which, cap as nat, depth as nat)
                    == (if running {
                    while_rounds(self@, cond@, body@, which, left as nat, depth as nat)
                } else {
                    self@
                }),
            decreases left,
        {
            self.go(cond.clone(), depth);
            let stop = match self.pop() {
                Some(f) => f.falsey() == which,
                None => !which,
            };
            if stop {
                running = false;
            } else {
                self.go(body.clone(), depth);
            }
            left -= 1;
        }
    }

    /// A copy of the top of the stack, or the empty array where there is none.
    fn top_or_empty(&self) -> (r: Gval)
        ensures
            r@ == top_or_empty(self@),
    {
        match self.top() {
            Some(t) => t.clone(),
            None => Gval::empty_arr(),
        }
    }

    /// The rounds of an unfolding; returns what was collected.
    pub(crate) fn unfold(&mut self, cond: &Vec<u8>, step: &Vec<u8>, depth: usize) -> (r: Vec<
        Gval,
    >)
        ensures
            (final(self)@, views(r@)) == unfold_rounds(
                old(self)@,
                cond@,
                step@,
                Seq::empty(),
                old(self)@.max_loops as nat,
                depth as nat,
            ),
        decreases depth, 2nat,
    {
        let cap = self.max_loops();
        let mut left: u64 = cap;
        let mut running = true;
        let mut acc: Vec<Gval> = Vec::new();
        proof {
            assert(views(acc@) =~= Seq::<Val>::empty());
        }
        while running && left > 0
            invariant
                unfold_rounds(old(self)@, cond@, step@, Seq::empty(), cap as nat, depth as nat)
                    == (if running {
                    unfold_rounds(self@, cond@, step@, views(acc@), left as nat, depth as nat)
                } else {
                    (self@, views(acc@))
                }),
            decreases left,
        {
            let t = self.top_or_empty();
            self.push(t);
            self.run_block(cond, depth);
            let more = match self.pop() {
                Some(f) => f.truthy(),
                None => false,
            };
            if more {
                let t2 = self.top_or_empty();
                proof {
                    lemma_views_push(acc@, t2);
                }
                acc.push(t2);
                self.run_block(step, depth);
            } else {
                running = false;
            }
            left -= 1;
        }
        acc
    }

    /// `~`
    pub(crate) fn tilde(&mut self, depth: usize)
        ensures
            final(self)@ == op_tilde(old(self)@, depth as nat),
        decreases depth, 4nat,
    {
        match self.pop() {
            Some(Gval::Int(n)) => {
                self.push(Gval::Int(big_not(&n)));
            },
            Some(Gval::Arr(vs)) => {
                self.spread(vs);
            },
            Some(Gval::Str(code)) => {
                self.run_block(&code, depth);
            },
            Some(Gval::Blk(code)) => {
                self.run_block(&code, depth);
            },
            None => {
                self.push(Gval::empty_arr());
            },
        }
    }

    /// `$` with an integer on top.
    fn pick(&mut self, n: &num::BigInt)
        ensures
            final(self)@ == ({
                let s1 = old(self)@;
                let len = s1.stack.len() as int;
                let n = big_value(*n);
                if n < -1 {
                    if -n - 2 < len {
                        push(s1, s1.stack[-n - 2])
                    } else {
                        s1
                    }
                } else if 0 <= n < len {
                    push(s1, s1.stack[len - 1 - n])
                } else {
                    s1
                }
            }),
    {
        let len = self.depth_of_stack();
        let minus_one = big_from_i64(-1);
        if crate::bigint::big_lt(n, &minus_one) {
            let i = big_sub(&big_sub(&big_from_i64(0), n), &big_from_i64(2));
            match crate::bigint::big_to_usize(&i) {
                Some(i) => {
                    if i < len {
                        let v = self.copy_at(i);
                        self.push(v);
                    }
                },
                None => {},
            }
        } else {
            match crate::bigint::big_to_usize(n) {
                Some(k) => {
                    if k < len {
                        let v = self.copy_at(len - 1 - k);
                        self.push(v);
                    }
                },
                None => {},
            }
        }
    }

    /// `$`
    pub(crate) fn dollar(&mut self, depth: usize)
        ensures
            final(self)@ == op_dollar(old(self)@, depth as nat),
        decreases depth, 4nat,
    {
        match self.pop() {
            Some(Gval::Int(n)) => {
                self.pick(&n);
            },
            Some(Gval::Arr(vs)) => {
                self.push(Gval::Arr(sort_vals(&vs)));
            },
            Some(Gval::Str(bs)) => {
                let keys = crate::coerce::bytes_to_items(&bs);
                self.push(Gval::Str(sort_by_key(&keys, &bs)));
            },
            Some(Gval::Blk(code)) => {
                match self.pop() {
                    Some(Gval::Int(n)) => {
                        self.push(Gval::Int(n));
                    },
                    Some(Gval::Arr(vs)) => {
                        let sorted = self.sort_by(&code, &vs, depth);
                        self.push(Gval::Arr(sorted));
                    },
                    Some(Gval::Str(vs)) => {
                        let sorted = self.sort_by(&code, &vs, depth);
                        self.push(Gval::Str(sorted));
                    },
                    Some(Gval::Blk(vs)) => {
                        let sorted = self.sort_by(&code, &vs, depth);
                        self.push(Gval::Blk(sorted));
                    },
                    None => {
                        self.push(Gval::empty_arr());
                    },
                }
            },
            None => {
                self.push(Gval::empty_arr());
            },
        }
    }

    /// `*`
    pub(crate) fn asterisk(&mut self, depth: usize)
        ensures
            final(self)@ == op_asterisk(old(self)@, depth as nat),
        decreases depth, 4nat,
    {
        let (a, b) = self.pop2();
        match (a, b) {
            (Gval::Int(x), Gval::Int(y)) => {
                self.push(Gval::Int(big_mul(&x, &y)));
            },
            (Gval::Arr(x), Gval::Arr(sep)) => {
                self.push(join(x, Gval::Arr(sep)));
            },
            (Gval::Arr(x), Gval::Str(sep)) => {
                self.push(join(x, Gval::Str(sep)));
            },
            (Gval::Str(sep), Gval::Arr(x)) => {
                self.push(join(x, Gval::Str(sep)));
            },
            (Gval::Str(x), Gval::Str(sep)) => {
                self.push(join(singleton_strs(&x), Gval::Str(sep)));
            },
            (Gval::Blk(code), Gval::Blk(x)) => {
                self.fold(&code, &x, depth);
            },
            (Gval::Str(x), Gval::Blk(code)) => {
                self.fold(&code, &x, depth);
            },
            (Gval::Blk(code), Gval::Str(x)) => {
                self.fold(&code, &x, depth);
            },
            (Gval::Arr(x), Gval::Blk(code)) => {
                self.fold(&code, &x, depth);
            },
            (Gval::Blk(code), Gval::Arr(x)) => {
                self.fold(&code, &x, depth);
            },
            (Gval::Int(n), Gval::Arr(x)) => {
                self.push(Gval::Arr(repeat(x, n)));
            },
            (Gval::Arr(x), Gval::Int(n)) => {
                self.push(Gval::Arr(repeat(x, n)));
            },
            (Gval::Int(n), Gval::Str(x)) => {
                self.push(Gval::Str(repeat(x, n)));
            },
            (Gval::Str(x), Gval::Int(n)) => {
                self.push(Gval::Str(repeat(x, n)));
            },
            (Gval::Int(n), Gval::Blk(code)) => {
                self.times(&code, n, depth);
            },
            (Gval::Blk(code), Gval::Int(n)) => {
                self.times(&code, n, depth);
            },
        }
    }

    /// `/` with an integer and a sequence: the sequence in chunks.
    fn chunk_arr(&mut self, x: Vec<Gval>, n: num::BigInt)
        ensures
            final(self)@ == (if big_value(n) == 0 {
                push(old(self)@, Val::Arr(views(x@)))
            } else {
                push(
                    old(self)@,
                    Val::Arr(arrs(crate::util::chunked(views(x@), big_value(n)))),
                )
            }),
    {
        if big_is_zero(&n) {
            self.push(Gval::Arr(x));
        } else {
            let c = chunk(&x, n);
            self.push(Gval::Arr(wrap_arrs(&c)));
        }
    }

    /// `/` with an integer and a string: the string in chunks.
    fn chunk_str(&mut self, x: Vec<u8>, n: num::BigInt)
        ensures
            final(self)@ == (if big_value(n) == 0 {
                push(old(self)@, Val::Str(x@))
            } else {
                push(old(self)@, Val::Arr(strs(crate::util::chunked(x@, big_value(n)))))
            }),
    {
        if big_is_zero(&n) {
            self.push(Gval::Str(x));
        } else {
            let c = chunk(&x, n);
            self.push(Gval::Arr(wrap_strs(&c)));
        }
    }

    /// `/` and `%` with two arrays, or an array and a string: the array split.
    fn split_arr(&mut self, x: Vec<Gval>, sep: Vec<Gval>, clean: bool)
        ensures
            final(self)@ == (if sep.len() == 0 {
                push(old(self)@, Val::Arr(views(x@)))
            } else {
                push(
                    old(self)@,
                    Val::Arr(arrs(crate::util::split_of::<Gval>(views(x@), views(sep@), clean))),
                )
            }),
    {
        if sep.len() == 0 {
            self.push(Gval::Arr(x));
        } else {
            let f = split(x, sep, clean);
            self.push(Gval::Arr(wrap_arrs(&f)));
        }
    }

    /// `/` and `%` with two strings: the first split.
    fn split_str(&mut self, x: Vec<u8>, sep: Vec<u8>, clean: bool)
        ensures
            final(self)@ == (if sep.len() == 0 {
                push(old(self)@, Val::Str(x@))
            } else {
                push(old(self)@, Val::Arr(strs(crate::util::split_of::<u8>(x@, sep@, clean))))
            }),
    {
        if sep.len() == 0 {
            self.push(Gval::Str(x));
        } else {
            let f = split(x, sep, clean);
            self.push(Gval::Arr(wrap_strs(&f)));
        }
    }

    /// `/`
    pub(crate) fn slash(&mut self, depth: usize)
        ensures
            final(self)@ == op_slash(old(self)@, depth as nat),
        decreases depth, 4nat,
    {
        let (a, b) = self.pop2();
        match (a, b) {
            (Gval::Int(x), Gval::Int(y)) => {
                if big_is_zero(&y) {
                    self.push(Gval::Int(big_from_i64(0)));
                } else {
                    self.push(Gval::Int(big_div_floor(&x, &y)));
                }
            },
            (Gval::Arr(x), Gval::Arr(sep)) => {
                self.split_arr(x, sep, false);
            },
            (Gval::Str(x), Gval::Str(sep)) => {
                self.split_str(x, sep, false);
            },
            (Gval::Arr(x), Gval::Str(sep)) => {
                let sep = crate::coerce::bytes_to_items(&sep);
                self.split_arr(x, sep, false);
            },
            (Gval::Str(sep), Gval::Arr(x)) => {
                let sep = crate::coerce::bytes_to_items(&sep);
                self.split_arr(x, sep, false);
            },
            (Gval::Str(x), Gval::Blk(code)) => {
                self.each(&code, &x, depth);
            },
            (Gval::Blk(code), Gval::Str(x)) => {
                self.each(&code, &x, depth);
            },
            (Gval::Arr(x), Gval::Blk(code)) => {
                self.each(&code, &x, depth);
            },
            (Gval::Blk(code), Gval::Arr(x)) => {
                self.each(&code, &x, depth);
            },
            (Gval::Int(n), Gval::Arr(x)) => {
                self.chunk_arr(x, n);
            },
            (Gval::Arr(x), Gval::Int(n)) => {
                self.chunk_arr(x, n);
            },
            (Gval::Int(n), Gval::Str(x)) => {
                self.chunk_str(x, n);
            },
            (Gval::Str(x), Gval::Int(n)) => {
                self.chunk_str(x, n);
            },
            (Gval::Blk(cond), Gval::Blk(step)) => {
                let acc = self.unfold(&cond, &step, depth);
                let _ = self.pop();
                self.push(Gval::Arr(acc));
            },
            (Gval::Blk(code), Gval::Int(n)) => {
                let items = one_item(Gval::Int(n));
                self.each(&code, &items, depth);
            },
            (Gval::Int(n), Gval::Blk(code)) => {
                let items = one_item(Gval::Int(n));
                self.each(&code, &items, depth);
            },
        }
    }

    /// `%` with a block and a sequence of values: the block mapped over it.
    fn map_arr(&mut self, code: &Vec<u8>, x: &Vec<Gval>, depth: usize)
        ensures
            final(self)@ == push_mapped(
                map_items(old(self)@, code@, views(x@), 0, Seq::empty(), depth as nat),
            ),
        decreases depth, 3nat,
    {
        let r = self.gs_map(code, x, depth);
        self.push(Gval::Arr(r));
    }

    /// `%` with a block and a string: the block mapped over its bytes.
    fn map_str(&mut self, code: &Vec<u8>, x: &Vec<u8>, depth: usize)
        ensures
            final(self)@ == ({
                let (s3, r) = map_items(
                    old(self)@,
                    code@,
                    byte_vals(x@),
                    0,
                    Seq::empty(),
                    depth as nat,
                );
                push(s3, Val::Str(crate::value::flatten(r)))
            }),
        decreases depth, 3nat,
    {
        let r = self.gs_map(code, x, depth);
        self.push(Gval::Str(flatten_vals(&r)));
    }

    /// `%`
    pub(crate) fn percent(&mut self, depth: usize)
        ensures
            final(self)@ == op_percent(old(self)@, depth as nat),
        decreases depth, 4nat,
    {
        let (a, b) = self.pop2();
        match (a, b) {
            (Gval::Int(x), Gval::Int(y)) => {
                if big_is_zero(&y) {
                    self.push(Gval::Int(big_from_i64(0)));
                } else {
                    self.push(Gval::Int(big_mod_floor(&x, &y)));
                }
            },
            (Gval::Arr(x), Gval::Arr(sep)) => {
                self.split_arr(x, sep, true);
            },
            (Gval::Str(x), Gval::Str(sep)) => {
                self.split_str(x, sep, true);
            },
            (Gval::Arr(x), Gval::Str(sep)) => {
                let sep = crate::coerce::bytes_to_items(&sep);
                self.split_arr(x, sep, true);
            },
            (Gval::Str(sep), Gval::Arr(x)) => {
                let sep = crate::coerce::bytes_to_items(&sep);
                self.split_arr(x, sep, true);
            },
            (Gval::Arr(x), Gval::Blk(code)) => {
                self.map_arr(&code, &x, depth);
            },
            (Gval::Blk(code), Gval::Arr(x)) => {
                self.map_arr(&code, &x, depth);
            },
            (Gval::Str(x), Gval::Blk(code)) => {
                self.map_str(&code, &x, depth);
            },
            (Gval::Blk(code), Gval::Str(x)) => {
                self.map_str(&code, &x, depth);
            },
            (Gval::Int(n), Gval::Arr(x)) => {
                self.push(Gval::Arr(every_nth(x, n)));
            },
            (Gval::Arr(x), Gval::Int(n)) => {
                self.push(Gval::Arr(every_nth(x, n)));
            },
            (Gval::Int(n), Gval::Str(x)) => {
                self.push(Gval::Str(every_nth(x, n)));
            },
            (Gval::Str(x), Gval::Int(n)) => {
                self.push(Gval::Str(every_nth(x, n)));
            },
            (Gval::Int(n), Gval::Blk(code)) => {
                let items = one_item(Gval::Int(n));
                self.map_arr(&code, &items, depth);
            },
            (Gval::Blk(code), Gval::Int(n)) => {
                let items = one_item(Gval::Int(n));
                self.map_arr(&code, &items, depth);
            },
            (Gval::Blk(code_a), Gval::Blk(code_b)) => {
                let items = one_item(Gval::Blk(code_a));
                self.map_arr(&code_b, &items, depth);
            },
        }
    }

    /// `,`
    pub(crate) fn comma(&mut self, depth: usize)
        ensures
            final(self)@ == op_comma(old(self)@, depth as nat),
        decreases depth, 4nat,
    {
        match self.pop() {
            Some(Gval::Int(n)) => {
                let r = int_range(&n, self.max_loops());
                self.push(Gval::Arr(r));
            },
            Some(Gval::Arr(a)) => {
                self.push(Gval::from_len(a.len()));
            },
            Some(Gval::Str(a)) => {
                self.push(Gval::from_len(a.len()));
            },
            Some(Gval::Blk(code)) => {
                match self.pop() {
                    Some(Gval::Int(n)) => {
                        let items = one_item(Gval::Int(n));
                        let r = self.select(&code, &items, depth);
                        self.push(Gval::Arr(r));
                    },
                    Some(Gval::Arr(a)) => {
                        let r = self.select(&code, &a, depth);
                        self.push(Gval::Arr(r));
                    },
                    Some(Gval::Str(a)) => {
                        let r = self.select(&code, &a, depth);
                        self.push(Gval::Str(r));
                    },
                    Some(Gval::Blk(a)) => {
                        let r = self.select(&code, &a, depth);
                        self.push(Gval::Blk(r));
                    },
                    None => {
                        self.push(Gval::empty_arr());
                    },
                }
            },
            None => {
                self.push(Gval::empty_arr());
            },
        }
    }

    /// `?`
    pub(crate) fn question(&mut self, depth: usize)
        ensures
            final(self)@ == op_question(old(self)@, depth as nat),
        decreases depth, 4nat,
    {
        let (a, b) = self.pop2();
        match (a, b) {
            (Gval::Int(x), Gval::Int(y)) => {
                self.push(Gval::Int(int_power(&x, &y)));
            },
            (Gval::Arr(h), Gval::Int(n)) => {
                self.push(Gval::Int(position(&h, &Gval::Int(n))));
            },
            (Gval::Int(n), Gval::Arr(h)) => {
                self.push(Gval::Int(position(&h, &Gval::Int(n))));
            },
            (Gval::Arr(h), Gval::Str(n)) => {
                self.push(Gval::Int(position(&h, &Gval::Str(n))));
            },
            (Gval::Str(n), Gval::Arr(h)) => {
                self.push(Gval::Int(position(&h, &Gval::Str(n))));
            },
            (Gval::Arr(h), Gval::Arr(n)) => {
                self.push(Gval::Int(position(&h, &Gval::Arr(n))));
            },
            (Gval::Str(h), Gval::Int(n)) => {
                self.push(Gval::Int(index_of_byte(&h, &n)));
            },
            (Gval::Int(n), Gval::Str(h)) => {
                self.push(Gval::Int(index_of_byte(&h, &n)));
            },
            (Gval::Str(h), Gval::Str(n)) => {
                self.push(Gval::Int(string_index(&h, &n)));
            },
            (Gval::Int(n), Gval::Blk(code)) => {
                let items = one_item(Gval::Int(n));
                self.find(&code, &items, depth);
            },
            (Gval::Blk(code), Gval::Int(n)) => {
                let items = one_item(Gval::Int(n));
                self.find(&code, &items, depth);
            },
            (Gval::Blk(code), Gval::Blk(x)) => {
                self.find(&code, &x, depth);
            },
            (Gval::Blk(code), Gval::Str(x)) => {
                self.find(&code, &x, depth);
            },
            (Gval::Str(x), Gval::Blk(code)) => {
                self.find(&code, &x, depth);
            },
            (Gval::Blk(code), Gval::Arr(x)) => {
                self.find(&code, &x, depth);
            },
            (Gval::Arr(x), Gval::Blk(code)) => {
                self.find(&code, &x, depth);
            },
        }
    }

    /// `do`
    pub(crate) fn do_loop(&mut self, depth: usize)
        ensures
            final(self)@ == op_do(old(self)@, depth as nat),
        decreases depth, 4nat,
    {
        match self.pop() {
            Some(body) => {
                self.do_rounds(&body, depth);
            },
            None => {},
        }
    }

    /// `while` (with `which` true) and `until` (with `which` false)
    pub(crate) fn while_loop(&mut self, which: bool, depth: usize)
        ensures
            final(self)@ == op_while(old(self)@, which, depth as nat),
        decreases depth, 4nat,
    {
        let (cond, body) = self.pop2();
        self.while_rounds(&cond, &body, which, depth);
    }

    /// `if`
    pub(crate) fn if_word(&mut self, depth: usize)
        ensures
            final(self)@ == op_if(old(self)@, depth as nat),
        decreases depth, 4nat,
    {
        let c = self.pop_or_false();
        let b = self.pop_or_false();
        let a = self.pop_or_false();
        if a.truthy() {
            self.go(b, depth);
        } else {
            self.go(c, depth);
        }
    }

    /// `and`
    pub(crate) fn and_word(&mut self, depth: usize)
        ensures
            final(self)@ == op_and_word(old(self)@, depth as nat),
        decreases depth, 4nat,
    {
        match self.pop() {
            Some(b) => match self.pop() {
                Some(a) => {
                    if a.truthy() {
                        self.go(b, depth);
                    } else {
                        self.go(a, depth);
                    }
                },
                None => {
                    self.go(b, depth);
                },
            },
            None => {
                self.push(Gval::bool(false));
            },
        }
    }

    /// `or`
    pub(crate) fn or_word(&mut self, depth: usize)
        ensures
            final(self)@ == op_or_word(old(self)@, depth as nat),
        decreases depth, 4nat,
    {
        match self.pop() {
            Some(b) => match self.pop() {
                Some(a) => {
                    if a.truthy() {
                        self.go(a, depth);
                    } else {
                        self.go(b, depth);
                    }
                },
                None => {
                    self.go(b, depth);
                },
            },
            None => {
                self.push(Gval::bool(false));
            },
        }
    }

    /// `xor`
    pub(crate) fn xor_word(&mut self, depth: usize)
        ensures
            final(self)@ == op_xor_word(old(self)@, depth as nat),
        decreases depth, 4nat,
    {
        let b = self.pop_or_false();
        let a = self.pop_or_false();
        let ta = a.truthy();
        let tb = b.truthy();
        if ta && !tb {
            self.go(a, depth);
        } else if !ta && tb {
            self.go(b, depth);
        } else {
            self.go(Gval::bool(false), depth);
        }
    }

    /// Does what a built-in symbol does.
    pub(crate) fn run_builtin(&mut self, b: Builtin, depth: usize)
        ensures
            final(self)@ == run_builtin(old(self)@, b, depth as nat),
        decreases depth, 5nat,
    {
        match b {
            Builtin::Tilde => self.tilde(depth),
            Builtin::Backtick => self.backtick(),
            Builtin::Bang => self.bang(),
            Builtin::At => self.at_sign(),
            Builtin::Dollar => self.dollar(depth),
            Builtin::Plus => self.plus(),
            Builtin::Minus => self.minus(),
            Builtin::Asterisk => self.asterisk(depth),
            Builtin::Slash => self.slash(depth),
            Builtin::Percent => self.percent(depth),
            Builtin::Bar => self.vertical_bar(),
            Builtin::Ampersand => self.ampersand(),
            Builtin::Caret => self.caret(),
            Builtin::Open => self.open_bracket(),
            Builtin::Close => self.close_bracket(),
            Builtin::Swap => self.swap(),
            Builtin::Drop => self.drop_top(),
            Builtin::Less => self.lteqgt(Order::Less),
            Builtin::Equal => self.lteqgt(Order::Equal),
            Builtin::Greater => self.lteqgt(Order::Greater),
            Builtin::Comma => self.comma(depth),
            Builtin::Dup => self.dup(),
            Builtin::Question => self.question(depth),
            Builtin::LeftParen => self.left_paren(),
            Builtin::RightParen => self.right_paren(),
            Builtin::And => self.and_word(depth),
            Builtin::Or => self.or_word(depth),
            Builtin::Xor => self.xor_word(depth),
            Builtin::Newline => {
                let mut nl: Vec<u8> = Vec::new();
                nl.push(10u8);
                proof {
                    assert(nl@ =~= seq![10u8]);
                }
                self.push(Gval::Str(nl));
            },
            Builtin::Print => self.print_top(false, false),
            Builtin::P => self.print_top(true, true),
            Builtin::Puts => self.print_top(false, true),
            Builtin::Rand => self.rand(),
            Builtin::Do => self.do_loop(depth),
            Builtin::While => self.while_loop(true, depth),
            Builtin::Until => self.while_loop(false, depth),
            Builtin::If => self.if_word(depth),
            Builtin::Abs => self.abs(),
            Builtin::Zip => self.zip(),
            Builtin::Base => self.base(),
        }
    }

    /// Does what a token does.
    pub(crate) fn run_token(&mut self, token: &Gtoken, depth: usize)
        ensures
            final(self)@ == run_token(old(self)@, token@, depth as nat),
        decreases depth, 6nat,
    {
        match self.lookup(token.lexeme()) {
            Some(v) => {
                self.go(v, depth);
                return ;
            },
            None => {},
        }
        match token {
            Gtoken::IntLiteral(b) => {
                if is_decimal_literal(b) {
                    match big_parse(b.as_slice()) {
                        Some(n) => {
                            self.push(Gval::Int(n));
                        },
                        None => {},
                    }
                }
            },
            Gtoken::SingleQuotedString(b) => {
                self.push(Gval::Str(unescape(b.as_slice(), true)));
            },
            Gtoken::DoubleQuotedString(b) => {
                self.push(Gval::Str(unescape(b.as_slice(), false)));
            },
            Gtoken::Symbol(b) => {
                match lookup_builtin(b) {
                    Some(f) => {
                        self.run_builtin(f, depth);
                    },
                    None => {},
                }
            },
            Gtoken::Block(_, body) => {
                self.push(Gval::Blk(clone_bytes(body)));
            },
            Gtoken::Comment(_) => {},
        }
    }

    /// Runs tokens in turn.
    pub(crate) fn run_tokens(&mut self, toks: &Vec<Gtoken>, depth: usize)
        ensures
            final(self)@ == run_tokens(old(self)@, views(toks@), 0, depth as nat),
        decreases depth, 7nat,
    {
        let mut i: usize = 0;
        while i < toks.len()
            invariant
                i <= toks.len(),
                run_tokens(old(self)@, views(toks@), 0, depth as nat) == run_tokens(
                    self@,
                    views(toks@),
                    i as int,
                    depth as nat,
                ),
            decreases toks.len() - i,
        {
            if is_assign_token(&toks[i]) {
                if i + 1 < toks.len() {
                    self.assign(toks[i + 1].lexeme());
                    i += 2;
                } else {
                    i = toks.len();
                }
            } else {
                self.run_token(&toks[i], depth);
                i += 1;
            }
        }
    }

    /// Runs a program at a given level: its tokens in turn, if all of it is
    /// tokens; if not, it is not run at all.
    pub(crate) fn run_code(&mut self, code: &[u8], depth: usize)
        ensures
            final(self)@ == run_code(old(self)@, code@, depth as nat),
        decreases depth, 8nat,
    {
        let (rest, toks) = parse_code(code);
        if rest.len() > 0 {
            return ;
        }
        self.run_tokens(&toks, depth);
    }

    /// Runs a program.
    pub fn run(&mut self, code: &[u8])
        ensures
            final(self)@ == run(old(self)@, code@),
    {
        let depth = self.max_depth();
        self.run_code(code, depth);
    }
}

/// Whether a token is the assignment symbol `:`.
fn is_assign_token(t: &Gtoken) -> (r: bool)
    ensures
        r == is_assign(t@),
{
    match t {
        Gtoken::Symbol(b) => is1(b, 58),
        _ => false,
    }
}

} // verus!
