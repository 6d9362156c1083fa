//! The inspection of a value reads back as the value: running the
//! inspection of an integer, a string or an array of such as a program
//! pushes that value.

use vstd::prelude::*;
use crate::bigint::{decimal, decimal_digits, all_digits, is_decimal, digits_value, decimal_value};
use crate::value::{Val, inspect, inspect_upto, escaped_upto};
use crate::parse::{
    Tok, Class, is_digit, in_class, run_end, string_end, int_starts, token_end, token_at,
    tokens_from, stop_from, tokens_of, rest_of,
};
use crate::unescape::{unescaped, unescaped_from, escape_at};
use crate::machine::{
    State, Builtin, builtin_of, push, op_open, op_close, run_token, run_tokens, run_code, run,
    is_assign,
};

verus! {

/// A value that is written without blocks: an integer, a string, or an array
/// of such values.
pub open spec fn plain(v: Val) -> bool
    decreases v,
{
    match v {
        Val::Int(_) => true,
        Val::Str(_) => true,
        Val::Arr(xs) => forall|i: int| 0 <= i < xs.len() ==> plain(#[trigger] xs[i]),
        Val::Blk(_) => false,
    }
}

/// Whether the bytes `w` stand in `u` at index `p`.
pub open spec fn stands_at(u: Seq<u8>, p: int, w: Seq<u8>) -> bool {
    0 <= p && p + w.len() <= u.len() && u.subrange(p, p + w.len()) == w
}

/// Whether no digit follows at index `q` of `u`.
pub open spec fn no_digit_at(u: Seq<u8>, q: int) -> bool {
    0 <= q < u.len() ==> !is_digit(u[q])
}

/// The tokens of the inspection of a plain value.
pub open spec fn value_tokens(v: Val) -> Seq<Tok>
    decreases v, 0int,
{
    match v {
        Val::Int(n) => seq![Tok::IntLiteral(decimal(n))],
        Val::Str(b) => seq![Tok::DoubleQuotedString(escaped_upto(b, b.len() as int))],
        Val::Arr(xs) => seq![Tok::Symbol(seq![91u8])] + items_tokens(xs, xs.len() as int) + seq![
            Tok::Symbol(seq![93u8]),
        ],
        Val::Blk(_) => Seq::empty(),
    }
}

/// The tokens of the inspections of the first `n` values, with the token of
/// a space between neighbours.
pub open spec fn items_tokens(xs: Seq<Val>, n: int) -> Seq<Tok>
    decreases xs, n,
{
    if 1 < n <= xs.len() {
        items_tokens(xs, n - 1) + seq![Tok::Symbol(seq![32u8])] + value_tokens(xs[n - 1])
    } else if n == 1 && n <= xs.len() {
        value_tokens(xs[0])
    } else {
        Seq::empty()
    }
}

/// The decimal digits of a number are digits, at least one, and denote the
/// number.
pub proof fn decimal_digits_denote(m: nat)
    ensures
        decimal_digits(m).len() >= 1,
        all_digits(decimal_digits(m)),
        digits_value(decimal_digits(m)) == m,
    decreases m,
{
    if m < 10 {
        let s = decimal_digits(m);
        assert(s.drop_last() =~= Seq::<u8>::empty());
        assert(digits_value(s.drop_last()) == 0);
    } else {
        decimal_digits_denote(m / 10);
        let s = decimal_digits(m);
        let t = decimal_digits(m / 10);
        assert(s.drop_last() =~= t);
        assert forall|i: int| 0 <= i < s.len() implies 48 <= #[trigger] s[i] <= 57 by {
            if i < t.len() {
                assert(s[i] == t[i]);
            }
        }
    }
}

/// The decimal rendering of an integer is a decimal literal that denotes the
/// integer.
pub proof fn decimal_denotes(n: int)
    ensures
        is_decimal(decimal(n)),
        decimal_value(decimal(n)) == n,
        decimal(n).len() >= 1,
        n >= 0 ==> is_digit(decimal(n)[0]),
        n < 0 ==> decimal(n)[0] == 45 && decimal(n).len() >= 2 && is_digit(decimal(n)[1]),
        forall|i: int| 1 <= i < decimal(n).len() ==> is_digit(#[trigger] decimal(n)[i]),
{
    if n < 0 {
        let d = decimal_digits((-n) as nat);
        decimal_digits_denote((-n) as nat);
        let s = decimal(n);
        assert(s.skip(1) =~= d);
        assert(s[1] == d[0]);
        assert forall|i: int| 1 <= i < s.len() implies is_digit(#[trigger] s[i]) by {
            assert(s[i] == d[i - 1]);
        }
    } else {
        decimal_digits_denote(n as nat);
    }
}

/// A run of bytes of one class ends where the first byte of another class
/// stands, or the source ends.
pub proof fn run_end_exact(u: Seq<u8>, i: int, j: int, k: Class)
    requires
        0 <= i <= j <= u.len(),
        forall|t: int| i <= t < j ==> in_class(k, #[trigger] u[t]),
        j < u.len() ==> !in_class(k, u[j]),
    ensures
        run_end(u, i, k) == j,
    decreases j - i,
{
    if i < j {
        run_end_exact(u, i + 1, j, k);
    }
}

/// Where the concatenation of two byte sequences stands, each of them
/// stands in its place.
pub proof fn stands_at_parts(u: Seq<u8>, p: int, a: Seq<u8>, b: Seq<u8>)
    requires
        stands_at(u, p, a + b),
    ensures
        stands_at(u, p, a),
        stands_at(u, p + a.len(), b),
{
    let w = a + b;
    assert forall|k: int| 0 <= k < w.len() implies u[p + k] == #[trigger] w[k] by {
        assert(u.subrange(p, p + w.len())[k] == w[k]);
    }
    assert(u.subrange(p, p + a.len()) =~= a) by {
        assert forall|k: int| 0 <= k < a.len() implies u.subrange(p, p + a.len())[k] == a[k] by {
            assert(w[k] == a[k]);
        }
    }
    assert(u.subrange(p + a.len(), p + a.len() + b.len()) =~= b) by {
        assert forall|k: int| 0 <= k < b.len() implies u.subrange(
            p + a.len(),
            p + a.len() + b.len(),
        )[k] == b[k] by {
            assert(w[a.len() + k] == b[k]);
        }
    }
}

/// The byte at index `k` of what stands at `p`.
pub proof fn stands_at_byte(u: Seq<u8>, p: int, w: Seq<u8>, k: int)
    requires
        stands_at(u, p, w),
        0 <= k < w.len(),
    ensures
        u[p + k] == w[k],
{
    assert(u.subrange(p, p + w.len())[k] == w[k]);
}

/// The inspection of an integer is read as one integer literal.
pub proof fn lex_int(n: int, u: Seq<u8>, p: int)
    requires
        stands_at(u, p, decimal(n)),
        no_digit_at(u, p + decimal(n).len()),
    ensures
        token_end(u, p) == Some(p + decimal(n).len()),
        token_at(u, p, p + decimal(n).len()) == Tok::IntLiteral(decimal(n)),
{
    let w = decimal(n);
    decimal_denotes(n);
    stands_at_byte(u, p, w, 0);
    assert forall|t: int| p + 1 <= t < p + w.len() implies in_class(Class::Digit, #[trigger] u[t]) by {
        stands_at_byte(u, p, w, t - p);
    }
    run_end_exact(u, p + 1, p + w.len(), Class::Digit);
    if n < 0 {
        stands_at_byte(u, p, w, 1);
    }
    assert(int_starts(u, p));
}

/// Whether a byte is written with a backslash before it.
pub open spec fn is_escaped(c: u8) -> bool {
    c == 34 || c == 92
}

/// What one more byte adds to the escaped bytes.
pub proof fn escaped_step(b: Seq<u8>, n: int)
    requires
        0 <= n < b.len(),
    ensures
        is_escaped(b[n]) ==> escaped_upto(b, n + 1) == escaped_upto(b, n) + seq![92u8, b[n]],
        !is_escaped(b[n]) ==> escaped_upto(b, n + 1) == escaped_upto(b, n) + seq![b[n]],
{
    if is_escaped(b[n]) {
        assert(escaped_upto(b, n).push(92u8).push(b[n]) =~= escaped_upto(b, n) + seq![
            92u8,
            b[n],
        ]);
    } else {
        assert(escaped_upto(b, n).push(b[n]) =~= escaped_upto(b, n) + seq![b[n]]);
    }
}

/// The escaped bytes of a prefix are a prefix of the escaped bytes.
pub proof fn escaped_prefix(b: Seq<u8>, n: int, m: int)
    requires
        0 <= n <= m <= b.len(),
    ensures
        escaped_upto(b, n).len() <= escaped_upto(b, m).len(),
        escaped_upto(b, m).subrange(0, escaped_upto(b, n).len() as int) == escaped_upto(b, n),
    decreases m - n,
{
    if n == m {
        assert(escaped_upto(b, m).subrange(0, escaped_upto(b, n).len() as int) =~= escaped_upto(
            b,
            n,
        ));
    } else {
        escaped_prefix(b, n, m - 1);
        escaped_step(b, m - 1);
        let shorter = escaped_upto(b, m - 1);
        let longer = escaped_upto(b, m);
        let k = escaped_upto(b, n).len() as int;
        assert(longer.subrange(0, k) =~= shorter.subrange(0, k));
    }
}

/// The bytes that stand for byte `n` in the escaped bytes of `b`.
pub proof fn escaped_bytes_at(b: Seq<u8>, n: int)
    requires
        0 <= n < b.len(),
    ensures
        ({
            let e = escaped_upto(b, b.len() as int);
            let i = escaped_upto(b, n).len() as int;
            &&& escaped_upto(b, n + 1).len() <= e.len()
            &&& is_escaped(b[n]) ==> escaped_upto(b, n + 1).len() == i + 2 && e[i] == 92 && e[i
                + 1] == b[n]
            &&& !is_escaped(b[n]) ==> escaped_upto(b, n + 1).len() == i + 1 && e[i] == b[n]
        }),
{
    let e = escaped_upto(b, b.len() as int);
    let i = escaped_upto(b, n).len() as int;
    let next = escaped_upto(b, n + 1);
    escaped_step(b, n);
    escaped_prefix(b, n + 1, b.len() as int);
    assert(e.subrange(0, next.len() as int)[i] == next[i]);
    if is_escaped(b[n]) {
        assert(e.subrange(0, next.len() as int)[i + 1] == next[i + 1]);
    }
}

/// In the inspection of a string, the scan for the closing quote, started
/// where byte `n` is written, ends at the closing quote.
pub proof fn closing_quote_found(b: Seq<u8>, u: Seq<u8>, q: int, n: int)
    requires
        0 <= n <= b.len(),
        stands_at(u, q, escaped_upto(b, b.len() as int)),
        q + escaped_upto(b, b.len() as int).len() < u.len(),
        u[q + escaped_upto(b, b.len() as int).len()] == 34,
    ensures
        string_end(u, q + escaped_upto(b, n).len(), 34) == Some(
            q + escaped_upto(b, b.len() as int).len(),
        ),
    decreases b.len() - n,
{
    let e = escaped_upto(b, b.len() as int);
    let i = q + escaped_upto(b, n).len();
    if n < b.len() {
        escaped_bytes_at(b, n);
        closing_quote_found(b, u, q, n + 1);
        stands_at_byte(u, q, e, i - q);
        if is_escaped(b[n]) {
            stands_at_byte(u, q, e, i - q + 1);
        }
    }
}

/// The escaped bytes of a string, decoded from where byte `n` is written,
/// are the string from byte `n` on.
pub proof fn unescape_undoes_escape_from(b: Seq<u8>, n: int)
    requires
        0 <= n <= b.len(),
    ensures
        unescaped_from(
            escaped_upto(b, b.len() as int),
            escaped_upto(b, n).len() as int,
            false,
        ) == b.skip(n),
    decreases b.len() - n,
{
    let e = escaped_upto(b, b.len() as int);
    let i = escaped_upto(b, n).len() as int;
    if n < b.len() {
        escaped_bytes_at(b, n);
        unescape_undoes_escape_from(b, n + 1);
        assert(seq![b[n]] + b.skip(n + 1) =~= b.skip(n));
        if is_escaped(b[n]) {
            assert(escape_at(e, i, false) == (seq![b[n]], i + 2));
        }
    } else {
        assert(b.skip(n) =~= Seq::<u8>::empty());
    }
}

/// Decoding undoes escaping.
pub proof fn unescape_undoes_escape(b: Seq<u8>)
    ensures
        unescaped(escaped_upto(b, b.len() as int), false) == b,
{
    unescape_undoes_escape_from(b, 0);
    assert(b.skip(0) =~= b);
}

/// The inspection of a string is read as one double-quoted string.
pub proof fn lex_str(b: Seq<u8>, u: Seq<u8>, p: int)
    requires
        stands_at(u, p, inspect(Val::Str(b))),
    ensures
        token_end(u, p) == Some(p + inspect(Val::Str(b)).len()),
        token_at(u, p, p + inspect(Val::Str(b)).len()) == Tok::DoubleQuotedString(
            escaped_upto(b, b.len() as int),
        ),
{
    let e = escaped_upto(b, b.len() as int);
    let w = inspect(Val::Str(b));
    assert(w == (seq![34u8] + e) + seq![34u8]);
    stands_at_parts(u, p, seq![34u8] + e, seq![34u8]);
    stands_at_parts(u, p, seq![34u8], e);
    stands_at_byte(u, p, w, 0);
    stands_at_byte(u, p, w, w.len() - 1);
    closing_quote_found(b, u, p + 1, 0);
}

/// A bracket or a space is read as a symbol of its own.
pub proof fn lex_symbol(u: Seq<u8>, p: int, c: u8)
    requires
        0 <= p < u.len(),
        u[p] == c,
        c == 91 || c == 93 || c == 32,
    ensures
        token_end(u, p) == Some(p + 1),
        token_at(u, p, p + 1) == Tok::Symbol(seq![c]),
{
    assert(u.subrange(p, p + 1) =~= seq![c]);
}

/// Reading a token: the tokens from its start are the token and the tokens
/// from its end.
pub proof fn tokens_from_step(u: Seq<u8>, p: int, j: int)
    requires
        token_end(u, p) == Some(j),
        p < j <= u.len(),
    ensures
        tokens_from(u, p) == seq![token_at(u, p, j)] + tokens_from(u, j),
        stop_from(u, p) == stop_from(u, j),
{
}

/// The inspection of a plain value is read as the value's tokens, and
/// reading goes on behind it.
pub proof fn lex_value(v: Val, u: Seq<u8>, p: int)
    requires
        plain(v),
        stands_at(u, p, inspect(v)),
        no_digit_at(u, p + inspect(v).len()),
    ensures
        tokens_from(u, p) == value_tokens(v) + tokens_from(u, p + inspect(v).len()),
        stop_from(u, p) == stop_from(u, p + inspect(v).len()),
    decreases v, 0int,
{
    let q = p + inspect(v).len();
    match v {
        Val::Int(n) => {
            decimal_denotes(n);
            lex_int(n, u, p);
            tokens_from_step(u, p, q);
        },
        Val::Str(b) => {
            lex_str(b, u, p);
            tokens_from_step(u, p, q);
        },
        Val::Arr(xs) => {
            let inner = inspect_upto(xs, xs.len() as int);
            let w = inspect(v);
            assert(w == (seq![91u8] + inner) + seq![93u8]);
            stands_at_parts(u, p, seq![91u8] + inner, seq![93u8]);
            stands_at_parts(u, p, seq![91u8], inner);
            stands_at_byte(u, p, w, 0);
            stands_at_byte(u, p, w, w.len() - 1);
            lex_symbol(u, p, 91);
            tokens_from_step(u, p, p + 1);
            lex_items(xs, xs.len() as int, u, p + 1);
            lex_symbol(u, q - 1, 93);
            tokens_from_step(u, q - 1, q);
            assert(seq![Tok::Symbol(seq![91u8])] + (items_tokens(xs, xs.len() as int) + (seq![
                Tok::Symbol(seq![93u8]),
            ] + tokens_from(u, q))) =~= value_tokens(v) + tokens_from(u, q));
        },
        Val::Blk(_) => {},
    }
}

/// The inspections of the first `n` of some plain values, with spaces
/// between them, are read as their tokens, and reading goes on behind them.
pub proof fn lex_items(xs: Seq<Val>, n: int, u: Seq<u8>, p: int)
    requires
        forall|i: int| 0 <= i < xs.len() ==> plain(#[trigger] xs[i]),
        0 <= n <= xs.len(),
        stands_at(u, p, inspect_upto(xs, n)),
        no_digit_at(u, p + inspect_upto(xs, n).len()),
    ensures
        tokens_from(u, p) == items_tokens(xs, n) + tokens_from(u, p + inspect_upto(xs, n).len()),
        stop_from(u, p) == stop_from(u, p + inspect_upto(xs, n).len()),
    decreases xs, n,
{
    let q = p + inspect_upto(xs, n).len();
    if n == 0 {
        assert(items_tokens(xs, n) + tokens_from(u, q) =~= tokens_from(u, q));
    } else if n == 1 {
        lex_value(xs[0], u, p);
    } else {
        let before = inspect_upto(xs, n - 1);
        let last = inspect(xs[n - 1]);
        assert(inspect_upto(xs, n) == (before + seq![32u8]) + last);
        stands_at_parts(u, p, before + seq![32u8], last);
        stands_at_parts(u, p, before, seq![32u8]);
        let gap = p + before.len();
        stands_at_byte(u, gap, seq![32u8], 0);
        lex_items(xs, n - 1, u, p);
        lex_symbol(u, gap, 32);
        tokens_from_step(u, gap, gap + 1);
        lex_value(xs[n - 1], u, gap + 1);
        assert(items_tokens(xs, n - 1) + (seq![Tok::Symbol(seq![32u8])] + (value_tokens(xs[n - 1])
            + tokens_from(u, q))) =~= items_tokens(xs, n) + tokens_from(u, q));
    }
}

/// Running tokens from behind a prefix is running what follows the prefix.
pub proof fn run_tokens_behind_prefix(s: State, a: Seq<Tok>, b: Seq<Tok>, k: int, d: nat)
    requires
        0 <= k <= b.len(),
    ensures
        run_tokens(s, a + b, a.len() + k, d) == run_tokens(s, b, k, d),
    decreases b.len() - k,
{
    let toks = a + b;
    if k < b.len() {
        assert(toks[a.len() + k] == b[k]);
        if is_assign(b[k]) {
            if k + 1 < b.len() {
                assert(toks[a.len() + k + 1] == b[k + 1]);
                run_tokens_behind_prefix(
                    crate::machine::assign(s, crate::parse::lexeme(b[k + 1])),
                    a,
                    b,
                    k + 2,
                    d,
                );
            }
        } else {
            run_tokens_behind_prefix(run_token(s, b[k], d), a, b, k + 1, d);
        }
    }
}

/// Running tokens that start with a token other than `:` is running that
/// token, then the rest.
pub proof fn run_first(s: State, t: Tok, rest: Seq<Tok>, d: nat)
    requires
        !is_assign(t),
    ensures
        run_tokens(s, seq![t] + rest, 0, d) == run_tokens(run_token(s, t, d), rest, 0, d),
{
    let toks = seq![t] + rest;
    assert(toks[0] == t);
    run_tokens_behind_prefix(run_token(s, t, d), seq![t], rest, 0, d);
}

/// Whether no variable is bound.
pub open spec fn nothing_bound(s: State) -> bool {
    forall|k: Seq<u8>| !s.vars.contains_key(k)
}

/// What the tokens of brackets and spaces are and do.
pub proof fn bracket_and_space_symbols()
    ensures
        builtin_of(seq![91u8]) == Some(Builtin::Open),
        builtin_of(seq![93u8]) == Some(Builtin::Close),
        builtin_of(seq![32u8]) is None,
        !is_assign(Tok::Symbol(seq![91u8])),
        !is_assign(Tok::Symbol(seq![93u8])),
        !is_assign(Tok::Symbol(seq![32u8])),
{
    let open = seq![91u8];
    let close = seq![93u8];
    let space = seq![32u8];
    assert(open[0] == 91u8 && close[0] == 93u8 && space[0] == 32u8);
    assert(forall|c: u8| c != 91u8 ==> (#[trigger] seq![c])[0] != open[0]);
    assert(forall|c: u8| c != 93u8 ==> (#[trigger] seq![c])[0] != close[0]);
    assert(forall|c: u8| c != 32u8 ==> (#[trigger] seq![c])[0] != space[0]);
}

/// Running the tokens of a plain value pushes the value, as long as no
/// variable is bound.
pub proof fn eval_value(v: Val, s: State, rest: Seq<Tok>, d: nat)
    requires
        plain(v),
        nothing_bound(s),
    ensures
        run_tokens(s, value_tokens(v) + rest, 0, d) == run_tokens(push(s, v), rest, 0, d),
    decreases v, 0int,
{
    match v {
        Val::Int(n) => {
            decimal_denotes(n);
            run_first(s, Tok::IntLiteral(decimal(n)), rest, d);
        },
        Val::Str(b) => {
            unescape_undoes_escape(b);
            run_first(s, Tok::DoubleQuotedString(escaped_upto(b, b.len() as int)), rest, d);
        },
        Val::Arr(xs) => {
            bracket_and_space_symbols();
            let open = Tok::Symbol(seq![91u8]);
            let close = Tok::Symbol(seq![93u8]);
            let items = items_tokens(xs, xs.len() as int);
            assert(value_tokens(v) + rest =~= seq![open] + (items + (seq![close] + rest)));
            run_first(s, open, items + (seq![close] + rest), d);
            let s1 = op_open(s);
            assert(run_token(s, open, d) == s1);
            eval_items(xs, xs.len() as int, s1, seq![close] + rest, d);
            let s2 = State { stack: s1.stack + xs.take(xs.len() as int), ..s1 };
            run_first(s2, close, rest, d);
            assert(run_token(s2, close, d) == op_close(s2));
            assert(xs.take(xs.len() as int) =~= xs);
            assert(s2.lb.drop_last() =~= s.lb);
            assert(s2.stack.take(s.stack.len() as int) =~= s.stack);
            assert(s2.stack.skip(s.stack.len() as int) =~= xs);
            assert(op_close(s2) == push(s, v));
        },
        Val::Blk(_) => {},
    }
}

/// Running the tokens of the first `n` of some plain values pushes those
/// values, as long as no variable is bound.
pub proof fn eval_items(xs: Seq<Val>, n: int, s: State, rest: Seq<Tok>, d: nat)
    requires
        forall|i: int| 0 <= i < xs.len() ==> plain(#[trigger] xs[i]),
        0 <= n <= xs.len(),
        nothing_bound(s),
    ensures
        run_tokens(s, items_tokens(xs, n) + rest, 0, d) == run_tokens(
            State { stack: s.stack + xs.take(n), ..s },
            rest,
            0,
            d,
        ),
    decreases xs, n,
{
    if n == 0 {
        assert(items_tokens(xs, n) + rest =~= rest);
        assert(s.stack + xs.take(0) =~= s.stack);
    } else if n == 1 {
        eval_value(xs[0], s, rest, d);
        assert(s.stack + xs.take(1) =~= s.stack.push(xs[0]));
    } else {
        bracket_and_space_symbols();
        let space = Tok::Symbol(seq![32u8]);
        let last = value_tokens(xs[n - 1]);
        assert(items_tokens(xs, n) + rest =~= items_tokens(xs, n - 1) + (seq![space] + (last
            + rest)));
        eval_items(xs, n - 1, s, seq![space] + (last + rest), d);
        let s1 = State { stack: s.stack + xs.take(n - 1), ..s };
        run_first(s1, space, last + rest, d);
        assert(run_token(s1, space, d) == s1);
        eval_value(xs[n - 1], s1, rest, d);
        assert(s1.stack.push(xs[n - 1]) =~= s.stack + xs.take(n));
    }
}

/// The inspection of a plain value is all tokens, and they are the value's.
pub proof fn inspection_is_all_tokens(v: Val)
    requires
        plain(v),
    ensures
        tokens_of(inspect(v)) == value_tokens(v),
        rest_of(inspect(v)) == Seq::<u8>::empty(),
{
    let u = inspect(v);
    assert(u.subrange(0, u.len() as int) =~= u);
    lex_value(v, u, 0);
    assert(value_tokens(v) + Seq::<Tok>::empty() =~= value_tokens(v));
    assert(u.skip(u.len() as int) =~= Seq::<u8>::empty());
}

/// The inspection of a value reads back as the value: run as a program in a
/// state in which no variable is bound, the inspection of an integer, a
/// string or an array of such pushes that value and does nothing else.
pub proof fn inspect_round_trip(s: State, v: Val, d: nat)
    requires
        plain(v),
        nothing_bound(s),
    ensures
        run_code(s, inspect(v), d) == push(s, v),
        run(s, inspect(v)) == push(s, v),
{
    inspection_is_all_tokens(v);
    eval_value(v, s, Seq::empty(), d);
    eval_value(v, s, Seq::empty(), s.max_depth as nat);
    assert(value_tokens(v) + Seq::<Tok>::empty() =~= value_tokens(v));
}

} // verus!
