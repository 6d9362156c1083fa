//! The tokenizer: source bytes to tokens.
//!
//! A program is a run of tokens with nothing between them; white space is a
//! token like any other symbol.  Reading stops at the first place where no
//! token can be read (an unterminated string or block, a closing brace
//! without an opening one), and what is left is handed back.

use vstd::prelude::*;
use crate::value::views;
use crate::util::lemma_views_push;

verus! {

/// The mathematical view of a token.
pub enum Tok {
    /// An optionally signed decimal literal.
    IntLiteral(Seq<u8>),
    /// The bytes between single quotes, escapes still encoded.
    SingleQuotedString(Seq<u8>),
    /// The bytes between double quotes, escapes still encoded.
    DoubleQuotedString(Seq<u8>),
    /// An identifier, or any single byte that starts no other token.
    Symbol(Seq<u8>),
    /// A block: its lexeme with the braces, and the source between them.
    Block(Seq<u8>, Seq<u8>),
    /// A comment, from `#` to the end of the line.
    Comment(Seq<u8>),
}

/// A token.
#[derive(Debug)]
pub enum Gtoken {
    /// An optionally signed decimal literal.
    IntLiteral(Vec<u8>),
    /// The bytes between single quotes, escapes still encoded.
    SingleQuotedString(Vec<u8>),
    /// The bytes between double quotes, escapes still encoded.
    DoubleQuotedString(Vec<u8>),
    /// An identifier, or any single byte that starts no other token.
    Symbol(Vec<u8>),
    /// A block: its lexeme with the braces, and the source between them.
    Block(Vec<u8>, Vec<u8>),
    /// A comment, from `#` to the end of the line.
    Comment(Vec<u8>),
}

impl View for Gtoken {
    type V = Tok;

    open spec fn view(&self) -> Tok {
        match self {
            Gtoken::IntLiteral(b) => Tok::IntLiteral(b@),
            Gtoken::SingleQuotedString(b) => Tok::SingleQuotedString(b@),
            Gtoken::DoubleQuotedString(b) => Tok::DoubleQuotedString(b@),
            Gtoken::Symbol(b) => Tok::Symbol(b@),
            Gtoken::Block(l, b) => Tok::Block(l@, b@),
            Gtoken::Comment(b) => Tok::Comment(b@),
        }
    }
}

/// The bytes by which a token is looked up as a name.
pub open spec fn lexeme(t: Tok) -> Seq<u8> {
    match t {
        Tok::IntLiteral(b) => b,
        Tok::SingleQuotedString(b) => b,
        Tok::DoubleQuotedString(b) => b,
        Tok::Symbol(b) => b,
        Tok::Block(l, _) => l,
        Tok::Comment(b) => b,
    }
}

impl Gtoken {
    /// The bytes by which the token is looked up as a name.
    pub fn lexeme(&self) -> (r: &Vec<u8>)
        ensures
            r@ == lexeme(self@),
    {
        match self {
            Gtoken::IntLiteral(b) => b,
            Gtoken::SingleQuotedString(b) => b,
            Gtoken::DoubleQuotedString(b) => b,
            Gtoken::Symbol(b) => b,
            Gtoken::Block(l, _) => l,
            Gtoken::Comment(b) => b,
        }
    }
}

/// An ASCII decimal digit.
pub open spec fn is_digit(c: u8) -> bool {
    48 <= c <= 57
}

/// A byte that may start an identifier: a letter or an underscore.
pub open spec fn is_ident_start(c: u8) -> bool {
    (65 <= c <= 90) || (97 <= c <= 122) || c == 95
}

/// A byte that may continue an identifier.
pub open spec fn is_ident_rest(c: u8) -> bool {
    is_ident_start(c) || is_digit(c)
}

/// The classes of bytes that tokens are made of runs of.
#[derive(Clone, Copy)]
pub enum Class {
    Digit,
    Ident,
    Line,
}

/// Whether a byte belongs to a class (`Line`: anything but a line feed).
pub open spec fn in_class(k: Class, c: u8) -> bool {
    match k {
        Class::Digit => is_digit(c),
        Class::Ident => is_ident_rest(c),
        Class::Line => c != 10,
    }
}

/// The end of the longest run of bytes of class `k` that starts at `i`.
pub open spec fn run_end(s: Seq<u8>, i: int, k: Class) -> int
    decreases s.len() - i,
{
    if 0 <= i < s.len() && in_class(k, s[i]) {
        run_end(s, i + 1, k)
    } else {
        i
    }
}

/// The index of the quote `q` that closes a string whose contents start at
/// `i`; a backslash takes the byte behind it along.  `None` when the string is
/// not closed.
pub open spec fn string_end(s: Seq<u8>, i: int, q: u8) -> Option<int>
    decreases s.len() - i,
{
    if i < 0 || i >= s.len() {
        None
    } else if s[i] == q {
        Some(i)
    } else if s[i] == 92 {
        if i + 1 < s.len() {
            string_end(s, i + 2, q)
        } else {
            None
        }
    } else {
        string_end(s, i + 1, q)
    }
}

/// Whether an integer literal starts at `i`.
pub open spec fn int_starts(s: Seq<u8>, i: int) -> bool {
    0 <= i < s.len() && (is_digit(s[i]) || (s[i] == 45 && i + 1 < s.len() && is_digit(s[i + 1])))
}

/// The end of the token without braces that starts at `i`, if one does:
/// a comment, a string, an integer literal, an identifier or a single byte.
pub open spec fn flat_end(s: Seq<u8>, i: int) -> Option<int> {
    if i < 0 || i >= s.len() || s[i] == 123 || s[i] == 125 {
        None
    } else if s[i] == 35 {
        Some(run_end(s, i + 1, Class::Line))
    } else if s[i] == 39 || s[i] == 34 {
        match string_end(s, i + 1, s[i]) {
            Some(j) => Some(j + 1),
            None => None,
        }
    } else if int_starts(s, i) {
        Some(run_end(s, i + 1, Class::Digit))
    } else if is_ident_start(s[i]) {
        Some(run_end(s, i + 1, Class::Ident))
    } else {
        Some(i + 1)
    }
}

/// The token without braces that starts at `i` and ends at `j`.
pub open spec fn flat_token(s: Seq<u8>, i: int, j: int) -> Tok {
    if s[i] == 35 {
        Tok::Comment(s.subrange(i, j))
    } else if s[i] == 39 {
        Tok::SingleQuotedString(s.subrange(i + 1, j - 1))
    } else if s[i] == 34 {
        Tok::DoubleQuotedString(s.subrange(i + 1, j - 1))
    } else if int_starts(s, i) {
        Tok::IntLiteral(s.subrange(i, j))
    } else {
        Tok::Symbol(s.subrange(i, j))
    }
}

/// The index just behind the brace that closes `depth` open blocks, for a
/// scan that stands at `i`.  `None` when the blocks are not closed.
pub open spec fn block_end(s: Seq<u8>, i: int, depth: int) -> Option<int>
    decreases s.len() - i,
{
    if i < 0 || i >= s.len() || depth <= 0 {
        None
    } else if s[i] == 123 {
        block_end(s, i + 1, depth + 1)
    } else if s[i] == 125 {
        if depth == 1 {
            Some(i + 1)
        } else {
            block_end(s, i + 1, depth - 1)
        }
    } else {
        match flat_end(s, i) {
            Some(j) => if i < j <= s.len() {
                block_end(s, j, depth)
            } else {
                None
            },
            None => None,
        }
    }
}

/// The end of the token that starts at `i`, if one does.
pub open spec fn token_end(s: Seq<u8>, i: int) -> Option<int> {
    if 0 <= i < s.len() && s[i] == 123 {
        block_end(s, i + 1, 1)
    } else {
        flat_end(s, i)
    }
}

/// The token that starts at `i` and ends at `j`.
pub open spec fn token_at(s: Seq<u8>, i: int, j: int) -> Tok {
    if s[i] == 123 {
        Tok::Block(s.subrange(i, j), s.subrange(i + 1, j - 1))
    } else {
        flat_token(s, i, j)
    }
}

/// The tokens of `s` from `i` on, up to where reading stops.
pub open spec fn tokens_from(s: Seq<u8>, i: int) -> Seq<Tok>
    decreases s.len() - i,
{
    match token_end(s, i) {
        Some(j) => if i < j <= s.len() {
            seq![token_at(s, i, j)] + tokens_from(s, j)
        } else {
            Seq::empty()
        },
        None => Seq::empty(),
    }
}

/// Where reading stops for a scan of `s` that starts at `i`.
pub open spec fn stop_from(s: Seq<u8>, i: int) -> int
    decreases s.len() - i,
{
    match token_end(s, i) {
        Some(j) => if i < j <= s.len() {
            stop_from(s, j)
        } else {
            i
        },
        None => i,
    }
}

/// The tokens of a program.
pub open spec fn tokens_of(s: Seq<u8>) -> Seq<Tok> {
    tokens_from(s, 0)
}

/// What is left of a program where reading stopped; empty when all of it is
/// tokens.
pub open spec fn rest_of(s: Seq<u8>) -> Seq<u8> {
    s.skip(stop_from(s, 0))
}

/// Whether a byte belongs to a class.
fn byte_in_class(k: Class, c: u8) -> (r: bool)
    ensures
        r == in_class(k, c),
{
    match k {
        Class::Digit => 48 <= c && c <= 57,
        Class::Ident => (65 <= c && c <= 90) || (97 <= c && c <= 122) || c == 95 || (48 <= c
            && c <= 57),
        Class::Line => c != 10,
    }
}

/// The end of the longest run of bytes of a class.
fn scan_run(s: &[u8], i: usize, k: Class) -> (j: usize)
    requires
        i <= s.len(),
    ensures
        j == run_end(s@, i as int, k),
        i <= j <= s.len(),
{
    let mut j: usize = i;
    while j < s.len() && byte_in_class(k, s[j])
        invariant
            i <= j <= s.len(),
            run_end(s@, i as int, k) == run_end(s@, j as int, k),
        decreases s.len() - j,
    {
        j += 1;
    }
    j
}

/// The index of the quote that closes a string.
fn scan_string(s: &[u8], i: usize, q: u8) -> (r: Option<usize>)
    requires
        i <= s.len(),
    ensures
        r matches Some(j) ==> string_end(s@, i as int, q) == Some(j as int) && i <= j < s.len(),
        r is None ==> string_end(s@, i as int, q) is None,
{
    let mut j: usize = i;
    while j < s.len()
        invariant
            i <= j <= s.len(),
            string_end(s@, i as int, q) == string_end(s@, j as int, q),
        decreases s.len() - j,
    {
        if s[j] == q {
            return Some(j);
        } else if s[j] == 92 {
            if j + 1 < s.len() {
                j += 2;
            } else {
                return None;
            }
        } else {
            j += 1;
        }
    }
    None
}

/// The end of the token without braces that starts at `i`.
fn scan_flat(s: &[u8], i: usize) -> (r: Option<usize>)
    requires
        i < s.len(),
    ensures
        r matches Some(j) ==> flat_end(s@, i as int) == Some(j as int) && i < j <= s.len(),
        r matches Some(j) ==> (s@[i as int] == 39 || s@[i as int] == 34) ==> i + 2 <= j,
        r is None ==> flat_end(s@, i as int) is None,
{
    let c = s[i];
    if c == 123 || c == 125 {
        None
    } else if c == 35 {
        Some(scan_run(s, i + 1, Class::Line))
    } else if c == 39 || c == 34 {
        match scan_string(s, i + 1, c) {
            Some(j) => Some(j + 1),
            None => None,
        }
    } else if (48 <= c && c <= 57) || (c == 45 && i + 1 < s.len() && 48 <= s[i + 1] && s[i + 1]
        <= 57) {
        Some(scan_run(s, i + 1, Class::Digit))
    } else if (65 <= c && c <= 90) || (97 <= c && c <= 122) || c == 95 {
        Some(scan_run(s, i + 1, Class::Ident))
    } else {
        Some(i + 1)
    }
}

/// The index just behind the brace that closes the block whose contents
/// start at `i`.
fn scan_block(s: &[u8], i: usize) -> (r: Option<usize>)
    requires
        1 <= i <= s.len(),
    ensures
        r matches Some(j) ==> block_end(s@, i as int, 1) == Some(j as int) && i < j <= s.len(),
        r is None ==> block_end(s@, i as int, 1) is None,
{
    let mut j: usize = i;
    let mut depth: usize = 1;
    while j < s.len()
        invariant
            1 <= i <= j <= s.len(),
            1 <= depth <= 1 + j - i,
            block_end(s@, i as int, 1) == block_end(s@, j as int, depth as int),
        decreases s.len() - j,
    {
        if s[j] == 123 {
            depth += 1;
            j += 1;
        } else if s[j] == 125 {
            if depth == 1 {
                return Some(j + 1);
            }
            depth -= 1;
            j += 1;
        } else {
            match scan_flat(s, j) {
                Some(e) => {
                    j = e;
                },
                None => {
                    return None;
                },
            }
        }
    }
    None
}

/// Copies the bytes of `s` from `lo` up to `hi`.
pub fn copy_bytes(s: &[u8], lo: usize, hi: usize) -> (r: Vec<u8>)
    requires
        lo <= hi <= s.len(),
    ensures
        r@ == s@.subrange(lo as int, hi as int),
{
    let mut r: Vec<u8> = Vec::new();
    let mut i: usize = lo;
    while i < hi
        invariant
            lo <= i <= hi <= s.len(),
            r@ == s@.subrange(lo as int, i as int),
        decreases hi - i,
    {
        r.push(s[i]);
        proof {
            assert(s@.subrange(lo as int, i + 1) =~= s@.subrange(lo as int, i as int).push(
                s@[i as int],
            ));
        }
        i += 1;
    }
    r
}

/// Reads the tokens of `code`.  Returns what is left where reading stopped
/// (empty when all of `code` is tokens) and the tokens read up to there.
pub fn parse_code(code: &[u8]) -> (r: (Vec<u8>, Vec<Gtoken>))
    ensures
        r.0@ == rest_of(code@),
        views(r.1@) == tokens_of(code@),
{
    let mut toks: Vec<Gtoken> = Vec::new();
    let mut i: usize = 0;
    proof {
        assert(views(toks@) + tokens_from(code@, 0) =~= tokens_of(code@));
    }
    while i < code.len()
        invariant
            i <= code.len(),
            views(toks@) + tokens_from(code@, i as int) == tokens_of(code@),
            stop_from(code@, i as int) == stop_from(code@, 0),
        decreases code.len() - i,
    {
        let c = code[i];
        let end = if c == 123 {
            scan_block(code, i + 1)
        } else {
            scan_flat(code, i)
        };
        match end {
            None => {
                let rest = copy_bytes(code, i, code.len());
                proof {
                    assert(tokens_from(code@, i as int) =~= Seq::<Tok>::empty());
                    assert(views(toks@) + Seq::<Tok>::empty() =~= views(toks@));
                    assert(code@.subrange(i as int, code.len() as int) =~= code@.skip(i as int));
                }
                return (rest, toks);
            },
            Some(j) => {
                let t = if c == 123 {
                    Gtoken::Block(copy_bytes(code, i, j), copy_bytes(code, i + 1, j - 1))
                } else if c == 35 {
                    Gtoken::Comment(copy_bytes(code, i, j))
                } else if c == 39 {
                    Gtoken::SingleQuotedString(copy_bytes(code, i + 1, j - 1))
                } else if c == 34 {
                    Gtoken::DoubleQuotedString(copy_bytes(code, i + 1, j - 1))
                } else if (48 <= c && c <= 57) || (c == 45 && i + 1 < code.len() && 48 <= code[i
                    + 1] && code[i + 1] <= 57) {
                    Gtoken::IntLiteral(copy_bytes(code, i, j))
                } else {
                    Gtoken::Symbol(copy_bytes(code, i, j))
                };
                proof {
                    assert(t@ == token_at(code@, i as int, j as int));
                    lemma_views_push(toks@, t);
                    assert(views(toks@).push(t@) + tokens_from(code@, j as int) =~= views(toks@)
                        + tokens_from(code@, i as int));
                }
                toks.push(t);
                i = j;
            },
        }
    }
    let rest: Vec<u8> = Vec::new();
    proof {
        assert(tokens_from(code@, i as int) =~= Seq::<Tok>::empty());
        assert(views(toks@) + Seq::<Tok>::empty() =~= views(toks@));
        assert(rest@ =~= code@.skip(i as int));
    }
    (rest, toks)
}

} // verus!
