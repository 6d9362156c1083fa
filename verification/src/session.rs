//! Entry points: a whole program run in the sandbox, and the strict run that
//! reports what the sandbox repairs.

use vstd::prelude::*;
use vstd::utf8::encode_utf8;
use crate::value::{Gval, Val, views, group_views, clone_bytes};
use crate::parse::{Gtoken, Tok, lexeme, tokens_of, rest_of, parse_code, copy_bytes};
use crate::interp::Gs;
use crate::machine::{State, initial, push, assign, is_assign, run, run_token, SANDBOX_MAX_LOOPS};

verus! {

broadcast use group_views;

/// Why a strict run stopped.
#[derive(Clone, Copy, Debug, PartialEq, Eq, Structural)]
pub enum GsError {
    /// The source is not all tokens, or ends in `:` without a name.
    ParseIncomplete,
    /// `:` found the stack empty.
    StackUnderflow,
}

/// The tokens from index `i` on are run in turn, strictly: `:` without a name
/// behind it, or with nothing on the stack, stops the run with an error, and
/// the state stays as it is at that point.
pub open spec fn step_tokens(s: State, toks: Seq<Tok>, i: int, depth: nat) -> (State, Option<
    GsError,
>)
    decreases toks.len() - i,
{
    if i < 0 || i >= toks.len() {
        (s, None)
    } else if is_assign(toks[i]) {
        if i + 1 >= toks.len() {
            (s, Some(GsError::ParseIncomplete))
        } else if s.stack.len() == 0 {
            (s, Some(GsError::StackUnderflow))
        } else {
            step_tokens(assign(s, lexeme(toks[i + 1])), toks, i + 2, depth)
        }
    } else {
        step_tokens(run_token(s, toks[i], depth), toks, i + 1, depth)
    }
}

/// A strict run of a program: a source that is not all tokens is an error and
/// nothing of it is run.
pub open spec fn stepped(s: State, code: Seq<u8>) -> (State, Option<GsError>) {
    if rest_of(code).len() > 0 {
        (s, Some(GsError::ParseIncomplete))
    } else {
        step_tokens(s, tokens_of(code), 0, s.max_depth as nat)
    }
}

/// The state in which the sandbox starts a program: the input on the stack as
/// a string, loops capped.
pub open spec fn sandbox_start(input: Seq<u8>) -> State {
    push(State { max_loops: SANDBOX_MAX_LOOPS, ..initial() }, Val::Str(input))
}

/// What a program prints in the sandbox: its own output, then the final
/// stack, as one array, printed by `puts`.
pub open spec fn sandbox_output(input: Seq<u8>, source: Seq<u8>) -> Seq<u8> {
    let s1 = run(sandbox_start(input), source);
    let s2 = State { stack: seq![Val::Arr(s1.stack)], ..s1 };
    run(s2, seq![112u8, 117u8, 116u8, 115u8]).output
}

/// The text that bytes decode to as UTF-8, each malformed sequence replaced
/// by U+FFFD.
pub uninterp spec fn utf8_lossy(bytes: Seq<u8>) -> Seq<char>;

/// `String::from_utf8_lossy`, made an owned string: the lossy decoding of the
/// bytes.
#[verifier::external_body]
fn lossy_string(bytes: &Vec<u8>) -> (r: String)
    ensures
        r@ == utf8_lossy(bytes@),
{
    String::from_utf8_lossy(bytes).into_owned()
}

impl Gs {
    /// Runs a program strictly.  Where the sandbox would pass over a fault of
    /// the source or of an assignment, the run stops there with an error.
    #[verifier::loop_isolation(false)]
    pub fn stepped(&mut self, code: &[u8]) -> (r: Result<(), GsError>)
        ensures
            final(self)@ == stepped(old(self)@, code@).0,
            r is Ok <==> stepped(old(self)@, code@).1 is None,
            r matches Err(e) ==> stepped(old(self)@, code@).1 == Some(e),
    {
        let (rest, toks) = parse_code(code);
        if rest.len() > 0 {
            return Err(GsError::ParseIncomplete);
        }
        let depth = self.max_depth();
        let mut i: usize = 0;
        while i < toks.len()
            invariant
                i <= toks.len(),
                depth == old(self)@.max_depth,
                step_tokens(old(self)@, views(toks@), 0, depth as nat) == step_tokens(
                    self@,
                    views(toks@),
                    i as int,
                    depth as nat,
                ),
            decreases toks.len() - i,
        {
            if is_assign_symbol(&toks[i]) {
                if i + 1 >= toks.len() {
                    return Err(GsError::ParseIncomplete);
                }
                if self.depth_of_stack() == 0 {
                    return Err(GsError::StackUnderflow);
                }
                self.assign(toks[i + 1].lexeme());
                i += 2;
            } else {
                self.run_token(&toks[i], depth);
                i += 1;
            }
        }
        Ok(())
    }
}

/// Whether a token is the assignment symbol `:`.
fn is_assign_symbol(t: &Gtoken) -> (r: bool)
    ensures
        r == is_assign(t@),
{
    match t {
        Gtoken::Symbol(b) => {
            let r = b.len() == 1 && b[0] == 58;
            proof {
                if r {
                    assert(b@ =~= seq![58u8]);
                }
            }
            r
        },
        _ => false,
    }
}

/// Runs `source` in the sandbox on `input` and returns what it prints.
pub fn golfscript_bytes(input: &[u8], source: &[u8]) -> (r: Vec<u8>)
    ensures
        r@ == sandbox_output(input@, source@),
{
    let mut gs = Gs::new();
    gs.set_max_loops(SANDBOX_MAX_LOOPS);
    let text = copy_bytes(input, 0, input.len());
    proof {
        assert(input@.subrange(0, input.len() as int) =~= input@);
    }
    gs.push(Gval::Str(text));
    gs.run(source);
    gs.wrap_stack();
    let mut puts: Vec<u8> = Vec::new();
    puts.push(112u8);
    puts.push(117u8);
    puts.push(116u8);
    puts.push(115u8);
    proof {
        assert(puts@ =~= seq![112u8, 117u8, 116u8, 115u8]);
    }
    gs.run(puts.as_slice());
    clone_bytes(gs.output())
}

/// Runs `source` in the sandbox on `input` and returns what it prints, as
/// text.
pub fn golfscript(input: String, source: String) -> (r: String)
    ensures
        r@ == utf8_lossy(sandbox_output(encode_utf8(input@), encode_utf8(source@))),
{
    let out = golfscript_bytes(input.as_str().as_bytes(), source.as_str().as_bytes());
    lossy_string(&out)
}

/// A program with its input, run once, for a front end that steps through
/// the source.
pub struct Golfscript {
    /// The evaluator after the run.
    pub gs: Gs,
    /// The input that was on the stack at the start.
    pub input: String,
    /// The source that was run.
    pub source: Vec<u8>,
    /// Where the selected part of the source starts.
    pub selected_start: usize,
    /// Where the selected part of the source ends.
    pub selected_end: usize,
}

impl Golfscript {
    /// Runs `source` on `input`, with loops uncapped; nothing is selected.
    pub fn new(input: String, source: String) -> (r: Golfscript)
        ensures
            r.gs@ == run(
                push(initial(), Val::Str(encode_utf8(input@))),
                encode_utf8(source@),
            ),
            r.input == input,
            r.source@ == encode_utf8(source@),
            r.selected_start == 0,
            r.selected_end == 0,
    {
        let src = source.as_str().as_bytes();
        let code = copy_bytes(src, 0, src.len());
        let inp = input.as_str().as_bytes();
        let text = copy_bytes(inp, 0, inp.len());
        proof {
            assert(src@.subrange(0, src.len() as int) =~= src@);
            assert(inp@.subrange(0, inp.len() as int) =~= inp@);
        }
        let mut gs = Gs::new();
        gs.push(Gval::Str(text));
        gs.run(code.as_slice());
        Golfscript { gs, input, source: code, selected_start: 0, selected_end: 0 }
    }
}

} // verus!
