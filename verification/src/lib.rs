//! A stack-based, concatenative golfing language: values, sequence
//! utilities, tokenizer and evaluator, verified with Verus.
//!
//! A program is a run of tokens that work on one stack of values.  A value is
//! an integer of any size, an array of values, a string of bytes, or a block
//! of deferred code.  Most symbols mean different things for different kinds
//! of operands.
//!
//! The meaning of every symbol is laid down in [`machine`] as a mathematical
//! function on the state of the evaluator; the evaluator in [`interp`] and
//! [`eval`] is proved to compute exactly those functions, and [`laws`] proves
//! what follows from them.
//!
//! Evaluation never fails and always ends.  Of the two ways to treat a
//! program that goes wrong this crate takes the forgiving one: a pop from an
//! empty stack yields nothing and marks the state unstable, a division by
//! zero gives zero, a loop stops after `max_loops` rounds, a power that
//! would be too large gives its base, and source that is not all tokens is
//! not run.  Only [`interp::Gs::stepped`] reports instead of repairing, and
//! only what the tokens themselves get wrong.  Blocks may run blocks
//! `max_depth` levels deep; a block beyond that is skipped.
//!
//! Integers are `num::BigInt`.  What this crate assumes of that type is
//! gathered in [`bigint`].

pub mod bigint;
pub mod value;
pub mod coerce;
pub mod util;
pub mod sort;
pub mod parse;
pub mod unescape;
pub mod machine;
pub mod vars;
pub mod interp;
pub mod eval;
pub mod session;
pub mod laws;

pub use crate::interp::Gs;
pub use crate::session::{golfscript, golfscript_bytes, Golfscript, GsError};
pub use crate::value::Gval;
