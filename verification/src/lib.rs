//! A front end and an execution engine for a small reversible, line-oriented
//! language. A program is a sequence of lines; the machine runs them in
//! either direction of time, and an instruction run forward and then
//! backward undoes itself.
//!
//! The pipeline, leaves first:
//! - [`lex`] splits the program text into tokens with an ordered list of
//!   regular expressions; the first that matches wins.
//! - [`parse`] turns tokens into lines: an optional label, an instruction and
//!   an optional guard. A dereference is written with a `*` in front of the
//!   operand; parentheses group guard expressions only.
//! - [`resolve`] scans the lines for their labels and classifies the program:
//!   a duplicate label, missing labels, unused labels, or a clean table.
//! - [`eval`] runs the lines on a machine of four registers and a flat memory.
//!   [`machine`] holds the meaning of every instruction as mathematical
//!   functions, and the laws that follow from it.
//!
//! Run-time conditions: arithmetic that leaves the range of a cell, an address
//! outside the memory, input into a literal, output of a value above 255 and
//! a label that does not resolve are faults, which end the run and change
//! nothing. A bare `jump` or `from` on a line whose call stack is empty does
//! nothing. Input that is used up reads as zero.

use vstd::prelude::*;

pub mod ast;
pub mod eval;
pub mod labels;
pub mod lex;
pub mod machine;
pub mod parse;
pub mod resolve;
pub mod text;

verus! {

} // verus!
