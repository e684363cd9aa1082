//! A small arithmetic-expression interpreter.
//!
//! A line of text such as `def x = 1 + 2; x * 3` is turned into a numeric
//! result by three cooperating stages:
//!
//! - the scanner turns the raw characters into a flat token sequence;
//! - the parser turns the tokens into an expression/statement tree,
//!   enforcing operator precedence and grouping;
//! - the interpreter resolves named values, checks every literal, and
//!   reduces the tree to a plan of elementary numeric operations, ready
//!   to be carried out by the host;
//!
//! and the runner chains the three for one line at a time, surfacing the
//! first error of any stage.

pub mod ast;
pub mod interpreter;
pub mod runner;
pub mod scanner;
