//! A truth-table generator for a small boolean scripting language.
//!
//! A script is a sequence of statements separated by `,` and terminated by a
//! trailing `.`. Each statement is either a bare, previously unbound variable
//! name (a free variable, enumerated over both truth values), an assignment
//! `name : expr`, or a plain boolean expression over already-bound variables.
//! The library lexes the text, evaluates each statement with an
//! operator-precedence stack machine, and enumerates every assignment of the
//! free variables, producing one table row per complete assignment.

use vstd::prelude::*;

pub mod env;
pub mod eval;
pub mod laws;
pub mod table;
pub mod tokenize;

verus! {

/// How a script reaches the driver: directly on the command line, on
/// standard input, or in a named file.
pub enum In {
    Cli(String),
    Stdin,
    File(String),
}

} // verus!
