//! A parser and tree-walking interpreter for a small esoteric language whose
//! surface syntax is built from punctuation tokens, English phrases and
//! non-ASCII identifiers.
//!
//! The `parser` module turns source text into an abstract syntax forest; the
//! `interpreter` module walks that forest and produces a runtime value.

use vstd::prelude::*;

pub mod interpreter;
pub mod parser;

verus! {

} // verus!
