//! An interpreter for a tape-based esoteric language: source text is lexed into
//! an instruction sequence whose loop brackets carry their partner's index, and
//! that sequence is run against a fixed-size tape of byte cells.
use vstd::prelude::*;

pub mod instruction;
pub mod lexer;
pub mod machine;
pub mod interpreter;

verus! {

} // verus!
