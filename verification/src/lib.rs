//! Lexers, a recursive-descent parser, a printer and a selector engine for the
//! CDL configuration language, and the grid logic of two maze generators.
use vstd::prelude::*;

pub mod text;
pub mod cdl_lexer;
pub mod ident_lexer;
pub mod cli_args;
pub mod cdl_core;
pub mod random;
pub mod maze_maker;
pub mod maze;
pub mod parser_gen;
pub mod pixels;

verus! {
} // verus!
