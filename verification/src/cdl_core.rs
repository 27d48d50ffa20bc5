//! The CDL compiler core: selector lexing and parsing, the abstract syntax
//! tree and its parser, the printer, and selection of entities and fields.
pub mod select_lex;
pub mod select_parse;
pub mod lex;
pub mod ast;
pub mod parse;
pub mod print;
pub mod select;
