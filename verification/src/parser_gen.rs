//! The parser generator: primitive parsers and the CDL grammar built from
//! them.
pub mod common;
pub mod cdl;
