//! The block parser: tokens to a syntax tree of blocks, statements and
//! expressions, with the functions that the program defines.
pub mod tokens;
pub mod tree;
pub mod rules;
pub mod scan;
pub mod parse;
pub mod program;
pub mod laws;
