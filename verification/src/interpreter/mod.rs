//! The tree-walking interpreter: its tokenizer, its values and its error
//! reports.
pub mod exceptions;
pub mod lexer;
pub mod value;
