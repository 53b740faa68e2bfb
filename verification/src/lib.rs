//! Verified core of the ZSP toy language: text utilities, the line-oriented
//! script interpreter, the tokenizer, value semantics and error reports.
pub mod builtins;
pub mod exceptions;
pub mod interpreter;
pub mod library;
pub mod native;
pub mod numbers;
pub mod parser;
pub mod runtime;
pub mod script;
pub mod text;
pub mod zstd;
