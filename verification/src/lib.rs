//! A small compiler front end: a byte-level lexer, a recursive-descent parser,
//! the command-line rules of the compiler driver and the decisions of its code
//! generator, each with a contract that Verus proves.
pub mod cli;
pub mod codegen;
pub mod errors;
pub mod lexer;
pub mod text;
pub mod parser;
pub mod types;
