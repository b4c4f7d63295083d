//! The front end of the RCL configuration language: the parser that turns a
//! token stream into a concrete syntax tree, and the abstraction that turns
//! that tree into an abstract syntax tree, each with its contract.

pub mod source;
pub mod lexer;
pub mod cst;
pub mod error;
pub mod grammar;
pub mod parser;
pub mod ast;
pub mod abstraction;
pub mod spans;
pub mod laws;
