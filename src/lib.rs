//! A small scripting-language front end: a lexer, a recursive-descent parser,
//! an expression tree with a printer, lexically scoped environments and a
//! tree-walking evaluator, each with its behaviour stated as a contract.
pub mod token;
pub mod error;
pub mod lexer;
mod text;
pub mod value;
pub mod environment;
pub mod ast;
pub mod interpreter;
pub mod parser;
pub mod pipeline;
