pub mod lexer;
pub mod ast;
pub mod grammar;
pub mod parser;
pub mod memory;
pub mod environment;
pub mod semantics;
pub mod interpreter;
