//! A miniature compiler: lexing, parsing with semantic checks, code
//! generation into an abstract instruction set, and assembly-text emission,
//! each stage specified and verified against a mathematical model.

pub mod assembly;
pub mod generator;
pub mod laws;
pub mod lexer;
pub mod parser;
pub mod token;
