//! From source text to a syntax tree.
pub mod ast;
pub mod char_stream;
pub mod grammar;
pub mod lexer;
pub mod parser;
pub mod token;
pub mod token_stream;
pub mod util;
