//! From text to tokens, and from tokens to styled lines.
pub mod ast;
pub mod bytes;
pub mod cursor;
pub mod laws;
pub mod lexer;
pub mod lines;
pub mod parser;
pub mod parser_helpers;
pub mod tree;
