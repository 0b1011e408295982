pub mod lexer;
pub mod tree;
