//! Front end of a small compiler for a C-like language.

pub mod ast;
pub mod grammar;
pub mod lexemes;
pub mod lexer;
pub mod lexer_theorems;
pub mod parser;
pub mod parser_theorems;
pub mod printer;
pub mod printer_theorems;
pub mod text;
pub mod token;
