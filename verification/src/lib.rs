//! Front end for a verbose, English-phrase language: a vocabulary of keyword
//! atoms, a tokenizer that turns source text into a span-annotated token
//! stream, a recursive-descent parser that builds a statement tree, and a
//! diagnostic engine that renders span-anchored reports.

pub mod ast;
pub mod errors;
pub mod espan;
pub mod lexer;
pub mod node;
pub mod parser;
pub mod text;
pub mod token;
pub mod words;
