//! A verified front end for a small pipeline language: a position-tracking
//! lexer that turns source text into typed tokens, a position-tagged error
//! model with a human-readable rendering, and a generic parser-combinator
//! core that composes small typed parsing steps into larger ones.

pub mod ast;
pub mod cursor;
pub mod error;
pub mod parser;
pub mod text;
pub mod tokenizer;
