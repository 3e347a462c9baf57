//! Lexical front end for a small interpreted language: a single-pass
//! tokenizer with precise line/column bookkeeping, a token/span/location
//! data model, a keyword table, and a read-only cursor over the finished
//! token sequence.
//!
//! The tokenizer is specified against a mathematical model of the scan
//! (`model`): `Lexer::tokenize` is proved to return exactly the token
//! sequence that the model assigns to its input, or the lexical error
//! that the model assigns where the input is malformed.

pub mod chars;
pub mod lexer;
pub mod source;
pub mod model;
pub mod props;
pub mod syntax;
pub mod syntax_facts;
