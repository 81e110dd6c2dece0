//! A lexical analyzer for a small C-like scripting language.
//!
//! The library turns a source string into a flat sequence of classified
//! tokens: identifiers, integer literals, operators, delimiters and reserved
//! words.  Scanning is pull-based: a [`lexer::Lexer`] owns a forward-only
//! cursor over the input and hands out one token per call until the input is
//! exhausted.

pub mod chars;
pub mod lexer;
pub mod scan;
