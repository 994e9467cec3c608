//! Whitespace normalizer for brace-delimited source text.
//!
//! The library splits a text into tokens (string literals and comments kept
//! whole), rewrites operator runs in plain tokens to single-space-separated
//! form, and indents each line by the current brace-nesting depth.

pub mod boundary;
pub mod chars;
pub mod classify;
pub mod engine;
pub mod laws;
pub mod lexer;
pub mod nesting;
pub mod spacing;
