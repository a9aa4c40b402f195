//! A lexical scanner for a small scripting language.
//!
//! The scanner walks a source text once, left to right, and produces the
//! ordered sequence of tokens it contains, terminated by a single
//! end-of-input token, or fails at the first unrecoverable lexical error
//! with the source line on which it occurred.

pub mod laws;
pub mod lox;
pub mod scanner;
pub mod token;
