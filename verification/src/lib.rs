//! Tokenizer core for an indentation-sensitive (off-side rule) language.
//!
//! The single entry point, [`lexer::Lexer::lex`], is pull-based: the caller
//! passes the set of token kinds its grammar currently accepts, and the
//! tokenizer uses that set to decide which structural token (`BEGIN`, `END`,
//! `NEWLINE`), if any, a run of whitespace should produce.

pub mod cursor;
pub mod laws;
pub mod lexer;
pub mod model;
pub mod token;
pub mod token_type;
pub mod util;
