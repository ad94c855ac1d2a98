//! A scanner for the Flerry scripting language: it turns ASCII source text
//! into tokens with line numbers, skipping whitespace, line comments and
//! nested block comments.
//!
//! `model` describes scanning over sequences of characters; `Lexer` is proved
//! to follow it, and `laws` states what follows for all inputs.

pub mod token;
pub mod model;
pub mod lexer;
pub mod laws;

pub use token::{Token, TokenError, TokenResult, TokenType};
pub use lexer::Lexer;
