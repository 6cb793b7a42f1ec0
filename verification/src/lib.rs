//! Lexical-analysis front end for a small interpreted language.
//!
//! The crate turns one source buffer into a stream of classified tokens.
//! [`scanner::Lexer`] walks the characters of the buffer and emits one
//! [`token::Token`] per call, ending with an explicit end-of-input marker;
//! [`token::TokenType::resolve_type`] decides keyword versus identifier.
//! Every scanning step is proved against a mathematical model of the
//! automaton, so longest-match, lookahead, offset and termination behaviour
//! are stated as contracts rather than conventions.

pub mod scanner;
pub mod token;
