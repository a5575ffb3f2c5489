//! A lexer and an operator-precedence parser for a small expression language.
//!
//! [`token::Lexer`] cuts source text into atoms and operators; [`parse::parse`]
//! builds a tree of labelled nodes from them, or says why it could not.
//!
//! Every function carries a contract over the mathematical model of its
//! data. Text is a sequence of characters. A lexer is the stream of tokens
//! that it has yet to yield ([`token::Stream`]). A tree is a value of
//! [`expr::Tree`], and [`grammar`] defines the tree that a stream of tokens
//! stands for. [`laws`] holds what follows from these definitions for every
//! input.
//!
//! Two things are taken from other crates and are not proved here: which
//! characters may stand in an identifier (`unicode-ident`), and what a
//! regular expression matches (`regex`). The contracts name both and say
//! what the library makes of them.

pub mod expr;
pub mod grammar;
pub mod laws;
pub mod parse;
pub mod pattern;
pub mod text;
pub mod token;

pub use expr::Expr;
pub use parse::parse;
pub use token::{Lexer, ParseError, Token};
