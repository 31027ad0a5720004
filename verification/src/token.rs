//! The pre-lexed token stream the parser consumes.
//!
//! Tokens arrive already lexed by an external front end: identifiers,
//! the punctuation marks `<`, `>`, `/` and `=`, literal expressions, and
//! delimited groups whose interior is opaque foreign-language payload.
//! Each token carries the source position the front end attached to it;
//! the parser only copies positions into errors and never interprets them.

use vstd::prelude::*;

verus! {

/// Which bracket encloses a delimited token group.
#[derive(Clone, Copy, PartialEq, Eq, Structural, Debug)]
pub enum Delim {
    Brace,
    Paren,
    Bracket,
}

/// One pre-lexed token.
#[derive(Debug)]
pub enum TokenKind {
    /// The punctuation mark `<`.
    Lt,
    /// The punctuation mark `>`.
    Gt,
    /// The punctuation mark `/`.
    Slash,
    /// The punctuation mark `=`.
    Equals,
    /// An identifier-shaped token (reserved-word-shaped ones included).
    Ident(String),
    /// A single literal expression.
    Literal(String),
    /// A delimited group: the delimiter and the opaque interior payload.
    Group(Delim, String),
}

/// A token together with the source position the front end attached to it.
#[derive(Debug)]
pub struct Token {
    pub kind: TokenKind,
    pub pos: usize,
}

} // verus!
