//! A backtracking recursive-descent parser for a tag-based markup syntax
//! (XML/JSX-like elements embedded in host-language source), turning a
//! pre-lexed token stream into a typed tree of nodes.
//!
//! The grammar lives in `grammar` as specification functions; `parser`
//! holds the executable rules, each proved to return exactly what the
//! grammar says; `laws` and `print` prove the flattening transform and
//! the print/parse round trip.

pub mod error;
pub mod grammar;
pub mod laws;
pub mod node;
pub mod parser;
pub mod print;
pub mod token;
