//! Positioned parse errors.
//!
//! Every grammar rule either fully succeeds or fully fails; a failure
//! carries the kind of defect and the source position of the token that
//! caused it. One structural error aborts the whole parse.

use vstd::prelude::*;

verus! {

/// The taxonomy of parse-time failures.
#[derive(Clone, Copy, PartialEq, Eq, Structural, Debug)]
pub enum ParseErrorKind {
    /// A close tag was met with no matching open tag in scope.
    OrphanCloseTag,
    /// Input ran out while an element still awaited its close tag.
    UnterminatedOpenTag,
    /// A close tag named a different tag than the enclosing open tag.
    TagNameMismatch,
    /// None of text, block or element matched at the current position.
    GrammarMismatch,
    /// Leftover or invalid tokens inside an open tag's attribute range.
    MalformedAttribute,
    /// A delimited group's interior was rejected by the embedded-expression
    /// collaborator. The tokenizer delivers groups already delimited and
    /// checked, so the parser itself never raises this kind.
    MalformedEmbeddedExpression,
}

/// A positioned parse error: what went wrong, and at which source position.
#[derive(Clone, Copy, PartialEq, Eq, Structural, Debug)]
pub struct ParseError {
    pub kind: ParseErrorKind,
    pub pos: usize,
}

/// The human-readable message belonging to an error kind.
pub open spec fn spec_message(kind: ParseErrorKind) -> Seq<char> {
    match kind {
        ParseErrorKind::OrphanCloseTag => "close tag has no corresponding open tag"@,
        ParseErrorKind::UnterminatedOpenTag => "open tag has no corresponding close tag"@,
        ParseErrorKind::TagNameMismatch => "close tag has no corresponding open tag"@,
        ParseErrorKind::GrammarMismatch => "expected a text, block or element node"@,
        ParseErrorKind::MalformedAttribute => "invalid tokens in attribute list"@,
        ParseErrorKind::MalformedEmbeddedExpression => "invalid embedded expression"@,
    }
}

impl ParseError {
    /// The human-readable message for this error.
    pub fn message(&self) -> (m: &'static str)
        ensures
            m@ == spec_message(self.kind),
    {
        match self.kind {
            ParseErrorKind::OrphanCloseTag => "close tag has no corresponding open tag",
            ParseErrorKind::UnterminatedOpenTag => "open tag has no corresponding close tag",
            ParseErrorKind::TagNameMismatch => "close tag has no corresponding open tag",
            ParseErrorKind::GrammarMismatch => "expected a text, block or element node",
            ParseErrorKind::MalformedAttribute => "invalid tokens in attribute list",
            ParseErrorKind::MalformedEmbeddedExpression => "invalid embedded expression",
        }
    }
}

} // verus!
