//! The grammar, stated as specification functions.
//!
//! These functions define, position by position, what each grammar rule
//! accepts, which model tree it produces, and which positioned error it
//! raises otherwise:
//!
//! ```text
//! node     := text | block | element
//! element  := '<' NAME attr* tagEnd  (node* closeTag)?
//! tagEnd   := '/' '>' | '>'
//! closeTag := '<' '/' NAME '>'
//! attr     := KEY ('=' (BLOCK | EXPR))?
//! text     := LITERAL
//! block    := BLOCK
//! ```
//!
//! The executable parser's contracts say that it returns exactly what these
//! functions describe.

use vstd::prelude::*;

use crate::error::{ParseError, ParseErrorKind};
use crate::node::{NodeType, NodeView, ValueView};
use crate::token::{Delim, Token, TokenKind};

verus! {

/// The fixed node name of text nodes.
pub open spec fn text_node_name() -> Seq<char> {
    "#text"@
}

/// The fixed node name of block nodes.
pub open spec fn block_node_name() -> Seq<char> {
    "#block"@
}

/// The text node wrapping a literal payload.
pub open spec fn text_node(s: Seq<char>) -> NodeView {
    NodeView {
        name: text_node_name(),
        value: Some(ValueView::Literal(s)),
        node_type: NodeType::Text,
        attributes: Seq::empty(),
        child_nodes: Seq::empty(),
    }
}

/// The block node wrapping an opaque embedded-expression payload.
pub open spec fn block_node(s: Seq<char>) -> NodeView {
    NodeView {
        name: block_node_name(),
        value: Some(ValueView::Block(s)),
        node_type: NodeType::Block,
        attributes: Seq::empty(),
        child_nodes: Seq::empty(),
    }
}

/// The attribute node for a key and its optional value.
pub open spec fn attribute_node(key: Seq<char>, value: Option<ValueView>) -> NodeView {
    NodeView {
        name: key,
        value: value,
        node_type: NodeType::Attribute,
        attributes: Seq::empty(),
        child_nodes: Seq::empty(),
    }
}

/// The element node for a tag name, its attributes and its content children.
pub open spec fn element_node(name: Seq<char>, attributes: Seq<NodeView>, child_nodes: Seq<NodeView>) -> NodeView {
    NodeView {
        name: name,
        value: None,
        node_type: NodeType::Element,
        attributes: attributes,
        child_nodes: child_nodes,
    }
}

/// The node again, with its child list cleared: what the flattening
/// transform leaves in place of a nested element.
pub open spec fn without_children(m: NodeView) -> NodeView {
    NodeView { child_nodes: Seq::empty(), ..m }
}

/// A positioned error of the given kind.
pub open spec fn error_at(kind: ParseErrorKind, pos: usize) -> ParseError {
    ParseError { kind: kind, pos: pos }
}

/// The source position of the token at `p`, or zero past the end.
pub open spec fn pos_at(toks: Seq<Token>, p: int) -> usize {
    if 0 <= p < toks.len() {
        toks[p].pos
    } else {
        0
    }
}

/// Text rule: succeeds iff the token at `p` is a single literal expression;
/// consumes exactly that token.
pub open spec fn spec_text(toks: Seq<Token>, p: int) -> Option<(NodeView, int)> {
    if 0 <= p < toks.len() {
        match toks[p].kind {
            TokenKind::Literal(s) => Some((text_node(s@), p + 1)),
            _ => None,
        }
    } else {
        None
    }
}

/// Block rule: succeeds iff the token at `p` is a brace-delimited group;
/// consumes exactly that token and keeps its interior opaque.
pub open spec fn spec_block(toks: Seq<Token>, p: int) -> Option<(NodeView, int)> {
    if 0 <= p < toks.len() {
        match toks[p].kind {
            TokenKind::Group(d, s) => if d == Delim::Brace {
                Some((block_node(s@), p + 1))
            } else {
                None
            },
            _ => None,
        }
    } else {
        None
    }
}

/// Close-tag rule: succeeds iff `< / NAME >` stands at `p`; yields the name,
/// the name token's source position, and the position just past the `>`.
pub open spec fn spec_tag_close(toks: Seq<Token>, p: int) -> Option<(Seq<char>, usize, int)> {
    if 0 <= p && p + 4 <= toks.len()
        && toks[p].kind is Lt
        && toks[p + 1].kind is Slash
        && toks[p + 2].kind is Ident
        && toks[p + 3].kind is Gt {
        Some((toks[p + 2].kind->Ident_0@, toks[p + 2].pos, p + 4))
    } else {
        None
    }
}

/// The token-by-token scan for an open tag's terminator (`>` or `/>`),
/// tried once per token so that a terminator-shaped token inside an
/// attribute value's own group cannot be misidentified (groups are single
/// tokens). Yields the terminator's position, the self-closing marker and
/// the position just past the terminator; `None` iff input runs out first.
/// The tokens between the scan's start and the terminator are the open
/// tag's raw attribute range.
pub open spec fn spec_scan_attrs(toks: Seq<Token>, p: int) -> Option<(int, bool, int)>
    decreases toks.len() - p,
{
    if p < 0 || p >= toks.len() {
        None
    } else if toks[p].kind is Gt {
        Some((p, false, p + 1))
    } else if toks[p].kind is Slash && p + 2 <= toks.len() && toks[p + 1].kind is Gt {
        Some((p, true, p + 2))
    } else {
        spec_scan_attrs(toks, p + 1)
    }
}

/// One attribute value inside the range ending at `hi`: a brace-delimited
/// group (opaque embedded expression) or a single literal/identifier
/// expression token.
pub open spec fn spec_attr_value(toks: Seq<Token>, p: int, hi: int) -> Option<(ValueView, int)> {
    if 0 <= p < hi <= toks.len() {
        match toks[p].kind {
            TokenKind::Group(d, s) => if d == Delim::Brace {
                Some((ValueView::Block(s@), p + 1))
            } else {
                None
            },
            TokenKind::Literal(s) => Some((ValueView::Literal(s@), p + 1)),
            TokenKind::Ident(s) => Some((ValueView::Literal(s@), p + 1)),
            _ => None,
        }
    } else {
        None
    }
}

/// One attribute inside the range ending at `hi`: an identifier-shaped key,
/// optionally followed by `=` and a value.
pub open spec fn spec_attribute(toks: Seq<Token>, p: int, hi: int) -> Option<(NodeView, int)> {
    if 0 <= p < hi <= toks.len() && toks[p].kind is Ident {
        if p + 1 < hi && toks[p + 1].kind is Equals {
            match spec_attr_value(toks, p + 2, hi) {
                None => None,
                Some((v, q)) => Some((attribute_node(toks[p].kind->Ident_0@, Some(v)), q)),
            }
        } else {
            Some((attribute_node(toks[p].kind->Ident_0@, None), p + 1))
        }
    } else {
        None
    }
}

/// The attribute-list rule over the bounded range `p .. hi`: attributes in
/// source order; succeeds on an empty range; any token left over once an
/// attribute fails to parse is a `MalformedAttribute` error at that token.
pub open spec fn spec_attributes_from(toks: Seq<Token>, p: int, hi: int) -> Result<Seq<NodeView>, ParseError>
    decreases hi - p,
{
    if !(0 <= p < hi <= toks.len()) {
        Ok(Seq::empty())
    } else {
        match spec_attribute(toks, p, hi) {
            None => Err(error_at(ParseErrorKind::MalformedAttribute, toks[p].pos)),
            Some((a, q)) => if p < q <= hi {
                match spec_attributes_from(toks, q, hi) {
                    Err(e) => Err(e),
                    Ok(rest) => Ok(seq![a] + rest),
                }
            } else {
                Err(error_at(ParseErrorKind::MalformedAttribute, toks[p].pos))
            },
        }
    }
}

/// Open-tag rule: `<`, an identifier, the scan for the tag terminator, and
/// the bounded attribute sub-parse over the scanned range. Yields the tag's
/// name, the name token's position, the attributes, the self-closing
/// marker, and the position just past the terminator. A missing `<` or
/// name is a `GrammarMismatch` at the rule's first token; input running
/// out before the terminator is an `UnterminatedOpenTag` at the name.
pub open spec fn spec_tag_open(toks: Seq<Token>, p: int) -> Result<(Seq<char>, usize, Seq<NodeView>, bool, int), ParseError> {
    if !(0 <= p < toks.len() && toks[p].kind is Lt) {
        Err(error_at(ParseErrorKind::GrammarMismatch, pos_at(toks, p)))
    } else if !(p + 1 < toks.len() && toks[p + 1].kind is Ident) {
        Err(error_at(ParseErrorKind::GrammarMismatch, pos_at(toks, p)))
    } else {
        let name = toks[p + 1].kind->Ident_0@;
        let name_pos = toks[p + 1].pos;
        match spec_scan_attrs(toks, p + 2) {
            None => Err(error_at(ParseErrorKind::UnterminatedOpenTag, name_pos)),
            Some((t, selfclosing, q)) => match spec_attributes_from(toks, p + 2, t) {
                Err(e) => Err(e),
                Ok(attrs) => Ok((name, name_pos, attrs, selfclosing, q)),
            },
        }
    }
}

/// Element rule: a stray close tag is an `OrphanCloseTag`; otherwise an
/// open tag, and unless self-closing, content children up to the matching
/// close tag, which is consumed.
pub open spec fn spec_element(toks: Seq<Token>, p: int, flatten: bool) -> Result<(NodeView, int), ParseError>
    decreases toks.len() - p, 0int,
{
    match spec_tag_close(toks, p) {
        Some((_name, name_pos, _q)) => Err(error_at(ParseErrorKind::OrphanCloseTag, name_pos)),
        None => match spec_tag_open(toks, p) {
            Err(e) => Err(e),
            Ok((name, name_pos, attrs, selfclosing, q)) => if selfclosing {
                Ok((element_node(name, attrs, Seq::empty()), q))
            } else if p < q <= toks.len() {
                match spec_children(toks, q, name, name_pos, flatten) {
                    Err(e) => Err(e),
                    Ok((children, r)) => Ok((element_node(name, attrs, children), r + 4)),
                }
            } else {
                Err(error_at(ParseErrorKind::GrammarMismatch, pos_at(toks, p)))
            },
        },
    }
}

/// The content children of an element named `name`: nodes up to the first
/// close tag. Stops, without consuming it, at a close tag naming `name`;
/// a close tag naming anything else is a `TagNameMismatch`; running out of
/// input is an `UnterminatedOpenTag` at the open tag's name.
pub open spec fn spec_children(toks: Seq<Token>, p: int, name: Seq<char>, name_pos: usize, flatten: bool) -> Result<(Seq<NodeView>, int), ParseError>
    decreases toks.len() - p, 2int,
{
    if !(0 <= p < toks.len()) {
        Err(error_at(ParseErrorKind::UnterminatedOpenTag, name_pos))
    } else {
        match spec_tag_close(toks, p) {
            Some((close_name, close_pos, _q)) => if close_name == name {
                Ok((Seq::empty(), p))
            } else {
                Err(error_at(ParseErrorKind::TagNameMismatch, close_pos))
            },
            None => match spec_node(toks, p, flatten) {
                Err(e) => Err(e),
                Ok((ns, q)) => if p < q <= toks.len() {
                    match spec_children(toks, q, name, name_pos, flatten) {
                        Err(e) => Err(e),
                        Ok((rest, r)) => Ok((ns + rest, r)),
                    }
                } else {
                    Err(error_at(ParseErrorKind::UnterminatedOpenTag, name_pos))
                },
            },
        }
    }
}

/// Dispatcher: text, else block, else element, in that fixed order. In
/// flattened mode an element comes out with its child list cleared and its
/// already-flattened descendants as the following nodes, in order.
pub open spec fn spec_node(toks: Seq<Token>, p: int, flatten: bool) -> Result<(Seq<NodeView>, int), ParseError>
    decreases toks.len() - p, 1int,
{
    match spec_text(toks, p) {
        Some((t, q)) => Ok((seq![t], q)),
        None => match spec_block(toks, p) {
            Some((b, q)) => Ok((seq![b], q)),
            None => match spec_element(toks, p, flatten) {
                Err(e) => Err(e),
                Ok((e, q)) => if flatten {
                    Ok((seq![without_children(e)] + e.child_nodes, q))
                } else {
                    Ok((seq![e], q))
                },
            },
        },
    }
}

/// The whole input from `p` on: nodes until the stream is exhausted.
pub open spec fn spec_parse_from(toks: Seq<Token>, p: int, flatten: bool) -> Result<Seq<NodeView>, ParseError>
    decreases toks.len() - p,
{
    if p < 0 || p >= toks.len() {
        Ok(Seq::empty())
    } else {
        match spec_node(toks, p, flatten) {
            Err(e) => Err(e),
            Ok((ns, q)) => if p < q <= toks.len() {
                match spec_parse_from(toks, q, flatten) {
                    Err(e) => Err(e),
                    Ok(rest) => Ok(ns + rest),
                }
            } else {
                Err(error_at(ParseErrorKind::GrammarMismatch, pos_at(toks, p)))
            },
        }
    }
}

/// What parsing the whole token stream yields: the contract of the parser.
pub open spec fn spec_parse(toks: Seq<Token>, flatten: bool) -> Result<Seq<NodeView>, ParseError> {
    spec_parse_from(toks, 0, flatten)
}

/// The scan for a tag terminator only moves forward: the terminator stands
/// at or after the scan's start and what follows it starts past it.
pub proof fn lemma_scan_attrs_progress(toks: Seq<Token>, p: int)
    ensures
        spec_scan_attrs(toks, p) matches Some((t, selfclosing, q)) ==>
            p <= t && t < q <= toks.len() && q == t + (if selfclosing { 2int } else { 1int }),
    decreases toks.len() - p,
{
    if 0 <= p < toks.len() {
        if toks[p].kind is Gt {
        } else if toks[p].kind is Slash && p + 2 <= toks.len() && toks[p + 1].kind is Gt {
        } else {
            lemma_scan_attrs_progress(toks, p + 1);
        }
    }
}

/// What the scan found: the terminator token (or pair) itself.
pub proof fn lemma_scan_attrs_terminator(toks: Seq<Token>, p: int)
    ensures
        spec_scan_attrs(toks, p) matches Some((t, selfclosing, q)) ==>
            t < toks.len()
            && (selfclosing ==> toks[t].kind is Slash && t + 1 < toks.len()
                && toks[t + 1].kind is Gt && q == t + 2)
            && (selfclosing == false ==> toks[t].kind is Gt && q == t + 1),
    decreases toks.len() - p,
{
    if 0 <= p < toks.len() {
        if toks[p].kind is Gt {
        } else if toks[p].kind is Slash && p + 2 <= toks.len() && toks[p + 1].kind is Gt {
        } else {
            lemma_scan_attrs_terminator(toks, p + 1);
        }
    }
}

/// A successful dispatcher step consumes at least one token and never
/// passes the end of input.
pub proof fn lemma_node_progress(toks: Seq<Token>, p: int, flatten: bool)
    ensures
        spec_node(toks, p, flatten) matches Ok((ns, q)) ==> p < q <= toks.len(),
    decreases toks.len() - p, 1int,
{
    if spec_text(toks, p) is None && spec_block(toks, p) is None {
        lemma_element_progress(toks, p, flatten);
    }
}

/// A successful element consumes at least one token and never passes the
/// end of input.
pub proof fn lemma_element_progress(toks: Seq<Token>, p: int, flatten: bool)
    ensures
        spec_element(toks, p, flatten) matches Ok((m, q)) ==> p < q <= toks.len(),
    decreases toks.len() - p, 0int,
{
    if spec_tag_close(toks, p) is None {
        if 0 <= p < toks.len() && toks[p].kind is Lt && p + 1 < toks.len() && toks[p + 1].kind is Ident {
            lemma_scan_attrs_progress(toks, p + 2);
            match spec_scan_attrs(toks, p + 2) {
                Some((t, selfclosing, q)) => if !selfclosing && p < q <= toks.len() {
                    lemma_children_progress(toks, q, toks[p + 1].kind->Ident_0@, toks[p + 1].pos, flatten);
                },
                None => {},
            }
        }
    }
}

/// A successful child scan ends exactly at a close tag whose name is the
/// open tag's, standing inside the input.
pub proof fn lemma_children_progress(toks: Seq<Token>, p: int, name: Seq<char>, name_pos: usize, flatten: bool)
    ensures
        spec_children(toks, p, name, name_pos, flatten) matches Ok((cs, r)) ==>
            p <= r && r + 4 <= toks.len()
            && (spec_tag_close(toks, r) matches Some((close_name, _close_pos, cq))
                && close_name == name && cq == r + 4),
    decreases toks.len() - p, 2int,
{
    if 0 <= p < toks.len() {
        if spec_tag_close(toks, p) is None {
            lemma_node_progress(toks, p, flatten);
            match spec_node(toks, p, flatten) {
                Ok((ns, q)) => if p < q <= toks.len() {
                    lemma_children_progress(toks, q, name, name_pos, flatten);
                },
                Err(_e) => {},
            }
        }
    }
}

} // verus!
