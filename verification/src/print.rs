//! Printed forms, and the round trip between printing and parsing.
//!
//! `prints_seq_at` says that a stretch of the token stream is a printed
//! form of a sequence of model nodes: the same tag names, attribute
//! key/value pairs and text/block payloads, in document order, under the
//! grammar's concrete syntax. A childless element may print either
//! self-closing or as an open/close pair; token positions are free.
//!
//! Two laws are proved here. Parsing is sound for it: whatever the parser
//! returns, the input was a printed form of it — walking the tree
//! reproduces the input's names, attributes and payloads in document
//! order. And parsing is complete for it: any printed form of any node
//! sequence parses back to exactly that sequence, so re-parsing a
//! pretty-printed parse result yields a structurally identical tree.

use vstd::prelude::*;

use crate::error::ParseError;
use crate::grammar::{
    block_node_name, element_node, lemma_children_progress, lemma_node_progress,
    lemma_scan_attrs_progress, lemma_scan_attrs_terminator, spec_attribute,
    spec_attributes_from, spec_block, spec_children, spec_element, spec_node, spec_parse,
    spec_parse_from, spec_scan_attrs, spec_tag_close, spec_text, text_node_name,
};
use crate::node::{NodeType, NodeView, ValueView};
use crate::token::{Delim, Token, TokenKind};

verus! {

/// Is the token at `p` a printed form of this attribute value?
pub open spec fn prints_value_at(v: ValueView, toks: Seq<Token>, p: int) -> bool {
    &&& 0 <= p < toks.len()
    &&& match v {
        ValueView::Literal(s) => {
            ||| (toks[p].kind matches TokenKind::Literal(t) && t@ == s)
            ||| (toks[p].kind matches TokenKind::Ident(t) && t@ == s)
        },
        ValueView::Block(s) => toks[p].kind matches TokenKind::Group(d, t)
            && d == Delim::Brace && t@ == s,
    }
}

/// Always true. The printed-form predicates split a token range at an
/// existentially chosen boundary; this marker names that boundary so the
/// existentials have a stable quantifier trigger.
pub open spec fn print_cut(r: int) -> bool {
    true
}

/// Do the tokens `p .. q` print this attribute node?
pub open spec fn prints_attr_at(m: NodeView, toks: Seq<Token>, p: int, q: int) -> bool {
    &&& m.node_type == NodeType::Attribute
    &&& m.attributes.len() == 0
    &&& m.child_nodes.len() == 0
    &&& 0 <= p < toks.len()
    &&& (toks[p].kind matches TokenKind::Ident(k) && k@ == m.name)
    &&& match m.value {
        None => q == p + 1,
        Some(v) => q == p + 3 && p + 1 < toks.len() && toks[p + 1].kind is Equals
            && prints_value_at(v, toks, p + 2),
    }
}

/// Do the tokens `p .. q` print this attribute list, in order?
pub open spec fn prints_attrs_at(ms: Seq<NodeView>, toks: Seq<Token>, p: int, q: int) -> bool
    decreases ms.len(),
{
    if ms.len() == 0 {
        q == p
    } else {
        exists|r: int|
            #[trigger] prints_attr_at(ms[0], toks, p, r)
            && prints_attrs_at(ms.drop_first(), toks, r, q)
    }
}

/// Do the tokens `p .. q` print this node?
pub open spec fn prints_at(m: NodeView, toks: Seq<Token>, p: int, q: int) -> bool
    decreases m, 1int,
{
    match m.node_type {
        NodeType::Text => {
            &&& m.name == text_node_name()
            &&& m.attributes.len() == 0
            &&& m.child_nodes.len() == 0
            &&& 0 <= p < toks.len()
            &&& (m.value matches Some(ValueView::Literal(s))
                && (toks[p].kind matches TokenKind::Literal(t) && t@ == s))
            &&& q == p + 1
        },
        NodeType::Block => {
            &&& m.name == block_node_name()
            &&& m.attributes.len() == 0
            &&& m.child_nodes.len() == 0
            &&& 0 <= p < toks.len()
            &&& (m.value matches Some(ValueView::Block(s))
                && (toks[p].kind matches TokenKind::Group(d, t) && d == Delim::Brace && t@ == s))
            &&& q == p + 1
        },
        NodeType::Element => {
            &&& m.value is None
            &&& 0 <= p
            &&& p + 1 < toks.len()
            &&& toks[p].kind is Lt
            &&& (toks[p + 1].kind matches TokenKind::Ident(nm) && nm@ == m.name)
            &&& exists|b: int|
                #[trigger] prints_attrs_at(m.attributes, toks, p + 2, b)
                && ({
                    ||| (m.child_nodes.len() == 0 && b + 1 < toks.len()
                        && toks[b].kind is Slash && toks[b + 1].kind is Gt && q == b + 2)
                    ||| (b < toks.len() && toks[b].kind is Gt
                        && exists|c: int|
                            #[trigger] print_cut(c)
                            && prints_seq_at(m.child_nodes, toks, b + 1, c)
                            && c + 3 < toks.len()
                            && toks[c].kind is Lt
                            && toks[c + 1].kind is Slash
                            && (toks[c + 2].kind matches TokenKind::Ident(cn) && cn@ == m.name)
                            && toks[c + 3].kind is Gt
                            && q == c + 4)
                })
        },
        NodeType::Attribute => false,
    }
}

/// Do the tokens `p .. q` print this sequence of sibling nodes, in order?
pub open spec fn prints_seq_at(ms: Seq<NodeView>, toks: Seq<Token>, p: int, q: int) -> bool
    decreases ms, 0int,
{
    if ms.len() == 0 {
        q == p
    } else {
        exists|r: int|
            #[trigger] print_cut(r)
            && prints_at(ms[0], toks, p, r)
            && prints_seq_at(ms.drop_first(), toks, r, q)
    }
}

/// A printed attribute takes at least one token and stays inside the input.
proof fn lemma_prints_attr_bounds(m: NodeView, toks: Seq<Token>, p: int, q: int)
    requires
        prints_attr_at(m, toks, p, q),
    ensures
        p < q <= toks.len(),
{
}

/// A printed attribute list only moves forward.
proof fn lemma_prints_attrs_bounds(ms: Seq<NodeView>, toks: Seq<Token>, p: int, q: int)
    requires
        prints_attrs_at(ms, toks, p, q),
    ensures
        p <= q,
    decreases ms.len(),
{
    if ms.len() > 0 {
        let r = choose|r: int|
            #[trigger] prints_attr_at(ms[0], toks, p, r) && prints_attrs_at(ms.drop_first(), toks, r, q);
        lemma_prints_attr_bounds(ms[0], toks, p, r);
        lemma_prints_attrs_bounds(ms.drop_first(), toks, r, q);
    }
}

/// A printed node takes at least one token and stays inside the input.
proof fn lemma_prints_at_bounds(m: NodeView, toks: Seq<Token>, p: int, q: int)
    requires
        prints_at(m, toks, p, q),
    ensures
        p < q <= toks.len(),
    decreases m, 1int,
{
    if m.node_type is Element {
        let b = choose|b: int|
            #[trigger] prints_attrs_at(m.attributes, toks, p + 2, b) && ({
                ||| (m.child_nodes.len() == 0 && b + 1 < toks.len()
                    && toks[b].kind is Slash && toks[b + 1].kind is Gt && q == b + 2)
                ||| (b < toks.len() && toks[b].kind is Gt
                    && exists|c: int|
                        #[trigger] print_cut(c)
                        && prints_seq_at(m.child_nodes, toks, b + 1, c)
                        && c + 3 < toks.len()
                        && toks[c].kind is Lt
                        && toks[c + 1].kind is Slash
                        && (toks[c + 2].kind matches TokenKind::Ident(cn) && cn@ == m.name)
                        && toks[c + 3].kind is Gt
                        && q == c + 4)
            });
        lemma_prints_attrs_bounds(m.attributes, toks, p + 2, b);
        if toks[b].kind is Slash {
        } else {
            let c = choose|c: int|
                #[trigger] print_cut(c)
                && prints_seq_at(m.child_nodes, toks, b + 1, c)
                && c + 3 < toks.len()
                && toks[c].kind is Lt
                && toks[c + 1].kind is Slash
                && (toks[c + 2].kind matches TokenKind::Ident(cn) && cn@ == m.name)
                && toks[c + 3].kind is Gt
                && q == c + 4;
            lemma_prints_seq_bounds(m.child_nodes, toks, b + 1, c);
        }
    }
}

/// A printed node sequence only moves forward, and strictly so when it is
/// not empty.
proof fn lemma_prints_seq_bounds(ms: Seq<NodeView>, toks: Seq<Token>, p: int, q: int)
    requires
        prints_seq_at(ms, toks, p, q),
    ensures
        p <= q,
        ms.len() > 0 ==> p < q <= toks.len(),
    decreases ms, 0int,
{
    if ms.len() > 0 {
        let r = choose|r: int|
            #[trigger] print_cut(r)
            && prints_at(ms[0], toks, p, r) && prints_seq_at(ms.drop_first(), toks, r, q);
        lemma_prints_at_bounds(ms[0], toks, p, r);
        lemma_prints_seq_bounds(ms.drop_first(), toks, r, q);
    }
}

/// What the attribute sub-parse accepts over a range, that range prints.
proof fn lemma_attrs_sound(toks: Seq<Token>, p: int, hi: int)
    requires
        0 <= p <= hi <= toks.len(),
    ensures
        spec_attributes_from(toks, p, hi) matches Ok(ms) ==> prints_attrs_at(ms, toks, p, hi),
    decreases hi - p,
{
    if p < hi {
        match spec_attribute(toks, p, hi) {
            Some((a, q)) => {
                if p < q <= hi {
                    lemma_attrs_sound(toks, q, hi);
                    match spec_attributes_from(toks, q, hi) {
                        Ok(rest) => {
                            let ms = seq![a] + rest;
                            assert(ms[0] == a);
                            assert(ms.drop_first() =~= rest);
                            assert(prints_attr_at(ms[0], toks, p, q));
                            assert(prints_attrs_at(ms, toks, p, hi));
                        },
                        Err(_e) => {},
                    }
                }
            },
            None => {},
        }
    }
}

/// What the dispatcher accepts, the consumed tokens print.
proof fn lemma_node_sound(toks: Seq<Token>, p: int)
    ensures
        spec_node(toks, p, false) matches Ok((ns, q)) ==> ns.len() == 1 && prints_at(ns[0], toks, p, q),
    decreases toks.len() - p, 1int,
{
    match spec_text(toks, p) {
        Some((t, q)) => {
            assert(seq![t][0] == t);
        },
        None => match spec_block(toks, p) {
            Some((b, q)) => {
                assert(seq![b][0] == b);
            },
            None => {
                lemma_element_sound(toks, p);
                match spec_element(toks, p, false) {
                    Ok((e, q)) => {
                        assert(seq![e][0] == e);
                    },
                    Err(_e) => {},
                }
            },
        },
    }
}

/// What the element rule accepts, the consumed tokens print.
proof fn lemma_element_sound(toks: Seq<Token>, p: int)
    ensures
        spec_element(toks, p, false) matches Ok((m, q)) ==> prints_at(m, toks, p, q),
    decreases toks.len() - p, 0int,
{
    if spec_tag_close(toks, p) is None {
        if 0 <= p < toks.len() && toks[p].kind is Lt && p + 1 < toks.len() && toks[p + 1].kind is Ident {
            let name = toks[p + 1].kind->Ident_0@;
            let name_pos = toks[p + 1].pos;
            lemma_scan_attrs_progress(toks, p + 2);
            lemma_scan_attrs_terminator(toks, p + 2);
            match spec_scan_attrs(toks, p + 2) {
                Some((t, selfclosing, q0)) => {
                    lemma_attrs_sound(toks, p + 2, t);
                    match spec_attributes_from(toks, p + 2, t) {
                        Ok(attrs) => {
                            let m = element_node(name, attrs, Seq::empty());
                            if selfclosing {
                                assert(prints_attrs_at(m.attributes, toks, p + 2, t));
                                assert(prints_at(m, toks, p, q0));
                            } else if p < q0 <= toks.len() {
                                lemma_children_sound(toks, q0, name, name_pos);
                                lemma_children_progress(toks, q0, name, name_pos, false);
                                match spec_children(toks, q0, name, name_pos, false) {
                                    Ok((cs, r)) => {
                                        let me = element_node(name, attrs, cs);
                                        assert(prints_attrs_at(me.attributes, toks, p + 2, t));
                                        assert(print_cut(r));
                                        assert(prints_seq_at(me.child_nodes, toks, t + 1, r));
                                        assert(prints_at(me, toks, p, r + 4));
                                    },
                                    Err(_e) => {},
                                }
                            }
                        },
                        Err(_e) => {},
                    }
                },
                None => {},
            }
        }
    }
}

/// What the child scan accepts, the consumed tokens print.
proof fn lemma_children_sound(toks: Seq<Token>, p: int, name: Seq<char>, name_pos: usize)
    ensures
        spec_children(toks, p, name, name_pos, false) matches Ok((cs, r)) ==> prints_seq_at(cs, toks, p, r),
    decreases toks.len() - p, 2int,
{
    if 0 <= p < toks.len() {
        if spec_tag_close(toks, p) is None {
            lemma_node_sound(toks, p);
            lemma_node_progress(toks, p, false);
            match spec_node(toks, p, false) {
                Ok((ns, q)) => {
                    if p < q <= toks.len() {
                        lemma_children_sound(toks, q, name, name_pos);
                        match spec_children(toks, q, name, name_pos, false) {
                            Ok((rest, r)) => {
                                let cs = ns + rest;
                                assert(cs[0] == ns[0]);
                                assert(cs.drop_first() =~= rest);
                                assert(print_cut(q));
                                assert(prints_at(cs[0], toks, p, q));
                                assert(prints_seq_at(cs, toks, p, r));
                            },
                            Err(_e) => {},
                        }
                    }
                },
                Err(_e) => {},
            }
        }
    }
}

/// Parsing reproduces the input: whatever tree the parse of a token
/// stream yields, walking that tree gives back exactly the tag names,
/// attribute key/value pairs and text/block payloads of the stream, in
/// document order — the stream is a printed form of the result.
pub proof fn lemma_parse_reproduces_input(toks: Seq<Token>)
    ensures
        spec_parse(toks, false) matches Ok(ms) ==> prints_seq_at(ms, toks, 0, toks.len() as int),
{
    lemma_parse_from_sound(toks, 0);
}

/// The whole-input form of `lemma_parse_reproduces_input`.
proof fn lemma_parse_from_sound(toks: Seq<Token>, p: int)
    requires
        0 <= p <= toks.len(),
    ensures
        spec_parse_from(toks, p, false) matches Ok(ms) ==> prints_seq_at(ms, toks, p, toks.len() as int),
    decreases toks.len() - p,
{
    if p < toks.len() {
        lemma_node_sound(toks, p);
        lemma_node_progress(toks, p, false);
        match spec_node(toks, p, false) {
            Ok((ns, q)) => {
                if p < q <= toks.len() {
                    lemma_parse_from_sound(toks, q);
                    match spec_parse_from(toks, q, false) {
                        Ok(rest) => {
                            let ms = ns + rest;
                            assert(ms[0] == ns[0]);
                            assert(ms.drop_first() =~= rest);
                            assert(print_cut(q));
                            assert(prints_at(ms[0], toks, p, q));
                            assert(prints_seq_at(ms, toks, p, toks.len() as int));
                        },
                        Err(_e) => {},
                    }
                }
            },
            Err(_e) => {},
        }
    }
}

/// The open-tag scan runs over a printed attribute list and stops at the
/// terminator standing right after it.
proof fn lemma_scan_over_attrs(ms: Seq<NodeView>, toks: Seq<Token>, p: int, b: int)
    requires
        prints_attrs_at(ms, toks, p, b),
        0 <= p,
        b < toks.len(),
        (toks[b].kind is Gt) || (toks[b].kind is Slash && b + 1 < toks.len() && toks[b + 1].kind is Gt),
    ensures
        toks[b].kind is Gt ==> spec_scan_attrs(toks, p) == Some((b, false, b + 1)),
        toks[b].kind is Slash ==> spec_scan_attrs(toks, p) == Some((b, true, b + 2)),
    decreases ms.len(),
{
    if ms.len() > 0 {
        let r = choose|r: int|
            #[trigger] prints_attr_at(ms[0], toks, p, r) && prints_attrs_at(ms.drop_first(), toks, r, b);
        lemma_prints_attr_bounds(ms[0], toks, p, r);
        lemma_prints_attrs_bounds(ms.drop_first(), toks, r, b);
        lemma_scan_over_attrs(ms.drop_first(), toks, r, b);
        if ms[0].value is Some {
            assert(spec_scan_attrs(toks, p) == spec_scan_attrs(toks, p + 1));
            assert(spec_scan_attrs(toks, p + 1) == spec_scan_attrs(toks, p + 2));
            assert(spec_scan_attrs(toks, p + 2) == spec_scan_attrs(toks, p + 3));
        } else {
            assert(spec_scan_attrs(toks, p) == spec_scan_attrs(toks, p + 1));
        }
    }
}

/// A printed attribute list parses back, over exactly its range, to the
/// attributes it prints.
proof fn lemma_attrs_complete(ms: Seq<NodeView>, toks: Seq<Token>, p: int, b: int)
    requires
        prints_attrs_at(ms, toks, p, b),
        0 <= p,
        b <= toks.len(),
    ensures
        spec_attributes_from(toks, p, b) == Ok::<Seq<NodeView>, ParseError>(ms),
    decreases ms.len(),
{
    if ms.len() == 0 {
        assert(ms =~= Seq::<NodeView>::empty());
    } else {
        let r = choose|r: int|
            #[trigger] prints_attr_at(ms[0], toks, p, r) && prints_attrs_at(ms.drop_first(), toks, r, b);
        lemma_prints_attr_bounds(ms[0], toks, p, r);
        lemma_prints_attrs_bounds(ms.drop_first(), toks, r, b);
        assert(ms[0].attributes =~= Seq::<NodeView>::empty());
        assert(ms[0].child_nodes =~= Seq::<NodeView>::empty());
        if ms[0].value is None && ms.drop_first().len() > 0 {
            let r2 = choose|r2: int|
                #[trigger] prints_attr_at(ms.drop_first()[0], toks, r, r2)
                && prints_attrs_at(ms.drop_first().drop_first(), toks, r2, b);
            assert(toks[r].kind is Ident);
        }
        assert(spec_attribute(toks, p, b) == Some((ms[0], r)));
        lemma_attrs_complete(ms.drop_first(), toks, r, b);
        assert(seq![ms[0]] + ms.drop_first() =~= ms);
    }
}

/// A printed node parses back, by the dispatcher, to exactly that node.
proof fn lemma_node_complete(m: NodeView, toks: Seq<Token>, p: int, q: int)
    requires
        prints_at(m, toks, p, q),
    ensures
        spec_node(toks, p, false) == Ok::<(Seq<NodeView>, int), ParseError>((seq![m], q)),
    decreases m, 1int,
{
    lemma_prints_at_bounds(m, toks, p, q);
    match m.node_type {
        NodeType::Text => {
            assert(m.attributes =~= Seq::<NodeView>::empty());
            assert(m.child_nodes =~= Seq::<NodeView>::empty());
            assert(spec_text(toks, p) == Some((m, p + 1)));
        },
        NodeType::Block => {
            assert(m.attributes =~= Seq::<NodeView>::empty());
            assert(m.child_nodes =~= Seq::<NodeView>::empty());
            assert(spec_block(toks, p) == Some((m, p + 1)));
        },
        NodeType::Element => {
            let b = choose|b: int|
                #[trigger] prints_attrs_at(m.attributes, toks, p + 2, b) && ({
                    ||| (m.child_nodes.len() == 0 && b + 1 < toks.len()
                        && toks[b].kind is Slash && toks[b + 1].kind is Gt && q == b + 2)
                    ||| (b < toks.len() && toks[b].kind is Gt
                        && exists|c: int|
                            #[trigger] print_cut(c)
                            && prints_seq_at(m.child_nodes, toks, b + 1, c)
                            && c + 3 < toks.len()
                            && toks[c].kind is Lt
                            && toks[c + 1].kind is Slash
                            && (toks[c + 2].kind matches TokenKind::Ident(cn) && cn@ == m.name)
                            && toks[c + 3].kind is Gt
                            && q == c + 4)
                });
            lemma_prints_attrs_bounds(m.attributes, toks, p + 2, b);
            let name_pos = toks[p + 1].pos;
            assert(spec_text(toks, p) is None);
            assert(spec_block(toks, p) is None);
            assert(spec_tag_close(toks, p) is None);
            if toks[b].kind is Slash {
                lemma_scan_over_attrs(m.attributes, toks, p + 2, b);
                lemma_attrs_complete(m.attributes, toks, p + 2, b);
                assert(m.child_nodes =~= Seq::<NodeView>::empty());
                assert(spec_element(toks, p, false) == Ok::<(NodeView, int), ParseError>((m, q)));
            } else {
                let c = choose|c: int|
                    #[trigger] print_cut(c)
                    && prints_seq_at(m.child_nodes, toks, b + 1, c)
                    && c + 3 < toks.len()
                    && toks[c].kind is Lt
                    && toks[c + 1].kind is Slash
                    && (toks[c + 2].kind matches TokenKind::Ident(cn) && cn@ == m.name)
                    && toks[c + 3].kind is Gt
                    && q == c + 4;
                lemma_scan_over_attrs(m.attributes, toks, p + 2, b);
                lemma_attrs_complete(m.attributes, toks, p + 2, b);
                assert(spec_tag_close(toks, c) matches Some((cn, _cp, cq)) && cn == m.name && cq == c + 4);
                lemma_children_complete(m.child_nodes, toks, b + 1, c, m.name, name_pos);
                assert(spec_element(toks, p, false) == Ok::<(NodeView, int), ParseError>((m, q)));
            }
        },
        NodeType::Attribute => {},
    }
}

/// A printed sibling sequence, standing just before a close tag naming
/// `name`, parses back by the child scan to exactly that sequence,
/// stopping at the close tag.
proof fn lemma_children_complete(ms: Seq<NodeView>, toks: Seq<Token>, p: int, q: int, name: Seq<char>, name_pos: usize)
    requires
        prints_seq_at(ms, toks, p, q),
        spec_tag_close(toks, q) matches Some((cn, _cp, _cq)) && cn == name,
        0 <= p,
    ensures
        spec_children(toks, p, name, name_pos, false) == Ok::<(Seq<NodeView>, int), ParseError>((ms, q)),
    decreases ms, 0int,
{
    if ms.len() == 0 {
        assert(ms =~= Seq::<NodeView>::empty());
    } else {
        let r = choose|r: int|
            #[trigger] print_cut(r)
            && prints_at(ms[0], toks, p, r) && prints_seq_at(ms.drop_first(), toks, r, q);
        lemma_prints_at_bounds(ms[0], toks, p, r);
        assert(spec_tag_close(toks, p) is None);
        lemma_node_complete(ms[0], toks, p, r);
        lemma_children_complete(ms.drop_first(), toks, r, q, name, name_pos);
        assert(seq![ms[0]] + ms.drop_first() =~= ms);
    }
}

/// Re-parsing a printed form yields the structurally identical tree: any
/// token stream that prints a node sequence — in particular any
/// pretty-printed form of a previous parse result — parses back to
/// exactly that sequence.
pub proof fn lemma_print_reparse(ms: Seq<NodeView>, toks: Seq<Token>)
    requires
        prints_seq_at(ms, toks, 0, toks.len() as int),
    ensures
        spec_parse(toks, false) == Ok::<Seq<NodeView>, ParseError>(ms),
{
    lemma_parse_from_complete(ms, toks, 0);
}

/// The whole-input form of `lemma_print_reparse`.
proof fn lemma_parse_from_complete(ms: Seq<NodeView>, toks: Seq<Token>, p: int)
    requires
        prints_seq_at(ms, toks, p, toks.len() as int),
        0 <= p <= toks.len(),
    ensures
        spec_parse_from(toks, p, false) == Ok::<Seq<NodeView>, ParseError>(ms),
    decreases ms.len(),
{
    if ms.len() == 0 {
        assert(ms =~= Seq::<NodeView>::empty());
    } else {
        let r = choose|r: int|
            #[trigger] print_cut(r)
            && prints_at(ms[0], toks, p, r) && prints_seq_at(ms.drop_first(), toks, r, toks.len() as int);
        lemma_prints_at_bounds(ms[0], toks, p, r);
        lemma_node_complete(ms[0], toks, p, r);
        lemma_parse_from_complete(ms.drop_first(), toks, r);
        assert(seq![ms[0]] + ms.drop_first() =~= ms);
    }
}

} // verus!
