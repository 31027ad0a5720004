//! Laws of the parser, stated and proved against the grammar.
//!
//! `lemma_flatten_is_preorder`: flattened output is exactly the pre-order
//! traversal of the nested output, and both modes fail alike.

use vstd::prelude::*;

use crate::grammar::{
    lemma_node_progress, spec_children, spec_element, spec_node, spec_parse, spec_parse_from,
    spec_tag_open, spec_text, spec_block, spec_tag_close, without_children,
};
use crate::node::NodeView;
use crate::token::Token;

verus! {

/// The pre-order traversal of one node: the node itself (child list
/// cleared), then its children's traversals, in order.
pub open spec fn preorder(m: NodeView) -> Seq<NodeView>
    decreases m, 1int,
{
    seq![without_children(m)] + preorder_all(m.child_nodes)
}

/// The pre-order traversal of a sequence of sibling nodes.
pub open spec fn preorder_all(ms: Seq<NodeView>) -> Seq<NodeView>
    decreases ms, 0int,
{
    if ms.len() == 0 {
        Seq::empty()
    } else {
        preorder(ms[0]) + preorder_all(ms.drop_first())
    }
}

/// Pre-order traversal distributes over concatenation of siblings.
pub proof fn lemma_preorder_all_concat(a: Seq<NodeView>, b: Seq<NodeView>)
    ensures
        preorder_all(a + b) == preorder_all(a) + preorder_all(b),
    decreases a.len(),
{
    if a.len() == 0 {
        assert(a + b =~= b);
        assert(preorder_all(a) + preorder_all(b) =~= preorder_all(b));
    } else {
        assert((a + b)[0] == a[0]);
        assert((a + b).drop_first() =~= a.drop_first() + b);
        lemma_preorder_all_concat(a.drop_first(), b);
        assert(preorder(a[0]) + (preorder_all(a.drop_first()) + preorder_all(b))
            =~= (preorder(a[0]) + preorder_all(a.drop_first())) + preorder_all(b));
    }
}

/// The traversal of a single node.
pub proof fn lemma_preorder_all_singleton(m: NodeView)
    ensures
        preorder_all(seq![m]) == preorder(m),
{
    assert(seq![m].drop_first() =~= Seq::<NodeView>::empty());
    assert(preorder(m) + preorder_all(Seq::<NodeView>::empty()) =~= preorder(m));
}

/// One dispatcher step in flattened mode yields exactly the pre-order
/// traversal of the same step's nested result; errors are identical.
pub proof fn lemma_flatten_node(toks: Seq<Token>, p: int)
    ensures
        match (spec_node(toks, p, false), spec_node(toks, p, true)) {
            (Ok((ns, q)), Ok((fs, qf))) => qf == q && fs == preorder_all(ns),
            (Err(e1), Err(e2)) => e1 == e2,
            _ => false,
        },
    decreases toks.len() - p, 1int,
{
    match spec_text(toks, p) {
        Some((t, q)) => {
            lemma_preorder_all_singleton(t);
            assert(preorder_all(t.child_nodes) =~= Seq::<NodeView>::empty());
            assert(preorder(t) =~= seq![t]);
        },
        None => match spec_block(toks, p) {
            Some((b, q)) => {
                lemma_preorder_all_singleton(b);
                assert(preorder_all(b.child_nodes) =~= Seq::<NodeView>::empty());
                assert(preorder(b) =~= seq![b]);
            },
            None => {
                lemma_flatten_element(toks, p);
                match (spec_element(toks, p, false), spec_element(toks, p, true)) {
                    (Ok((e0, q0)), Ok((e1, q1))) => {
                        lemma_preorder_all_singleton(e0);
                        assert(without_children(e1) == without_children(e0));
                        assert(seq![without_children(e1)] + e1.child_nodes
                            =~= preorder(e0));
                    },
                    _ => {},
                }
            },
        },
    }
}

/// One element in flattened mode is the same element whose child list has
/// been replaced by its children's pre-order traversal; errors are
/// identical.
pub proof fn lemma_flatten_element(toks: Seq<Token>, p: int)
    ensures
        match (spec_element(toks, p, false), spec_element(toks, p, true)) {
            (Ok((e0, q0)), Ok((e1, q1))) => q1 == q0
                && e1 == (NodeView { child_nodes: preorder_all(e0.child_nodes), ..e0 }),
            (Err(e1), Err(e2)) => e1 == e2,
            _ => false,
        },
    decreases toks.len() - p, 0int,
{
    if spec_tag_close(toks, p) is None {
        match spec_tag_open(toks, p) {
            Ok((name, name_pos, attrs, selfclosing, q)) => {
                if selfclosing {
                    assert(preorder_all(Seq::<NodeView>::empty()) =~= Seq::<NodeView>::empty());
                } else if p < q <= toks.len() {
                    lemma_flatten_children(toks, q, name, name_pos);
                }
            },
            Err(_e) => {},
        }
    }
}

/// A child scan in flattened mode yields exactly the pre-order traversal
/// of the nested child scan, ending at the same close tag; errors are
/// identical.
pub proof fn lemma_flatten_children(toks: Seq<Token>, p: int, name: Seq<char>, name_pos: usize)
    ensures
        match (spec_children(toks, p, name, name_pos, false), spec_children(toks, p, name, name_pos, true)) {
            (Ok((cs0, r0)), Ok((cs1, r1))) => r1 == r0 && cs1 == preorder_all(cs0),
            (Err(e1), Err(e2)) => e1 == e2,
            _ => false,
        },
    decreases toks.len() - p, 2int,
{
    if 0 <= p < toks.len() {
        if spec_tag_close(toks, p) is None {
            lemma_flatten_node(toks, p);
            lemma_node_progress(toks, p, false);
            match (spec_node(toks, p, false), spec_node(toks, p, true)) {
                (Ok((ns, q)), Ok((fs, qf))) => {
                    if p < q <= toks.len() {
                        lemma_flatten_children(toks, q, name, name_pos);
                        match (spec_children(toks, q, name, name_pos, false), spec_children(toks, q, name, name_pos, true)) {
                            (Ok((rest0, r0)), Ok((rest1, r1))) => {
                                lemma_preorder_all_concat(ns, rest0);
                            },
                            _ => {},
                        }
                    }
                },
                _ => {},
            }
        } else {
            assert(preorder_all(Seq::<NodeView>::empty()) =~= Seq::<NodeView>::empty());
        }
    }
}

/// Flattening is a pure reshaping: for every input, the flattened parse
/// yields exactly the pre-order traversal — same payloads, same
/// pre-order sequencing, attributes untouched on their nodes — of the
/// nested parse, and the two modes fail on the same inputs with the same
/// positioned error.
pub proof fn lemma_flatten_is_preorder(toks: Seq<Token>)
    ensures
        match (spec_parse(toks, false), spec_parse(toks, true)) {
            (Ok(ts), Ok(fs)) => fs == preorder_all(ts),
            (Err(e1), Err(e2)) => e1 == e2,
            _ => false,
        },
{
    lemma_flatten_parse_from(toks, 0);
}

/// The whole-input form of `lemma_flatten_is_preorder`.
pub proof fn lemma_flatten_parse_from(toks: Seq<Token>, p: int)
    ensures
        match (spec_parse_from(toks, p, false), spec_parse_from(toks, p, true)) {
            (Ok(ts), Ok(fs)) => fs == preorder_all(ts),
            (Err(e1), Err(e2)) => e1 == e2,
            _ => false,
        },
    decreases toks.len() - p,
{
    if p < 0 || p >= toks.len() {
        assert(preorder_all(Seq::<NodeView>::empty()) =~= Seq::<NodeView>::empty());
    } else {
        lemma_flatten_node(toks, p);
        lemma_node_progress(toks, p, false);
        match (spec_node(toks, p, false), spec_node(toks, p, true)) {
            (Ok((ns, q)), Ok((fs, qf))) => {
                if p < q <= toks.len() {
                    lemma_flatten_parse_from(toks, q);
                    match (spec_parse_from(toks, q, false), spec_parse_from(toks, q, true)) {
                        (Ok(rest0), Ok(rest1)) => {
                            lemma_preorder_all_concat(ns, rest0);
                        },
                        _ => {},
                    }
                }
            },
            _ => {},
        }
    }
}

} // verus!
