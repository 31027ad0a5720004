//! The parser's output: a tree of nodes, and its mathematical model.
//!
//! `Node` is the executable tree the parser builds. `NodeView` is its
//! spec-level model: the same shape with mathematical sequences in place
//! of vectors and strings. `node_matches` ties the two together.

use vstd::prelude::*;

verus! {

/// The four shapes a parsed node can take.
#[derive(Clone, Copy, PartialEq, Eq, Structural, Debug)]
pub enum NodeType {
    /// A tag pair (or self-closing tag) with attributes and content children.
    Element,
    /// A single literal expression.
    Text,
    /// An opaque brace-delimited embedded expression.
    Block,
    /// A key with an optional value, attached to an element's open tag.
    Attribute,
}

/// The payload of a text node, a block node or an attribute value:
/// either a literal/identifier expression or an opaque embedded expression.
#[derive(Debug)]
pub enum Value {
    /// A literal or identifier/path expression, kept verbatim.
    Literal(String),
    /// The opaque interior of a brace-delimited group, kept verbatim.
    Block(String),
}

/// One node of the output tree.
///
/// Every child is owned by exactly one parent; attribute nodes appear only
/// in `attributes` of an element, never under `child_nodes`.
#[derive(Debug)]
pub struct Node {
    /// The tag name for elements, the key for attributes, and the fixed
    /// names `#text` and `#block` for the two leaf shapes.
    pub node_name: String,
    /// The payload for text, block and valued attribute nodes.
    pub node_value: Option<Value>,
    /// Which shape this node has.
    pub node_type: NodeType,
    /// The attribute nodes of an element's open tag, in source order.
    pub attributes: Vec<Node>,
    /// The content children of an element, in source order.
    pub child_nodes: Vec<Node>,
}

/// Spec-level model of a `Value`.
pub enum ValueView {
    Literal(Seq<char>),
    Block(Seq<char>),
}

/// Spec-level model of a `Node`.
pub struct NodeView {
    pub name: Seq<char>,
    pub value: Option<ValueView>,
    pub node_type: NodeType,
    pub attributes: Seq<NodeView>,
    pub child_nodes: Seq<NodeView>,
}

/// Does the executable value carry exactly the payload of the model?
pub open spec fn value_matches(v: Value, m: ValueView) -> bool {
    match (v, m) {
        (Value::Literal(s), ValueView::Literal(t)) => s@ == t,
        (Value::Block(s), ValueView::Block(t)) => s@ == t,
        _ => false,
    }
}

/// Does the executable payload option match the model's?
pub open spec fn option_value_matches(v: Option<Value>, m: Option<ValueView>) -> bool {
    match (v, m) {
        (Option::None, Option::None) => true,
        (Option::Some(v0), Option::Some(m0)) => value_matches(v0, m0),
        _ => false,
    }
}

/// Does the executable node carry exactly the names, payloads and structure
/// of the model node?
pub open spec fn node_matches(n: Node, m: NodeView) -> bool
    decreases m, 1int,
{
    &&& n.node_name@ == m.name
    &&& option_value_matches(n.node_value, m.value)
    &&& n.node_type == m.node_type
    &&& nodes_match(n.attributes@, m.attributes)
    &&& nodes_match(n.child_nodes@, m.child_nodes)
}

/// Elementwise `node_matches` over two equally long sequences.
pub open spec fn nodes_match(ns: Seq<Node>, ms: Seq<NodeView>) -> bool
    decreases ms, 0int,
{
    &&& ns.len() == ms.len()
    &&& forall|i: int| 0 <= i < ms.len() ==> node_matches(ns[i], #[trigger] ms[i])
}

/// Matching is preserved by concatenation, elementwise.
pub proof fn lemma_nodes_match_concat(a: Seq<Node>, b: Seq<Node>, ma: Seq<NodeView>, mb: Seq<NodeView>)
    requires
        nodes_match(a, ma),
        nodes_match(b, mb),
    ensures
        nodes_match(a + b, ma + mb),
{
    assert forall|i: int| 0 <= i < (ma + mb).len() implies node_matches((a + b)[i], #[trigger] (ma + mb)[i]) by {
        if i < ma.len() {
            assert((a + b)[i] == a[i]);
            assert((ma + mb)[i] == ma[i]);
        } else {
            assert((a + b)[i] == b[i - a.len()]);
            assert((ma + mb)[i] == mb[i - ma.len()]);
        }
    }
}

/// Matching is preserved by appending one matching node.
pub proof fn lemma_nodes_match_push(a: Seq<Node>, ma: Seq<NodeView>, n: Node, m: NodeView)
    requires
        nodes_match(a, ma),
        node_matches(n, m),
    ensures
        nodes_match(a.push(n), ma.push(m)),
{
    assert forall|i: int| 0 <= i < ma.push(m).len() implies node_matches(a.push(n)[i], #[trigger] ma.push(m)[i]) by {
        if i < ma.len() {
            assert(a.push(n)[i] == a[i]);
            assert(ma.push(m)[i] == ma[i]);
        } else {
            assert(a.push(n)[i] == n);
            assert(ma.push(m)[i] == m);
        }
    }
}

} // verus!
