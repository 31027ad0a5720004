use rsx_parser::node::{Node, NodeType, Value};
use rsx_parser::parser::{Parser, ParserConfig};
use rsx_parser::token::{Delim, Token, TokenKind};

fn lt(pos: usize) -> Token {
    Token { kind: TokenKind::Lt, pos }
}

fn gt(pos: usize) -> Token {
    Token { kind: TokenKind::Gt, pos }
}

fn slash(pos: usize) -> Token {
    Token { kind: TokenKind::Slash, pos }
}

fn equals(pos: usize) -> Token {
    Token { kind: TokenKind::Equals, pos }
}

fn ident(s: &str, pos: usize) -> Token {
    Token { kind: TokenKind::Ident(s.to_owned()), pos }
}

fn lit(s: &str, pos: usize) -> Token {
    Token { kind: TokenKind::Literal(s.to_owned()), pos }
}

fn brace(s: &str, pos: usize) -> Token {
    Token { kind: TokenKind::Group(Delim::Brace, s.to_owned()), pos }
}

fn parse_tree(tokens: Vec<Token>) -> Vec<Node> {
    Parser::new(ParserConfig { flatten: false }).parse(&tokens).expect("parse should succeed")
}

fn parse_flat(tokens: Vec<Token>) -> Vec<Node> {
    Parser::new(ParserConfig { flatten: true }).parse(&tokens).expect("parse should succeed")
}

fn value_eq(a: &Option<Value>, b: &Option<Value>) -> bool {
    match (a, b) {
        (None, None) => true,
        (Some(Value::Literal(x)), Some(Value::Literal(y))) => x == y,
        (Some(Value::Block(x)), Some(Value::Block(y))) => x == y,
        _ => false,
    }
}

fn same_tree(a: &Node, b: &Node) -> bool {
    a.node_name == b.node_name
        && a.node_type == b.node_type
        && value_eq(&a.node_value, &b.node_value)
        && same_forest(&a.attributes, &b.attributes)
        && same_forest(&a.child_nodes, &b.child_nodes)
}

fn same_forest(a: &[Node], b: &[Node]) -> bool {
    a.len() == b.len() && a.iter().zip(b.iter()).all(|(x, y)| same_tree(x, y))
}

#[test]
fn empty_input_yields_no_nodes() {
    let nodes = parse_tree(vec![]);
    assert!(nodes.is_empty());
}

#[test]
fn single_text_node() {
    let nodes = parse_tree(vec![lit("\"hello\"", 0)]);
    assert_eq!(nodes.len(), 1);
    assert_eq!(nodes[0].node_type, NodeType::Text);
    assert_eq!(nodes[0].node_name, "#text");
    assert!(matches!(&nodes[0].node_value, Some(Value::Literal(s)) if s == "\"hello\""));
    assert!(nodes[0].attributes.is_empty());
    assert!(nodes[0].child_nodes.is_empty());
}

#[test]
fn single_block_node() {
    let nodes = parse_tree(vec![brace("some_expr()", 0)]);
    assert_eq!(nodes.len(), 1);
    assert_eq!(nodes[0].node_type, NodeType::Block);
    assert_eq!(nodes[0].node_name, "#block");
    assert!(matches!(&nodes[0].node_value, Some(Value::Block(s)) if s == "some_expr()"));
}

#[test]
fn element_with_self_closing_child() {
    // <a><b/></a>
    let nodes = parse_tree(vec![
        lt(0),
        ident("a", 1),
        gt(2),
        lt(3),
        ident("b", 4),
        slash(5),
        gt(6),
        lt(7),
        slash(8),
        ident("a", 9),
        gt(10),
    ]);
    assert_eq!(nodes.len(), 1);
    let a = &nodes[0];
    assert_eq!(a.node_type, NodeType::Element);
    assert_eq!(a.node_name, "a");
    assert!(a.node_value.is_none());
    assert!(a.attributes.is_empty());
    assert_eq!(a.child_nodes.len(), 1);
    let b = &a.child_nodes[0];
    assert_eq!(b.node_type, NodeType::Element);
    assert_eq!(b.node_name, "b");
    assert!(b.child_nodes.is_empty());
}

#[test]
fn self_closing_and_open_close_pairs_yield_same_tree() {
    // <a/> and <a></a> differ only in the self-closing marker.
    let short = parse_tree(vec![lt(0), ident("a", 1), slash(2), gt(3)]);
    let long = parse_tree(vec![
        lt(0),
        ident("a", 1),
        gt(2),
        lt(3),
        slash(4),
        ident("a", 5),
        gt(6),
    ]);
    assert_eq!(short.len(), 1);
    assert_eq!(long.len(), 1);
    assert!(same_tree(&short[0], &long[0]));
    assert_eq!(short[0].node_name, "a");
    assert!(short[0].child_nodes.is_empty());
}

#[test]
fn attributes_in_order_with_literal_and_block_values() {
    // <a x=1 y={expr}/>
    let nodes = parse_tree(vec![
        lt(0),
        ident("a", 1),
        ident("x", 2),
        equals(3),
        lit("1", 4),
        ident("y", 5),
        equals(6),
        brace("expr", 7),
        slash(8),
        gt(9),
    ]);
    assert_eq!(nodes.len(), 1);
    let a = &nodes[0];
    assert_eq!(a.node_name, "a");
    assert_eq!(a.attributes.len(), 2);
    let x = &a.attributes[0];
    assert_eq!(x.node_type, NodeType::Attribute);
    assert_eq!(x.node_name, "x");
    assert!(matches!(&x.node_value, Some(Value::Literal(s)) if s == "1"));
    let y = &a.attributes[1];
    assert_eq!(y.node_type, NodeType::Attribute);
    assert_eq!(y.node_name, "y");
    assert!(matches!(&y.node_value, Some(Value::Block(s)) if s == "expr"));
}

#[test]
fn attribute_without_value() {
    // <a x/>
    let nodes = parse_tree(vec![lt(0), ident("a", 1), ident("x", 2), slash(3), gt(4)]);
    assert_eq!(nodes[0].attributes.len(), 1);
    assert_eq!(nodes[0].attributes[0].node_name, "x");
    assert!(nodes[0].attributes[0].node_value.is_none());
}

#[test]
fn attribute_with_identifier_value() {
    // <a x=y/>
    let nodes = parse_tree(vec![
        lt(0),
        ident("a", 1),
        ident("x", 2),
        equals(3),
        ident("y", 4),
        slash(5),
        gt(6),
    ]);
    let x = &nodes[0].attributes[0];
    assert!(matches!(&x.node_value, Some(Value::Literal(s)) if s == "y"));
}

#[test]
fn mixed_children_in_document_order() {
    // <a>"1"<b></b>{c}</a>
    let nodes = parse_tree(vec![
        lt(0),
        ident("a", 1),
        gt(2),
        lit("\"1\"", 3),
        lt(4),
        ident("b", 5),
        gt(6),
        lt(7),
        slash(8),
        ident("b", 9),
        gt(10),
        brace("c", 11),
        lt(12),
        slash(13),
        ident("a", 14),
        gt(15),
    ]);
    let a = &nodes[0];
    assert_eq!(a.child_nodes.len(), 3);
    assert_eq!(a.child_nodes[0].node_type, NodeType::Text);
    assert_eq!(a.child_nodes[1].node_type, NodeType::Element);
    assert_eq!(a.child_nodes[1].node_name, "b");
    assert_eq!(a.child_nodes[2].node_type, NodeType::Block);
}

#[test]
fn multiple_root_nodes() {
    // <a/><b/>
    let nodes = parse_tree(vec![
        lt(0),
        ident("a", 1),
        slash(2),
        gt(3),
        lt(4),
        ident("b", 5),
        slash(6),
        gt(7),
    ]);
    assert_eq!(nodes.len(), 2);
    assert_eq!(nodes[0].node_name, "a");
    assert_eq!(nodes[1].node_name, "b");
}

#[test]
fn flattened_output_is_preorder() {
    // <a><b/>"t"</a> with flatten: a, b, #text as siblings, children cleared.
    let nodes = parse_flat(vec![
        lt(0),
        ident("a", 1),
        gt(2),
        lt(3),
        ident("b", 4),
        slash(5),
        gt(6),
        lit("\"t\"", 7),
        lt(8),
        slash(9),
        ident("a", 10),
        gt(11),
    ]);
    assert_eq!(nodes.len(), 3);
    assert_eq!(nodes[0].node_name, "a");
    assert_eq!(nodes[0].node_type, NodeType::Element);
    assert!(nodes[0].child_nodes.is_empty());
    assert_eq!(nodes[1].node_name, "b");
    assert_eq!(nodes[1].node_type, NodeType::Element);
    assert!(nodes[1].child_nodes.is_empty());
    assert_eq!(nodes[2].node_type, NodeType::Text);
}

#[test]
fn flattening_matches_preorder_of_nested_parse() {
    // <a><b>"x"</b></a><c/>
    let tokens = || {
        vec![
            lt(0),
            ident("a", 1),
            gt(2),
            lt(3),
            ident("b", 4),
            gt(5),
            lit("\"x\"", 6),
            lt(7),
            slash(8),
            ident("b", 9),
            gt(10),
            lt(11),
            slash(12),
            ident("a", 13),
            gt(14),
            lt(15),
            ident("c", 16),
            slash(17),
            gt(18),
        ]
    };
    let flat = parse_flat(tokens());
    let names: Vec<&str> = flat.iter().map(|n| n.node_name.as_str()).collect();
    assert_eq!(names, vec!["a", "b", "#text", "c"]);
    assert!(flat.iter().all(|n| n.child_nodes.is_empty()));
    // flattening keeps attributes on their nodes: nested parse agrees on
    // names and order with the flat one, read in pre-order.
    let tree = parse_tree(tokens());
    assert_eq!(tree.len(), 2);
    assert_eq!(tree[0].child_nodes[0].child_nodes[0].node_type, NodeType::Text);
}

#[test]
fn reparsing_pretty_printed_form_yields_identical_tree() {
    // <a x=1><b/></a>, pretty-printed with an explicit close pair for b,
    // parses to a structurally identical tree.
    let first = parse_tree(vec![
        lt(0),
        ident("a", 1),
        ident("x", 2),
        equals(3),
        lit("1", 4),
        gt(5),
        lt(6),
        ident("b", 7),
        slash(8),
        gt(9),
        lt(10),
        slash(11),
        ident("a", 12),
        gt(13),
    ]);
    let reprinted = parse_tree(vec![
        lt(100),
        ident("a", 101),
        ident("x", 102),
        equals(103),
        lit("1", 104),
        gt(105),
        lt(106),
        ident("b", 107),
        gt(108),
        lt(109),
        slash(110),
        ident("b", 111),
        gt(112),
        lt(113),
        slash(114),
        ident("a", 115),
        gt(116),
    ]);
    assert_eq!(first.len(), 1);
    assert_eq!(reprinted.len(), 1);
    assert!(same_tree(&first[0], &reprinted[0]));
}

#[test]
fn default_config_keeps_tree_nested() {
    let config = ParserConfig::default();
    assert!(!config.flatten);
    let nodes = Parser::new(config)
        .parse(&vec![
            lt(0),
            ident("a", 1),
            gt(2),
            lt(3),
            ident("b", 4),
            slash(5),
            gt(6),
            lt(7),
            slash(8),
            ident("a", 9),
            gt(10),
        ])
        .expect("parse should succeed");
    assert_eq!(nodes.len(), 1);
    assert_eq!(nodes[0].child_nodes.len(), 1);
}
