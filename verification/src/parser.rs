//! The backtracking recursive-descent parser.
//!
//! Every grammar rule takes the token stream and a cursor — a plain
//! position, cheap to copy — and returns, on success, what it parsed
//! together with the cursor just past the consumed tokens. Speculation is
//! fork-and-commit: a rule that fails returns no cursor, so the caller
//! keeps its own, and a failed trial can never advance the real position.
//!
//! Each rule's contract states that it returns exactly what the grammar
//! (`crate::grammar`) says: the same model tree on success, the same
//! positioned error on failure.

use vstd::prelude::*;

use crate::error::{ParseError, ParseErrorKind};
use crate::grammar::{
    error_at, spec_attribute, spec_attributes_from, spec_block, spec_children, spec_element,
    spec_node, spec_parse, spec_parse_from, spec_scan_attrs, spec_tag_close, spec_tag_open,
    spec_text, without_children,
};
use crate::node::{
    lemma_nodes_match_concat, lemma_nodes_match_push, node_matches, nodes_match,
    option_value_matches, Node, NodeType, NodeView, Value,
};
use crate::token::{Delim, Token, TokenKind};

verus! {

/// Configures the `Parser` behavior.
#[derive(Clone, Copy, Debug)]
pub struct ParserConfig {
    /// Whether the returned node tree should be nested or flat.
    pub flatten: bool,
}

impl Default for ParserConfig {
    /// The default configuration: nested (tree-shaped) output.
    fn default() -> (c: Self)
        ensures
            c.flatten == false,
    {
        ParserConfig { flatten: false }
    }
}

/// An open tag once parsed: its name, the name token's source position,
/// its attribute nodes, and whether it was self-closing.
struct Tag {
    name: String,
    name_pos: usize,
    attributes: Vec<Node>,
    selfclosing: bool,
}

/// The markup parser.
pub struct Parser {
    config: ParserConfig,
}

/// Does the remaining child scan, composed after what is already
/// accumulated, still yield what the whole child scan from `p0` yields?
spec fn children_step(toks: Seq<Token>, name: Seq<char>, name_pos: usize, flatten: bool, p0: int, acc: Seq<NodeView>, at: int) -> bool {
    match spec_children(toks, at, name, name_pos, flatten) {
        Ok((rest, r)) => spec_children(toks, p0, name, name_pos, flatten)
            == Ok::<(Seq<NodeView>, int), ParseError>((acc + rest, r)),
        Err(e) => spec_children(toks, p0, name, name_pos, flatten)
            == Err::<(Seq<NodeView>, int), ParseError>(e),
    }
}

/// The same composition, for the attribute-list rule.
spec fn attrs_step(toks: Seq<Token>, lo: int, hi: int, acc: Seq<NodeView>, at: int) -> bool {
    match spec_attributes_from(toks, at, hi) {
        Ok(rest) => spec_attributes_from(toks, lo, hi) == Ok::<Seq<NodeView>, ParseError>(acc + rest),
        Err(e) => spec_attributes_from(toks, lo, hi) == Err::<Seq<NodeView>, ParseError>(e),
    }
}

/// The same composition, for the whole-input rule.
spec fn parse_step(toks: Seq<Token>, flatten: bool, acc: Seq<NodeView>, at: int) -> bool {
    match spec_parse_from(toks, at, flatten) {
        Ok(rest) => spec_parse_from(toks, 0, flatten) == Ok::<Seq<NodeView>, ParseError>(acc + rest),
        Err(e) => spec_parse_from(toks, 0, flatten) == Err::<Seq<NodeView>, ParseError>(e),
    }
}

impl Parser {
    /// Whether this parser flattens its output (pre-order node list)
    /// rather than returning the nested tree.
    pub closed spec fn flatten_mode(&self) -> bool {
        self.config.flatten
    }

    /// Create a new parser with the given config.
    pub fn new(config: ParserConfig) -> (p: Parser)
        ensures
            p.flatten_mode() == config.flatten,
    {
        Parser { config }
    }

    /// Parse a whole token stream into root nodes — nested, or flattened
    /// to a single pre-order sequence when so configured — or the first
    /// positioned error, exactly as the grammar prescribes.
    #[verifier::loop_isolation(false)]
    pub fn parse(&self, tokens: &Vec<Token>) -> (r: Result<Vec<Node>, ParseError>)
        ensures
            match (r, spec_parse(tokens@, self.flatten_mode())) {
                (Ok(ns), Ok(ms)) => nodes_match(ns@, ms),
                (Err(e), Err(me)) => e == me,
                _ => false,
            },
    {
        let ghost flatten = self.flatten_mode();
        let mut nodes: Vec<Node> = Vec::new();
        let ghost mut ms_acc: Seq<NodeView> = Seq::empty();
        let mut at: usize = 0;
        proof {
            if let Ok(rest) = spec_parse_from(tokens@, 0, flatten) {
                assert(Seq::<NodeView>::empty() + rest =~= rest);
            }
        }
        while at < tokens.len()
            invariant
                at <= tokens@.len(),
                nodes_match(nodes@, ms_acc),
                parse_step(tokens@, flatten, ms_acc, at as int),
            decreases tokens@.len() - at,
        {
            match self.node(tokens, at) {
                Err(e) => {
                    return Err(e);
                },
                Ok((mut ns, next)) => {
                    proof {
                        let (mns, mq) = spec_node(tokens@, at as int, flatten)->Ok_0;
                        if let Ok(rest2) = spec_parse_from(tokens@, next as int, flatten) {
                            assert(ms_acc + (mns + rest2) =~= (ms_acc + mns) + rest2);
                        }
                        lemma_nodes_match_concat(nodes@, ns@, ms_acc, mns);
                        ms_acc = ms_acc + mns;
                    }
                    nodes.append(&mut ns);
                    at = next;
                },
            }
        }
        proof {
            assert(ms_acc + Seq::<NodeView>::empty() =~= ms_acc);
        }
        Ok(nodes)
    }

    /// Dispatcher: try the text rule, then the block rule, then the
    /// element rule, each by fork-and-commit. In flattened mode the
    /// element's children are lifted out to follow it as siblings.
    fn node(&self, toks: &Vec<Token>, cur: usize) -> (r: Result<(Vec<Node>, usize), ParseError>)
        requires
            cur <= toks@.len(),
        ensures
            match (r, spec_node(toks@, cur as int, self.flatten_mode())) {
                (Ok((ns, q)), Ok((ms, mq))) => nodes_match(ns@, ms) && q as int == mq && cur < q <= toks@.len(),
                (Err(e), Err(me)) => e == me,
                _ => false,
            },
        decreases toks@.len() - cur, 1int,
    {
        if let Some((n, q)) = self.text(toks, cur) {
            let mut out: Vec<Node> = Vec::new();
            out.push(n);
            return Ok((out, q));
        }
        if let Some((n, q)) = self.block(toks, cur) {
            let mut out: Vec<Node> = Vec::new();
            out.push(n);
            return Ok((out, q));
        }
        match self.element(toks, cur) {
            Err(e) => Err(e),
            Ok((n, q)) => {
                let ghost m = spec_element(toks@, cur as int, self.flatten_mode())->Ok_0.0;
                if self.config.flatten {
                    let Node { node_name, node_value, node_type, attributes, child_nodes } = n;
                    let head = Node {
                        node_name,
                        node_value,
                        node_type,
                        attributes,
                        child_nodes: Vec::new(),
                    };
                    let mut out: Vec<Node> = Vec::new();
                    out.push(head);
                    let mut rest = child_nodes;
                    proof {
                        assert(head.node_name@ == m.name);
                        assert(option_value_matches(head.node_value, m.value));
                        assert(nodes_match(head.attributes@, m.attributes));
                        assert(nodes_match(head.child_nodes@, Seq::<NodeView>::empty()));
                        assert(node_matches(head, without_children(m)));
                        assert(out@ =~= seq![head]);
                        assert(nodes_match(out@, seq![without_children(m)]));
                        lemma_nodes_match_concat(out@, rest@, seq![without_children(m)], m.child_nodes);
                    }
                    out.append(&mut rest);
                    Ok((out, q))
                } else {
                    let mut out: Vec<Node> = Vec::new();
                    out.push(n);
                    proof {
                        assert(nodes_match(out@, seq![m]));
                    }
                    Ok((out, q))
                }
            },
        }
    }

    /// Element rule: refuse a stray close tag, parse the open tag, then —
    /// unless self-closing — children until the matching close tag, which
    /// is consumed.
    #[verifier::loop_isolation(false)]
    fn element(&self, toks: &Vec<Token>, cur: usize) -> (r: Result<(Node, usize), ParseError>)
        requires
            cur <= toks@.len(),
        ensures
            match (r, spec_element(toks@, cur as int, self.flatten_mode())) {
                (Ok((n, q)), Ok((m, mq))) => node_matches(n, m) && q as int == mq && cur < q <= toks@.len(),
                (Err(e), Err(me)) => e == me,
                _ => false,
            },
        decreases toks@.len() - cur, 0int,
    {
        if let Some((_close_name, close_pos, _q)) = self.tag_close(toks, cur) {
            return Err(ParseError { kind: ParseErrorKind::OrphanCloseTag, pos: close_pos });
        }

        let (tag, after_open) = match self.tag_open(toks, cur) {
            Err(e) => {
                return Err(e);
            },
            Ok(v) => v,
        };
        let ghost flatten = self.flatten_mode();
        let ghost mattrs = spec_tag_open(toks@, cur as int)->Ok_0.2;

        if tag.selfclosing {
            let node = Node {
                node_name: tag.name,
                node_value: None,
                node_type: NodeType::Element,
                attributes: tag.attributes,
                child_nodes: Vec::new(),
            };
            return Ok((node, after_open));
        }

        let ghost name_v: Seq<char> = tag.name@;
        let mut child_nodes: Vec<Node> = Vec::new();
        let ghost mut ms_acc: Seq<NodeView> = Seq::empty();
        let mut at = after_open;
        proof {
            if let Ok((rest, r)) = spec_children(toks@, at as int, name_v, tag.name_pos, flatten) {
                assert(Seq::<NodeView>::empty() + rest =~= rest);
            }
        }
        let mut has = match self.has_child_nodes(&tag, toks, at) {
            Err(e) => {
                return Err(e);
            },
            Ok(b) => b,
        };
        while has
            invariant
                cur < at <= toks@.len(),
                nodes_match(child_nodes@, ms_acc),
                children_step(toks@, name_v, tag.name_pos, flatten, after_open as int, ms_acc, at as int),
                has ==> at < toks@.len() && spec_tag_close(toks@, at as int) is None,
                has == false ==> (spec_tag_close(toks@, at as int) matches Some((cn, _cp, _cq)) && cn == name_v),
            decreases toks@.len() - at,
        {
            let (mut ns, next) = match self.node(toks, at) {
                Err(e) => {
                    return Err(e);
                },
                Ok(v) => v,
            };
            proof {
                let (mns, mq) = spec_node(toks@, at as int, flatten)->Ok_0;
                if let Ok((rest2, r2)) = spec_children(toks@, next as int, name_v, tag.name_pos, flatten) {
                    assert(ms_acc + (mns + rest2) =~= (ms_acc + mns) + rest2);
                }
                lemma_nodes_match_concat(child_nodes@, ns@, ms_acc, mns);
                ms_acc = ms_acc + mns;
            }
            child_nodes.append(&mut ns);
            at = next;
            has = match self.has_child_nodes(&tag, toks, at) {
                Err(e) => {
                    return Err(e);
                },
                Ok(b) => b,
            };
        }
        proof {
            assert(ms_acc + Seq::<NodeView>::empty() =~= ms_acc);
        }
        let end = match self.tag_close(toks, at) {
            Some((_n, _p, q2)) => q2,
            None => {
                // The loop only stops at a close tag naming this element.
                return Err(ParseError { kind: ParseErrorKind::GrammarMismatch, pos: 0 });
            },
        };
        let node = Node {
            node_name: tag.name,
            node_value: None,
            node_type: NodeType::Element,
            attributes: tag.attributes,
            child_nodes,
        };
        Ok((node, end))
    }

    /// Decide whether another child node follows: empty input here means
    /// the open tag was never closed; a close tag naming this element ends
    /// the children; one naming anything else is a mismatched tree.
    fn has_child_nodes(&self, tag: &Tag, toks: &Vec<Token>, at: usize) -> (r: Result<bool, ParseError>)
        requires
            at <= toks@.len(),
        ensures
            match r {
                Ok(true) => at < toks@.len() && spec_tag_close(toks@, at as int) is None,
                Ok(false) => spec_tag_close(toks@, at as int) matches Some((cn, _cp, _cq)) && cn == tag.name@,
                Err(e) => {
                    ||| (at == toks@.len() && e == error_at(ParseErrorKind::UnterminatedOpenTag, tag.name_pos))
                    ||| (spec_tag_close(toks@, at as int) matches Some((cn, cp, _cq))
                        && cn != tag.name@ && e == error_at(ParseErrorKind::TagNameMismatch, cp))
                },
            },
    {
        if at >= toks.len() {
            return Err(ParseError { kind: ParseErrorKind::UnterminatedOpenTag, pos: tag.name_pos });
        }
        match self.tag_close(toks, at) {
            Some((close_name, close_pos, _q)) => {
                if close_name == tag.name {
                    Ok(false)
                } else {
                    Err(ParseError { kind: ParseErrorKind::TagNameMismatch, pos: close_pos })
                }
            },
            None => Ok(true),
        }
    }

    /// Open-tag rule: `<`, the tag name, the scan for the terminator, and
    /// the bounded attribute sub-parse over the scanned range.
    fn tag_open(&self, toks: &Vec<Token>, cur: usize) -> (r: Result<(Tag, usize), ParseError>)
        requires
            cur <= toks@.len(),
        ensures
            match (r, spec_tag_open(toks@, cur as int)) {
                (Ok((tag, q)), Ok((mname, mpos, mattrs, msc, mq))) =>
                    tag.name@ == mname && tag.name_pos == mpos && nodes_match(tag.attributes@, mattrs)
                    && tag.selfclosing == msc && q as int == mq && cur < q <= toks@.len(),
                (Err(e), Err(me)) => e == me,
                _ => false,
            },
    {
        if !(cur < toks.len() && matches!(&toks[cur].kind, TokenKind::Lt)) {
            let pos = if cur < toks.len() { toks[cur].pos } else { 0 };
            return Err(ParseError { kind: ParseErrorKind::GrammarMismatch, pos });
        }
        if !(cur + 1 < toks.len() && matches!(&toks[cur + 1].kind, TokenKind::Ident(_))) {
            return Err(ParseError { kind: ParseErrorKind::GrammarMismatch, pos: toks[cur].pos });
        }
        let (name, name_pos) = match &toks[cur + 1].kind {
            TokenKind::Ident(s) => (s.clone(), toks[cur + 1].pos),
            _ => {
                return Err(ParseError { kind: ParseErrorKind::GrammarMismatch, pos: toks[cur].pos });
            },
        };
        match self.scan_tag_end(toks, cur + 2) {
            None => Err(ParseError { kind: ParseErrorKind::UnterminatedOpenTag, pos: name_pos }),
            Some((t, selfclosing, after)) => match self.attributes(toks, cur + 2, t) {
                Err(e) => Err(e),
                Ok(attrs) => Ok((
                    Tag { name, name_pos, attributes: attrs, selfclosing },
                    after,
                )),
            },
        }
    }

    /// The token-by-token scan for the tag terminator (`>` or `/>`),
    /// tried once per token so that a terminator-shaped token inside an
    /// attribute value's own group cannot be misidentified.
    #[verifier::loop_isolation(false)]
    fn scan_tag_end(&self, toks: &Vec<Token>, start: usize) -> (r: Option<(usize, bool, usize)>)
        requires
            start <= toks@.len(),
        ensures
            match (r, spec_scan_attrs(toks@, start as int)) {
                (Some((t, selfclosing, q)), Some((mt, msc, mq))) =>
                    t as int == mt && selfclosing == msc && q as int == mq
                    && start <= t && t < q <= toks@.len(),
                (None, None) => true,
                _ => false,
            },
    {
        let mut i = start;
        while i < toks.len()
            invariant
                start <= i <= toks@.len(),
                spec_scan_attrs(toks@, start as int) == spec_scan_attrs(toks@, i as int),
            decreases toks@.len() - i,
        {
            match &toks[i].kind {
                TokenKind::Gt => {
                    return Some((i, false, i + 1));
                },
                TokenKind::Slash => {
                    if i + 1 < toks.len() && matches!(&toks[i + 1].kind, TokenKind::Gt) {
                        return Some((i, true, i + 2));
                    }
                    i = i + 1;
                },
                _ => {
                    i = i + 1;
                },
            }
        }
        None
    }

    /// Close-tag rule: `<`, `/`, the tag name, `>`.
    fn tag_close(&self, toks: &Vec<Token>, cur: usize) -> (r: Option<(String, usize, usize)>)
        requires
            cur <= toks@.len(),
        ensures
            match (r, spec_tag_close(toks@, cur as int)) {
                (Some((name, name_pos, q)), Some((mname, mpos, mq))) =>
                    name@ == mname && name_pos == mpos && q as int == mq && q <= toks@.len(),
                (None, None) => true,
                _ => false,
            },
    {
        if toks.len() >= 4 && cur <= toks.len() - 4 {
            if matches!(&toks[cur].kind, TokenKind::Lt)
                && matches!(&toks[cur + 1].kind, TokenKind::Slash)
                && matches!(&toks[cur + 3].kind, TokenKind::Gt) {
                if let TokenKind::Ident(s) = &toks[cur + 2].kind {
                    return Some((s.clone(), toks[cur + 2].pos, cur + 4));
                }
            }
        }
        None
    }

    /// The attribute-list rule over the bounded range `lo .. hi` of the
    /// open tag's raw attribute tokens.
    #[verifier::loop_isolation(false)]
    fn attributes(&self, toks: &Vec<Token>, lo: usize, hi: usize) -> (r: Result<Vec<Node>, ParseError>)
        requires
            lo <= hi <= toks@.len(),
        ensures
            match (r, spec_attributes_from(toks@, lo as int, hi as int)) {
                (Ok(ns), Ok(ms)) => nodes_match(ns@, ms),
                (Err(e), Err(me)) => e == me,
                _ => false,
            },
    {
        let mut nodes: Vec<Node> = Vec::new();
        let ghost mut ms_acc: Seq<NodeView> = Seq::empty();
        let mut j = lo;
        proof {
            if let Ok(rest) = spec_attributes_from(toks@, lo as int, hi as int) {
                assert(Seq::<NodeView>::empty() + rest =~= rest);
            }
        }
        while j < hi
            invariant
                lo <= j <= hi,
                nodes_match(nodes@, ms_acc),
                attrs_step(toks@, lo as int, hi as int, ms_acc, j as int),
            decreases hi - j,
        {
            match self.attribute(toks, j, hi) {
                None => {
                    return Err(ParseError { kind: ParseErrorKind::MalformedAttribute, pos: toks[j].pos });
                },
                Some(((key, value), q)) => {
                    let node = Node {
                        node_name: key,
                        node_value: value,
                        node_type: NodeType::Attribute,
                        attributes: Vec::new(),
                        child_nodes: Vec::new(),
                    };
                    proof {
                        let (ma, mq) = spec_attribute(toks@, j as int, hi as int)->Some_0;
                        if let Ok(rest2) = spec_attributes_from(toks@, q as int, hi as int) {
                            assert(ms_acc + (seq![ma] + rest2) =~= ms_acc.push(ma) + rest2);
                        }
                        lemma_nodes_match_push(nodes@, ms_acc, node, ma);
                        ms_acc = ms_acc.push(ma);
                    }
                    nodes.push(node);
                    j = q;
                },
            }
        }
        proof {
            assert(ms_acc + Seq::<NodeView>::empty() =~= ms_acc);
        }
        Ok(nodes)
    }

    /// One attribute: an identifier-shaped key, optionally followed by `=`
    /// and a value — a brace group (opaque embedded expression) or a
    /// single literal/identifier token. `None` means "no more attributes".
    fn attribute(&self, toks: &Vec<Token>, at: usize, hi: usize) -> (r: Option<((String, Option<Value>), usize)>)
        requires
            at <= hi <= toks@.len(),
        ensures
            match (r, spec_attribute(toks@, at as int, hi as int)) {
                (Some(((key, value), q)), Some((m, mq))) =>
                    q as int == mq && at < q <= hi
                    && key@ == m.name && option_value_matches(value, m.value),
                (None, None) => true,
                _ => false,
            },
    {
        if !(at < hi) {
            return None;
        }
        let key = match &toks[at].kind {
            TokenKind::Ident(s) => s.clone(),
            _ => {
                return None;
            },
        };
        if at + 1 < hi && matches!(&toks[at + 1].kind, TokenKind::Equals) {
            if at + 2 < hi {
                match &toks[at + 2].kind {
                    TokenKind::Group(d, s) => match d {
                        Delim::Brace => Some(((key, Some(Value::Block(s.clone()))), at + 3)),
                        _ => None,
                    },
                    TokenKind::Literal(s) => Some(((key, Some(Value::Literal(s.clone()))), at + 3)),
                    TokenKind::Ident(s) => Some(((key, Some(Value::Literal(s.clone()))), at + 3)),
                    _ => None,
                }
            } else {
                None
            }
        } else {
            Some(((key, None), at + 1))
        }
    }

    /// Text rule: a single literal expression becomes a `#text` node.
    fn text(&self, toks: &Vec<Token>, cur: usize) -> (r: Option<(Node, usize)>)
        requires
            cur <= toks@.len(),
        ensures
            match (r, spec_text(toks@, cur as int)) {
                (Some((n, q)), Some((m, mq))) => node_matches(n, m) && q as int == mq && q <= toks@.len(),
                (None, None) => true,
                _ => false,
            },
    {
        if cur < toks.len() {
            match &toks[cur].kind {
                TokenKind::Literal(s) => {
                    let n = Node {
                        node_name: "#text".to_owned(),
                        node_value: Some(Value::Literal(s.clone())),
                        node_type: NodeType::Text,
                        attributes: Vec::new(),
                        child_nodes: Vec::new(),
                    };
                    Some((n, cur + 1))
                },
                _ => None,
            }
        } else {
            None
        }
    }

    /// Block rule: a single brace-delimited group becomes a `#block` node;
    /// its interior is opaque foreign-language payload, copied through.
    fn block(&self, toks: &Vec<Token>, cur: usize) -> (r: Option<(Node, usize)>)
        requires
            cur <= toks@.len(),
        ensures
            match (r, spec_block(toks@, cur as int)) {
                (Some((n, q)), Some((m, mq))) => node_matches(n, m) && q as int == mq && q <= toks@.len(),
                (None, None) => true,
                _ => false,
            },
    {
        if cur < toks.len() {
            match &toks[cur].kind {
                TokenKind::Group(d, s) => match d {
                    Delim::Brace => {
                        let n = Node {
                            node_name: "#block".to_owned(),
                            node_value: Some(Value::Block(s.clone())),
                            node_type: NodeType::Block,
                            attributes: Vec::new(),
                            child_nodes: Vec::new(),
                        };
                        Some((n, cur + 1))
                    },
                    _ => None,
                },
                _ => None,
            }
        } else {
            None
        }
    }
}

} // verus!
