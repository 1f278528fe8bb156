//! A sketched single-pass rewriter over classified nodes.  It tells the
//! interesting tags apart; since its collector keeps nothing, an element's
//! contents always classify to the empty sequence, and `optimize` dissolves
//! an element into its (empty) children and drops everything else.

use crate::html_to_ir::html;
use crate::html_to_ir::optnodes::OptNodes;
use crate::text::str_eq;
use vstd::prelude::*;

verus! {

/// The tags the single-pass rewriter distinguishes.
#[derive(Debug, Clone, Copy, PartialEq, Eq)]
pub enum Tag {
    Code,
    Pre,
    P,
    Table,
    THead,
    TBody,
    TFoot,
    TR,
    TD,
    Img,
    Div,
    UL,
    OL,
    LI,
    Sub,
    Sup,
}

/// A node classified by tag, or a leaf carrying its text.
#[derive(Debug, PartialEq)]
pub enum OptNode {
    Text(String),
    Code(String),
    Pre(String),
    Node(Tag, OptNodes),
    Nothing,
}

/// The mathematical shape of one classified node.
#[verifier::ext_equal]
pub ghost enum OptNodeV {
    Text(Seq<char>),
    Code(Seq<char>),
    Pre(Seq<char>),
    Node(Tag, Seq<OptNodeV>),
    Nothing,
}

pub open spec fn opt_node_view(n: OptNode) -> OptNodeV
    decreases n,
{
    match n {
        OptNode::Text(s) => OptNodeV::Text(s@),
        OptNode::Code(s) => OptNodeV::Code(s@),
        OptNode::Pre(s) => OptNodeV::Pre(s@),
        OptNode::Node(t, ns) => OptNodeV::Node(t, opt_nodes_view(ns.nodes@)),
        OptNode::Nothing => OptNodeV::Nothing,
    }
}

pub open spec fn opt_nodes_view(ns: Seq<OptNode>) -> Seq<OptNodeV>
    decreases ns,
{
    if ns.len() == 0 {
        Seq::empty()
    } else {
        seq![opt_node_view(ns[0])] + opt_nodes_view(ns.drop_first())
    }
}

impl View for OptNode {
    type V = OptNodeV;

    open spec fn view(&self) -> OptNodeV {
        opt_node_view(*self)
    }
}

impl View for OptNodes {
    type V = Seq<OptNodeV>;

    open spec fn view(&self) -> Seq<OptNodeV> {
        opt_nodes_view(self.nodes@)
    }
}

/// The classification one canonical node receives.  Code-bearing tags carry
/// empty text (their flattening was never supplied), and since the collector
/// keeps nothing, every element's contents classify to the empty sequence.
pub open spec fn opt_node_from_spec(n: html::NodeV) -> OptNodeV {
    match n {
        html::NodeV::Text(x) => OptNodeV::Text(x),
        html::NodeV::Element { tag, .. } => {
            if tag == "img"@ {
                OptNodeV::Node(Tag::Img, Seq::empty())
            } else if tag == "pre"@ {
                OptNodeV::Pre(Seq::empty())
            } else if tag == "code"@ {
                OptNodeV::Code(Seq::empty())
            } else if tag == "sub"@ {
                OptNodeV::Node(Tag::Sub, Seq::empty())
            } else if tag == "sup"@ {
                OptNodeV::Node(Tag::Sup, Seq::empty())
            } else if tag == "li"@ {
                OptNodeV::Node(Tag::LI, Seq::empty())
            } else if tag == "ol"@ {
                OptNodeV::Node(Tag::OL, Seq::empty())
            } else if tag == "ul"@ {
                OptNodeV::Node(Tag::UL, Seq::empty())
            } else {
                OptNodeV::Nothing
            }
        },
    }
}

#[verifier::loop_isolation(false)]
fn classify(node: &html::Node) -> (r: OptNode)
    ensures
        r@ == opt_node_from_spec(node@),
    decreases node,
{
    match node {
        html::Node::Text(x) => OptNode::Text(x.clone()),
        html::Node::Element { tag, children, .. } => {
            if str_eq(tag.as_str(), "img") {
                let r = OptNode::Node(Tag::Img, OptNodes::new());
                proof {
                    assert(r@ =~~= opt_node_from_spec(node@));
                }
                r
            } else if str_eq(tag.as_str(), "pre") {
                OptNode::Pre(String::new())
            } else if str_eq(tag.as_str(), "code") {
                OptNode::Code(String::new())
            } else if str_eq(tag.as_str(), "sub") || str_eq(tag.as_str(), "sup") || str_eq(
                tag.as_str(),
                "li",
            ) || str_eq(tag.as_str(), "ol") || str_eq(tag.as_str(), "ul") {
                let t: Tag = if str_eq(tag.as_str(), "sub") {
                    Tag::Sub
                } else if str_eq(tag.as_str(), "sup") {
                    Tag::Sup
                } else if str_eq(tag.as_str(), "li") {
                    Tag::LI
                } else if str_eq(tag.as_str(), "ol") {
                    Tag::OL
                } else {
                    Tag::UL
                };
                let collected = classify_children(children);
                let r = OptNode::Node(t, collected);
                proof {
                    assert(r@ =~~= opt_node_from_spec(node@));
                }
                r
            } else {
                OptNode::Nothing
            }
        },
    }
}

/// Classifies each child in turn and offers it to the collector, which keeps
/// none of them.
#[verifier::loop_isolation(false)]
fn classify_children(children: &html::Nodes) -> (r: OptNodes)
    ensures
        r@ == Seq::<OptNodeV>::empty(),
    decreases children,
{
    let n = children.nodes.len();
    let mut acc = OptNodes::new();
    let mut i: usize = 0;
    proof {
        assert(acc@ =~= Seq::<OptNodeV>::empty());
    }
    while i < n
        invariant
            i <= n,
            acc@ == Seq::<OptNodeV>::empty(),
        decreases n - i,
    {
        proof {
            assert(decreases_to!(*children => children.nodes));
            assert(decreases_to!(children.nodes => children.nodes@));
            assert(decreases_to!(children.nodes@ => children.nodes@[i as int]));
        }
        let node = classify(&children.nodes[i]);
        acc = acc.add(node);
        i = i + 1;
    }
    acc
}

impl From<html::Node> for OptNode {
    /// The classification of one canonical node.
    fn from(node: html::Node) -> (r: OptNode)
        ensures
            r@ == opt_node_from_spec(node@),
    {
        classify(&node)
    }
}

impl vstd::std_specs::convert::FromSpecImpl<html::Node> for OptNode {
    open spec fn obeys_from_spec() -> bool {
        false
    }

    open spec fn from_spec(node: html::Node) -> OptNode {
        arbitrary()
    }
}

impl From<html::Nodes> for OptNodes {
    /// The classification of a whole sibling sequence: every node is
    /// classified and offered to the collector, which keeps none of them.
    fn from(nodes: html::Nodes) -> (r: OptNodes)
        ensures
            r@ == Seq::<OptNodeV>::empty(),
    {
        classify_children(&nodes)
    }
}

impl vstd::std_specs::convert::FromSpecImpl<html::Nodes> for OptNodes {
    open spec fn obeys_from_spec() -> bool {
        false
    }

    open spec fn from_spec(nodes: html::Nodes) -> OptNodes {
        arbitrary()
    }
}

impl OptNode {
    fn optimize_node(tag: Tag, children: OptNodes) -> (r: OptNodes)
        ensures
            r == children,
    {
        children
    }

    /// An element dissolves into its children; a leaf or nothing yields the
    /// empty collection.
    pub fn optimize(self) -> (r: OptNodes)
        ensures
            match self {
                OptNode::Node(_, children) => r == children,
                _ => r.nodes@ == Seq::<OptNode>::empty(),
            },
    {
        match self {
            OptNode::Nothing => OptNodes::new(),
            OptNode::Node(tag, children) => OptNode::optimize_node(tag, children),
            _ => OptNodes::new(),
        }
    }
}

} // verus!
